//! What holds over a whole sale, and from sale to sale.

use crate::arithmetic;
use crate::auction;
use crate::auction::{Action, Allocation, Bid};
use crate::auction_laws;
use crate::market::{DisplacedBid, RenewalRightsProvider, TickAction};
use crate::market_laws;
use crate::model;
use crate::model::MarketModel;
use crate::primitives::{CoreIndex, StatusRecord, Timeslice};
use crate::records::{
    AccountId, Balance, BidId, BidRecord, BlockNumber, ConfigRecordOf, SaleInfoRecordOf, SalePhase,
};
use crate::renewal;
use crate::renewal::RenewalDecision;
use crate::storage;
use vstd::prelude::*;

verus! {

// From sale to sale.

/// Whether a market holds what belongs to the phase that it is in, and nothing
/// that is left of another.
pub open spec fn orderly(m: MarketModel, max_bids: u32) -> bool {
    &&& m.wf()
    &&& m.next_bid_id <= max_bids
    &&& m.current_phase != Some(SalePhase::Market) ==> m.bids.len() == 0
    &&& m.current_phase != Some(SalePhase::Renewal) ==> {
        &&& m.allocations.len() == 0
        &&& m.winners.len() == 0
        &&& m.renewal_count == 0
    }
    &&& match m.current_phase {
        None => m.next_bid_id == 0 && m.auction_clearing_price is None,
        Some(SalePhase::Market) => {
            &&& m.auction_clearing_price is None
            &&& m.sale_info is Some
            &&& m.sale_info->0.cores_sold == 0
            &&& m.sale_info->0.clearing_price is None
            &&& m.sale_info->0.first_core + m.sale_info->0.cores_offered <= u16::MAX
        },
        Some(SalePhase::Renewal) => {
            &&& m.sale_info is Some
            &&& m.auction_clearing_price is Some
            &&& m.sale_info->0.clearing_price == m.auction_clearing_price
            &&& renewal::allotted(m.allocations, m.renewal_count) <= u16::MAX
        },
        Some(SalePhase::Settlement) => m.sale_info is Some,
    }
}

/// An operation on a market whose sales are started.
pub enum Operation {
    SetConfiguration { config: ConfigRecordOf },
    SetStatus { status: StatusRecord },
    PlaceOrder { now: BlockNumber, who: AccountId, price_limit: Balance },
    RaiseBid { now: BlockNumber, id: BidId, who: AccountId, new_price: Balance },
    PlaceRenewalOrder { who: AccountId, core_count: CoreIndex },
    /// A tick, with the reserved cores, the hash of the parent block and
    /// whether there is room for what it takes.
    Tick {
        now: BlockNumber,
        core_count: CoreIndex,
        last_committed_timeslice: Timeslice,
        reserved_cores: CoreIndex,
        seed: Seq<u8>,
        has_weight: bool,
    },
}

/// A market after an operation.
pub open spec fn after_operation<R: RenewalRightsProvider<AccountId>>(
    m: MarketModel,
    operation: Operation,
    rights: R,
    max_bids: u32,
) -> MarketModel {
    match operation {
        Operation::SetConfiguration { config } => m.with_configuration(config),
        Operation::SetStatus { status } => m.with_status(status),
        Operation::PlaceOrder { now, who, price_limit } => if m.order_refusal(
            now,
            max_bids,
        ) is None {
            m.after_order(who, m.bid_price(now, price_limit))
        } else {
            m
        },
        Operation::RaiseBid { now, id, who, new_price } => if m.raise_refusal(
            now,
            id,
            who,
            new_price,
        ) is None {
            m.after_raise(id, who, new_price)
        } else {
            m
        },
        Operation::PlaceRenewalOrder { who, core_count } => after_renewal_order(
            m,
            RenewalOrder { who, core_count },
        ),
        Operation::Tick {
            now,
            core_count,
            last_committed_timeslice,
            reserved_cores,
            seed,
            has_weight,
        } => if m.phase_is_over(now, last_committed_timeslice) && has_weight {
            m.after_phase(now, core_count, reserved_cores, seed, rights, max_bids)
        } else {
            m
        },
    }
}

/// A market after a number of operations.
pub open spec fn after_operations<R: RenewalRightsProvider<AccountId>>(
    m: MarketModel,
    operations: Seq<Operation>,
    rights: R,
    max_bids: u32,
) -> MarketModel
    decreases operations.len(),
{
    if operations.len() == 0 {
        m
    } else {
        after_operation(
            after_operations(m, operations.drop_last(), rights, max_bids),
            operations.last(),
            rights,
            max_bids,
        )
    }
}

/// A market that nothing has been told, or just its parameters, is orderly,
/// and starting its sales keeps it so.
pub proof fn law_started_markets_are_orderly(
    config: ConfigRecordOf,
    block_number: BlockNumber,
    reserve_price: Balance,
    core_count: CoreIndex,
    reserved_cores: CoreIndex,
    timeslice_period: BlockNumber,
    max_bids: u32,
)
    ensures
        orderly(MarketModel::blank(), max_bids),
        orderly(MarketModel::blank().with_configuration(config), max_bids),
        orderly(
            MarketModel::blank().with_configuration(config).after_start(
                block_number,
                reserve_price,
                core_count,
                reserved_cores,
                timeslice_period,
            ),
            max_bids,
        ),
{
    let m = MarketModel::blank().with_configuration(config);
    market_laws::law_offered_cores_exist(
        m.bootstrap_sale(block_number, reserve_price, timeslice_period),
        config,
        core_count,
        reserved_cores,
        block_number,
    );
}

/// Each operation keeps an orderly market so.
pub proof fn law_operations_keep_order<R: RenewalRightsProvider<AccountId>>(
    m: MarketModel,
    operation: Operation,
    rights: R,
    max_bids: u32,
)
    requires
        orderly(m, max_bids),
    ensures
        orderly(after_operation(m, operation, rights, max_bids), max_bids),
{
    let after = after_operation(m, operation, rights, max_bids);
    match operation {
        Operation::PlaceOrder { now, who, price_limit } => {
            if m.order_refusal(now, max_bids) is None {
                assert forall|i: int, j: int| 0 <= i < j < after.bids.len() implies (
                #[trigger] after.bids[i]).0 != (#[trigger] after.bids[j]).0 by {
                    assert(m.bids[i].0 < m.next_bid_id);
                    if j < m.bids.len() {
                        assert(m.bids[i].0 != m.bids[j].0);
                    }
                }
            }
        },
        Operation::RaiseBid { now, id, who, new_price } => {
            if m.raise_refusal(now, id, who, new_price) is None {
                assert forall|i: int| 0 <= i < after.bids.len() implies (
                #[trigger] after.bids[i]).0 == m.bids[i].0 by {}
            }
        },
        Operation::PlaceRenewalOrder { who, core_count } => {
            if m.renewal_refusal(core_count) is None {
                market_laws::law_renewals_are_decided(m, core_count);
            }
        },
        Operation::Tick {
            now,
            core_count,
            last_committed_timeslice,
            reserved_cores,
            seed,
            has_weight,
        } => {
            if m.phase_is_over(now, last_committed_timeslice) && has_weight {
                auction::lemma_allotments_bound(
                    m.serving_order(seed),
                    m.walked().len(),
                    m.sale_info->0,
                    m.clearing_price(),
                    rights,
                );
                market_laws::law_offered_cores_exist(
                    m.sale_info->0,
                    m.configuration->0,
                    core_count,
                    reserved_cores,
                    now,
                );
            }
        },
        _ => {},
    }
}

/// A market whose sales were started once is orderly, whatever was done since.
pub proof fn law_markets_stay_orderly<R: RenewalRightsProvider<AccountId>>(
    m: MarketModel,
    operations: Seq<Operation>,
    rights: R,
    max_bids: u32,
)
    requires
        orderly(m, max_bids),
    ensures
        orderly(after_operations(m, operations, rights, max_bids), max_bids),
    decreases operations.len(),
{
    if operations.len() > 0 {
        law_markets_stay_orderly(m, operations.drop_last(), rights, max_bids);
        law_operations_keep_order(
            after_operations(m, operations.drop_last(), rights, max_bids),
            operations.last(),
            rights,
            max_bids,
        );
    }
}

/// In an orderly market renewals can always be counted.
pub proof fn law_orderly_markets_can_count(m: MarketModel, max_bids: u32)
    requires
        orderly(m, max_bids),
    ensures
        renewal::allotted(m.allocations, m.renewal_count) <= u16::MAX,
{
}

/// When the next sale begins, nothing of the old one is left: of a market that
/// was told its parameters and whose sales were started once, whatever was
/// done to it since. The next bid is the first of the new sale.
pub proof fn law_nothing_of_the_old_sale_is_left<R: RenewalRightsProvider<AccountId>>(
    config: ConfigRecordOf,
    block_number: BlockNumber,
    reserve_price: Balance,
    first_core_count: CoreIndex,
    first_reserved_cores: CoreIndex,
    timeslice_period: BlockNumber,
    operations: Seq<Operation>,
    rights: R,
    max_bids: u32,
    now: BlockNumber,
    core_count: CoreIndex,
    reserved_cores: CoreIndex,
    who: AccountId,
    price: Balance,
)
    requires
        after_operations(
            MarketModel::blank().with_configuration(config).after_start(
                block_number,
                reserve_price,
                first_core_count,
                first_reserved_cores,
                timeslice_period,
            ),
            operations,
            rights,
            max_bids,
        ).current_phase == Some(SalePhase::Settlement),
    ensures
        ({
            let m = after_operations(
                MarketModel::blank().with_configuration(config).after_start(
                    block_number,
                    reserve_price,
                    first_core_count,
                    first_reserved_cores,
                    timeslice_period,
                ),
                operations,
                rights,
                max_bids,
            );
            let next = m.after_rotation(now, core_count, reserved_cores);
            &&& next.current_phase == Some(SalePhase::Market)
            &&& next.next_bid_id == 0
            &&& next.auction_clearing_price is None
            &&& next.bids == Seq::<Bid>::empty()
            &&& next.allocations == Seq::<Allocation>::empty()
            &&& next.winners == Seq::<AccountId>::empty()
            &&& next.renewal_count == 0
            &&& next.sale_info->0.cores_sold == 0
            &&& next.sale_info->0.clearing_price is None
            &&& next.after_order(who, price).bids == seq![(0u32, BidRecord { who, price })]
        }),
{
    let first = MarketModel::blank().with_configuration(config).after_start(
        block_number,
        reserve_price,
        first_core_count,
        first_reserved_cores,
        timeslice_period,
    );
    law_started_markets_are_orderly(
        config,
        block_number,
        reserve_price,
        first_core_count,
        first_reserved_cores,
        timeslice_period,
        max_bids,
    );
    law_markets_stay_orderly(first, operations, rights, max_bids);
    let m = after_operations(first, operations, rights, max_bids);
    let next = m.after_rotation(now, core_count, reserved_cores);
    assert(next.bids =~= Seq::<Bid>::empty());
    assert(next.allocations =~= Seq::<Allocation>::empty());
    assert(next.winners =~= Seq::<AccountId>::empty());
    assert(next.after_order(who, price).bids =~= seq![(0u32, BidRecord { who, price })]);
}

// The Renewal phase.

/// An order for a renewal.
pub struct RenewalOrder {
    /// Who renews.
    pub who: AccountId,
    /// The number of cores when the order is placed.
    pub core_count: CoreIndex,
}

/// A market after an order for a renewal, which leaves it as it is where it is refused.
pub open spec fn after_renewal_order(m: MarketModel, order: RenewalOrder) -> MarketModel {
    if m.renewal_refusal(order.core_count) is None {
        m.after_renewal(order.who, order.core_count)
    } else {
        m
    }
}

/// A market after a number of orders for renewals.
pub open spec fn after_renewal_orders(m: MarketModel, orders: Seq<RenewalOrder>) -> MarketModel
    decreases orders.len(),
{
    if orders.len() == 0 {
        m
    } else {
        after_renewal_order(after_renewal_orders(m, orders.drop_last()), orders.last())
    }
}

/// The cores of the regions that a number of orders for renewals get.
pub open spec fn renewed_cores(m: MarketModel, orders: Seq<RenewalOrder>) -> Seq<CoreIndex>
    decreases orders.len(),
{
    if orders.len() == 0 {
        Seq::empty()
    } else {
        let before = after_renewal_orders(m, orders.drop_last());
        let cores = renewed_cores(m, orders.drop_last());
        let core_count = orders.last().core_count;
        if before.renewal_refusal(core_count) is None {
            cores.push(before.renewal_region(core_count).core)
        } else {
            cores
        }
    }
}

/// The winners that a number of orders for renewals displace.
pub open spec fn displacements(m: MarketModel, orders: Seq<RenewalOrder>) -> Seq<
    DisplacedBid<AccountId, Balance, BidId>,
>
    decreases orders.len(),
{
    if orders.len() == 0 {
        Seq::empty()
    } else {
        let before = after_renewal_orders(m, orders.drop_last());
        let displaced = displacements(m, orders.drop_last());
        let core_count = orders.last().core_count;
        match before.renewal_displaces(core_count) {
            Some(d) if before.renewal_refusal(core_count) is None => displaced.push(d),
            _ => displaced,
        }
    }
}

/// The cores that are allotted.
pub open spec fn allotted_cores(allocations: Seq<Allocation>) -> Seq<CoreIndex> {
    Seq::new(allocations.len(), |i: int| allocations[i].core)
}

/// Whether a core is one that a sale can sell where there are `core_count` cores.
pub open spec fn is_for_sale(sale: SaleInfoRecordOf, core: CoreIndex, core_count: CoreIndex) -> bool {
    sale.first_core <= core < core_count
}

/// Whether no core is held twice: each winner holds one, the renewals hold
/// `renewed`, and all of them come before the next free one.
spec fn held_once(m: MarketModel, renewed: Seq<CoreIndex>, core_count: CoreIndex) -> bool {
    let first = m.sale_info->0.first_core;
    let next = first + renewal::allotted(m.allocations, m.renewal_count);
    &&& forall|i: int, j: int|
        0 <= i < j < m.allocations.len() ==> (#[trigger] m.allocations[i]).core != (
        #[trigger] m.allocations[j]).core
    &&& forall|i: int|
        0 <= i < m.allocations.len() ==> first <= (#[trigger] m.allocations[i]).core < next
    &&& forall|i: int, j: int|
        0 <= i < j < renewed.len() ==> (#[trigger] renewed[i]) != (#[trigger] renewed[j])
    &&& forall|i: int| 0 <= i < renewed.len() ==> first <= (#[trigger] renewed[i]) < next
    &&& forall|i: int, j: int|
        0 <= i < m.allocations.len() && 0 <= j < renewed.len() ==> (
        #[trigger] m.allocations[i]).core != (#[trigger] renewed[j])
    &&& renewal::allotted(m.allocations, m.renewal_count) <= arithmetic::monus(
        core_count as int,
        first as int,
    )
}

/// One order for a renewal keeps every core held once.
proof fn lemma_held_once_step(m: MarketModel, renewed: Seq<CoreIndex>, order: RenewalOrder)
    requires
        m.wf(),
        held_once(m, renewed, order.core_count),
        m.renewal_refusal(order.core_count) is None,
    ensures
        held_once(
            m.after_renewal(order.who, order.core_count),
            renewed.push(m.renewal_region(order.core_count).core),
            order.core_count,
        ),
        m.after_renewal(order.who, order.core_count).wf(),
        m.after_renewal(order.who, order.core_count).sale_info == m.sale_info,
{
    market_laws::law_renewals_are_decided(m, order.core_count);
    let after = m.after_renewal(order.who, order.core_count);
    let core = m.renewal_region(order.core_count).core;
    match m.renewal_decision(order.core_count) {
        RenewalDecision::Displace(d) => {
            let d = d as int;
            assert(core == m.allocations[d].core);
            assert forall|i: int| 0 <= i < after.allocations.len() implies (
            #[trigger] after.allocations[i]) == m.allocations[if i < d {
                i
            } else {
                i + 1
            }] by {}
        },
        _ => {},
    }
}

/// Orders for renewals keep every core held once.
proof fn lemma_held_once(m: MarketModel, orders: Seq<RenewalOrder>, core_count: CoreIndex)
    requires
        m.wf(),
        held_once(m, Seq::empty(), core_count),
        forall|i: int| 0 <= i < orders.len() ==> (#[trigger] orders[i]).core_count == core_count,
    ensures
        after_renewal_orders(m, orders).wf(),
        after_renewal_orders(m, orders).sale_info == m.sale_info,
        held_once(after_renewal_orders(m, orders), renewed_cores(m, orders), core_count),
    decreases orders.len(),
{
    if orders.len() > 0 {
        let rest = orders.drop_last();
        assert forall|i: int| 0 <= i < rest.len() implies (#[trigger] rest[i]).core_count
            == core_count by {
            assert(orders[i].core_count == core_count);
        }
        lemma_held_once(m, rest, core_count);
        assert(orders[orders.len() - 1].core_count == core_count);
        let before = after_renewal_orders(m, rest);
        if before.renewal_refusal(core_count) is None {
            lemma_held_once_step(before, renewed_cores(m, rest), orders.last());
        }
    }
}

/// No core is handed out twice: in the Renewal phase that follows the
/// settlement of an auction, after any number of orders for renewals, the cores
/// that they got and those that the remaining winners hold are all different,
/// and all lie from the first core for sale up to the core count.
pub proof fn law_no_core_is_handed_out_twice<R: RenewalRightsProvider<AccountId>>(
    m: MarketModel,
    seed: Seq<u8>,
    rights: R,
    max_bids: u32,
    orders: Seq<RenewalOrder>,
    core_count: CoreIndex,
)
    requires
        orderly(m, max_bids),
        m.current_phase == Some(SalePhase::Market),
        m.sale_info->0.cores_offered <= arithmetic::monus(
            core_count as int,
            m.sale_info->0.first_core as int,
        ),
        forall|i: int| 0 <= i < orders.len() ==> (#[trigger] orders[i]).core_count == core_count,
    ensures
        ({
            let settled = m.after_settlement(seed, rights, max_bids);
            let cores = renewed_cores(settled, orders) + allotted_cores(
                after_renewal_orders(settled, orders).allocations,
            );
            &&& cores.no_duplicates()
            &&& forall|i: int|
                0 <= i < cores.len() ==> is_for_sale(
                    m.sale_info->0,
                    #[trigger] cores[i],
                    core_count,
                )
        }),
{
    let sale = m.sale_info->0;
    let settled = m.after_settlement(seed, rights, max_bids);
    let all = m.allotments(seed, rights);
    auction_laws::law_winners_get_cores_of_their_own(m.walked(), sale, seed, rights);
    auction_laws::law_winners_are_the_first_served(m.walked(), sale, seed, rights);
    assert(forall|i: int|
        0 <= i < settled.allocations.len() ==> (#[trigger] settled.allocations[i]) == all[i]);
    assert(held_once(settled, Seq::empty(), core_count));
    lemma_held_once(settled, orders, core_count);
    let last = after_renewal_orders(settled, orders);
    let renewed = renewed_cores(settled, orders);
    let held = allotted_cores(last.allocations);
    let cores = renewed + held;
    let n = renewed.len() as int;
    assert forall|i: int| 0 <= i < cores.len() implies #[trigger] cores[i] == (if i < n {
        renewed[i]
    } else {
        last.allocations[i - n].core
    }) by {}
    assert forall|i: int, j: int| 0 <= i < cores.len() && 0 <= j < cores.len() && i != j implies
        cores[i] != cores[j] by {
        let (a, b) = if i < j {
            (i, j)
        } else {
            (j, i)
        };
        if b < n {
            assert(renewed[a] != renewed[b]);
        } else if a < n {
            assert(last.allocations[b - n].core != renewed[a]);
        } else {
            assert(last.allocations[a - n].core != last.allocations[b - n].core);
        }
    }
}

// Funds and bids.

/// What `f` gives for all elements, added up.
pub open spec fn sum<A>(s: Seq<A>, f: spec_fn(A) -> int) -> int
    decreases s.len(),
{
    if s.len() == 0 {
        0
    } else {
        sum(s.drop_last(), f) + f(s.last())
    }
}

/// One more element adds to the sum.
proof fn lemma_sum_push<A>(s: Seq<A>, x: A, f: spec_fn(A) -> int)
    ensures
        sum(s.push(x), f) == sum(s, f) + f(x),
{
    assert(s.push(x).drop_last() =~= s);
}

/// One element less takes from the sum.
proof fn lemma_sum_remove<A>(s: Seq<A>, i: int, f: spec_fn(A) -> int)
    requires
        0 <= i < s.len(),
    ensures
        sum(s.remove(i), f) == sum(s, f) - f(s[i]),
    decreases s.len(),
{
    if i == s.len() - 1 {
        assert(s.remove(i) =~= s.drop_last());
    } else {
        lemma_sum_remove(s.drop_last(), i, f);
        assert(s.remove(i).drop_last() =~= s.drop_last().remove(i));
        assert(s.remove(i).last() == s.last());
    }
}

/// The order of the elements does not matter to the sum.
proof fn lemma_sum_of_permutation<A>(s: Seq<A>, t: Seq<A>, f: spec_fn(A) -> int)
    requires
        s.to_multiset() == t.to_multiset(),
    ensures
        sum(s, f) == sum(t, f),
    decreases s.len(),
{
    s.to_multiset_ensures();
    t.to_multiset_ensures();
    if s.len() > 0 {
        assert(s.contains(s.last()));
        assert(s.to_multiset().count(s.last()) > 0);
        assert(t.to_multiset().count(s.last()) > 0);
        assert(t.contains(s.last()));
        let i = choose|i: int| 0 <= i < t.len() && t[i] == s.last();
        lemma_sum_remove(t, i, f);
        assert(s.drop_last() =~= s.remove(s.len() - 1));
        lemma_sum_of_permutation(s.drop_last(), t.remove(i), f);
    }
}

/// What an account has locked for a bid.
pub open spec fn locked_by(w: AccountId) -> spec_fn(Bid) -> int {
    |b: Bid|
        if b.1.who == w {
            b.1.price as int
        } else {
            0
        }
}

/// What is refunded to an account.
pub open spec fn refunded_to(w: AccountId) -> spec_fn(Action) -> int {
    |a: Action|
        match a {
            TickAction::Refund { amount, who } if who == w => amount as int,
            _ => 0,
        }
}

/// What is refunded to an account because it is displaced.
pub open spec fn displaced_to(w: AccountId) -> spec_fn(
    DisplacedBid<AccountId, Balance, BidId>,
) -> int {
    |d: DisplacedBid<AccountId, Balance, BidId>|
        if d.who == w {
            d.refund as int
        } else {
            0
        }
}

/// What an account pays for a region.
pub open spec fn paid_by(w: AccountId) -> spec_fn(Action) -> int {
    |a: Action|
        match a {
            TickAction::SellRegion { owner, paid, .. } if owner == w => paid as int,
            _ => 0,
        }
}

/// What an account owes for an allotment.
spec fn owed_by(w: AccountId, clearing: Balance) -> spec_fn(Allocation) -> int {
    |a: Allocation|
        if a.who == w {
            clearing as int
        } else {
            0
        }
}

/// What an account has locked is what is refunded to it and what it owes for
/// its allotments.
proof fn lemma_funds_at_settlement<R: RenewalRightsProvider<AccountId>>(
    order: Seq<Bid>,
    n: nat,
    sale: SaleInfoRecordOf,
    clearing: Balance,
    rights: R,
    w: AccountId,
)
    requires
        n <= order.len(),
    ensures
        sum(order.take(n as int), locked_by(w)) == sum(
            auction::refunds(order, n, sale.cores_offered, clearing),
            refunded_to(w),
        ) + sum(auction::allotments(order, n, sale, clearing, rights), owed_by(w, clearing)),
    decreases n,
{
    if n > 0 {
        let m = (n - 1) as nat;
        lemma_funds_at_settlement(order, m, sale, clearing, rights, w);
        assert(order.take(n as int).drop_last() =~= order.take(m as int));
        let refunds = auction::refunds(order, m, sale.cores_offered, clearing);
        let amount = auction::refund_of(order, m as int, sale.cores_offered, clearing);
        let refund: Action = TickAction::Refund { amount: amount as u64, who: order[m as int].1.who };
        lemma_sum_push(refunds, refund, refunded_to(w));
        lemma_sum_push(
            auction::allotments(order, m, sale, clearing, rights),
            auction::allotment(order, m as int, sale, clearing, rights),
            owed_by(w, clearing),
        );
    } else {
        assert(order.take(0) =~= Seq::empty());
    }
}

/// What renewals keep, and how a sum over allotments and one over displacements
/// change together.
proof fn lemma_sums_over_renewals(
    m: MarketModel,
    orders: Seq<RenewalOrder>,
    f: spec_fn(Allocation) -> int,
    g: spec_fn(DisplacedBid<AccountId, Balance, BidId>) -> int,
)
    requires
        m.wf(),
        renewal::allotted(m.allocations, m.renewal_count) <= u16::MAX,
        forall|a: Allocation, d: DisplacedBid<AccountId, Balance, BidId>|
            a.who == d.who && a.bid_id == d.bid_id && d.refund == m.displacement_refund()
                ==> #[trigger] f(a) == #[trigger] g(d),
    ensures
        after_renewal_orders(m, orders).wf(),
        after_renewal_orders(m, orders).sale_info == m.sale_info,
        renewal::allotted(
            after_renewal_orders(m, orders).allocations,
            after_renewal_orders(m, orders).renewal_count,
        ) <= u16::MAX,
        sum(after_renewal_orders(m, orders).allocations, f) + sum(displacements(m, orders), g)
            == sum(m.allocations, f),
    decreases orders.len(),
{
    if orders.len() > 0 {
        let rest = orders.drop_last();
        lemma_sums_over_renewals(m, rest, f, g);
        let before = after_renewal_orders(m, rest);
        let core_count = orders.last().core_count;
        if before.renewal_refusal(core_count) is None {
            market_laws::law_renewals_are_decided(before, core_count);
            match before.renewal_decision(core_count) {
                RenewalDecision::Displace(i) => {
                    let d = before.renewal_displaces(core_count)->0;
                    lemma_sum_remove(before.allocations, i as int, f);
                    lemma_sum_push(displacements(m, rest), d, g);
                    assert(f(before.allocations[i as int]) == g(d));
                },
                _ => {},
            }
        }
    }
}

/// What an account pays for its regions is what it owes for its allotments.
proof fn lemma_funds_at_conclusion(
    sale: SaleInfoRecordOf,
    allocations: Seq<Allocation>,
    w: AccountId,
)
    ensures
        sum(renewal::region_sales(sale, allocations), paid_by(w)) == sum(
            allocations,
            owed_by(w, renewal::price_paid(sale)),
        ),
    decreases allocations.len(),
{
    if allocations.len() > 0 {
        let sales = renewal::region_sales(sale, allocations);
        lemma_funds_at_conclusion(sale, allocations.drop_last(), w);
        assert(sales.drop_last() =~= renewal::region_sales(sale, allocations.drop_last()));
    }
}

/// Over a whole sale no account loses funds and none gains any: what its final
/// bids come to is what is refunded to it when the auction is settled, what is
/// refunded to it because it is displaced, and what it pays for its regions
/// when the sale is concluded, whatever renewals there were.
pub proof fn law_funds_of_each_account_are_conserved<R: RenewalRightsProvider<AccountId>>(
    m: MarketModel,
    now: BlockNumber,
    core_count: CoreIndex,
    reserved_cores: CoreIndex,
    seed: Seq<u8>,
    rights: R,
    max_bids: u32,
    orders: Seq<RenewalOrder>,
    later: BlockNumber,
    w: AccountId,
)
    requires
        orderly(m, max_bids),
        m.current_phase == Some(SalePhase::Market),
    ensures
        ({
            let settled = m.after_phase(now, core_count, reserved_cores, seed, rights, max_bids);
            let renewed = after_renewal_orders(settled, orders);
            let settling = m.phase_actions(now, core_count, reserved_cores, seed);
            let concluding = renewed.phase_actions(later, core_count, reserved_cores, seed);
            sum(m.bids, locked_by(w)) == sum(settling, refunded_to(w)) + sum(
                displacements(settled, orders),
                displaced_to(w),
            ) + sum(concluding, paid_by(w))
        }),
{
    let sale = m.sale_info->0;
    let clearing = m.clearing_price();
    let order = m.serving_order(seed);
    let settled = m.after_phase(now, core_count, reserved_cores, seed, rights, max_bids);
    storage::law_walk_meets_every_bid(m.bids);
    auction_laws::law_every_bid_is_served_once(m.walked(), sale, seed);
    order.to_multiset_ensures();
    m.bids.to_multiset_ensures();
    assert(order.len() == m.bids.len());
    lemma_sum_of_permutation(order, m.bids, locked_by(w));
    lemma_funds_at_settlement(order, m.walked().len(), sale, clearing, rights, w);
    assert(order.take(order.len() as int) =~= order);
    lemma_sum_push(m.refunds(seed), TickAction::ProcessRenewals, refunded_to(w));
    market_laws::law_no_winner_is_dropped(m, seed, rights, max_bids);
    law_settled_markets_are_orderly(m, seed, rights, max_bids);
    lemma_sums_over_renewals(settled, orders, owed_by(w, clearing), displaced_to(w));
    let renewed = after_renewal_orders(settled, orders);
    lemma_renewals_keep_the_phase(settled, orders);
    lemma_funds_at_conclusion(renewed.sale_info->0, renewed.allocations, w);
}

/// The settlement of an auction keeps an orderly market so.
pub proof fn law_settled_markets_are_orderly<R: RenewalRightsProvider<AccountId>>(
    m: MarketModel,
    seed: Seq<u8>,
    rights: R,
    max_bids: u32,
)
    requires
        orderly(m, max_bids),
        m.current_phase == Some(SalePhase::Market),
    ensures
        orderly(m.after_settlement(seed, rights, max_bids), max_bids),
{
    auction::lemma_allotments_bound(
        m.serving_order(seed),
        m.walked().len(),
        m.sale_info->0,
        m.clearing_price(),
        rights,
    );
}

/// Orders for renewals do not end a phase.
proof fn lemma_renewals_keep_the_phase(m: MarketModel, orders: Seq<RenewalOrder>)
    ensures
        after_renewal_orders(m, orders).current_phase == m.current_phase,
    decreases orders.len(),
{
    if orders.len() > 0 {
        lemma_renewals_keep_the_phase(m, orders.drop_last());
    }
}

/// The identities of the bids that lose among the first `n` served.
pub open spec fn lost(
    order: Seq<Bid>,
    n: nat,
    cores_offered: CoreIndex,
    clearing: Balance,
) -> Seq<BidId>
    decreases n,
{
    if n == 0 {
        Seq::empty()
    } else {
        let before = lost(order, (n - 1) as nat, cores_offered, clearing);
        if auction::wins(order, n - 1, cores_offered, clearing) {
            before
        } else {
            before.push(order[n - 1].0)
        }
    }
}

/// One for the given identity, none for another.
pub open spec fn is_id(id: BidId) -> spec_fn(BidId) -> int {
    |x: BidId|
        if x == id {
            1
        } else {
            0
        }
}

/// One for the bid with an identity, none for another.
pub open spec fn is_bid(id: BidId) -> spec_fn(Bid) -> int {
    |b: Bid|
        if b.0 == id {
            1
        } else {
            0
        }
}

/// One for the allotment to the bid with an identity, none for another.
pub open spec fn is_allotment_of(id: BidId) -> spec_fn(Allocation) -> int {
    |a: Allocation|
        if a.bid_id == id {
            1
        } else {
            0
        }
}

/// One for the displacement of the bid with an identity, none for another.
pub open spec fn is_displacement_of(id: BidId) -> spec_fn(
    DisplacedBid<AccountId, Balance, BidId>,
) -> int {
    |d: DisplacedBid<AccountId, Balance, BidId>|
        if d.bid_id == id {
            1
        } else {
            0
        }
}

/// Each bid that is served loses or is allotted a core.
proof fn lemma_bids_at_settlement<R: RenewalRightsProvider<AccountId>>(
    order: Seq<Bid>,
    n: nat,
    sale: SaleInfoRecordOf,
    clearing: Balance,
    rights: R,
    id: BidId,
)
    requires
        n <= order.len(),
    ensures
        sum(order.take(n as int), is_bid(id)) == sum(
            lost(order, n, sale.cores_offered, clearing),
            is_id(id),
        ) + sum(auction::allotments(order, n, sale, clearing, rights), is_allotment_of(id)),
    decreases n,
{
    if n > 0 {
        let m = (n - 1) as nat;
        lemma_bids_at_settlement(order, m, sale, clearing, rights, id);
        assert(order.take(n as int).drop_last() =~= order.take(m as int));
        lemma_sum_push(
            lost(order, m, sale.cores_offered, clearing),
            order[m as int].0,
            is_id(id),
        );
        lemma_sum_push(
            auction::allotments(order, m, sale, clearing, rights),
            auction::allotment(order, m as int, sale, clearing, rights),
            is_allotment_of(id),
        );
    } else {
        assert(order.take(0) =~= Seq::empty());
    }
}

/// Where identities are distinct, a bid that is there is there once.
proof fn lemma_bids_are_distinct(bids: Seq<Bid>, id: BidId)
    requires
        forall|i: int, j: int|
            0 <= i < j < bids.len() ==> (#[trigger] bids[i]).0 != (#[trigger] bids[j]).0,
    ensures
        sum(bids, is_bid(id)) == (if model::has_bid(bids, id) {
            1int
        } else {
            0
        }),
    decreases bids.len(),
{
    if bids.len() > 0 {
        let rest = bids.drop_last();
        assert(forall|i: int| 0 <= i < rest.len() ==> (#[trigger] rest[i]) == bids[i]);
        lemma_bids_are_distinct(rest, id);
        let last = bids.len() - 1;
        if bids[last].0 == id {
            assert(model::has_bid(bids, id));
            if model::has_bid(rest, id) {
                let i = choose|i: int| 0 <= i < rest.len() && (#[trigger] rest[i]).0 == id;
                assert(bids[i].0 != bids[last].0);
            }
        } else {
            if model::has_bid(bids, id) {
                let i = choose|i: int| 0 <= i < bids.len() && (#[trigger] bids[i]).0 == id;
                assert(rest[i].0 == id);
            }
            if model::has_bid(rest, id) {
                let i = choose|i: int| 0 <= i < rest.len() && (#[trigger] rest[i]).0 == id;
                assert(bids[i].0 == id);
            }
        }
    }
}

/// Each bid of a sale ends once, as just one of lost when the auction is
/// settled, displaced by a renewal, or sold a region when the sale is
/// concluded, whatever renewals there were.
pub proof fn law_each_bid_ends_once<R: RenewalRightsProvider<AccountId>>(
    m: MarketModel,
    seed: Seq<u8>,
    rights: R,
    max_bids: u32,
    orders: Seq<RenewalOrder>,
    id: BidId,
)
    requires
        orderly(m, max_bids),
        m.current_phase == Some(SalePhase::Market),
    ensures
        ({
            let settled = m.after_settlement(seed, rights, max_bids);
            let losers = lost(
                m.serving_order(seed),
                m.walked().len(),
                m.sale_info->0.cores_offered,
                m.clearing_price(),
            );
            sum(losers, is_id(id)) + sum(displacements(settled, orders), is_displacement_of(id))
                + sum(after_renewal_orders(settled, orders).allocations, is_allotment_of(id)) == (
            if model::has_bid(m.bids, id) {
                1int
            } else {
                0
            })
        }),
{
    let sale = m.sale_info->0;
    let clearing = m.clearing_price();
    let order = m.serving_order(seed);
    let settled = m.after_settlement(seed, rights, max_bids);
    storage::law_walk_meets_every_bid(m.bids);
    auction_laws::law_every_bid_is_served_once(m.walked(), sale, seed);
    order.to_multiset_ensures();
    m.bids.to_multiset_ensures();
    assert(order.len() == m.bids.len());
    lemma_sum_of_permutation(order, m.bids, is_bid(id));
    lemma_bids_at_settlement(order, m.walked().len(), sale, clearing, rights, id);
    assert(order.take(order.len() as int) =~= order);
    market_laws::law_no_winner_is_dropped(m, seed, rights, max_bids);
    law_settled_markets_are_orderly(m, seed, rights, max_bids);
    lemma_sums_over_renewals(settled, orders, is_allotment_of(id), is_displacement_of(id));
    lemma_bids_are_distinct(m.bids, id);
}

// The outcome of an auction.

/// One for a bid above a price, none for another.
pub open spec fn is_above(price: Balance) -> spec_fn(Bid) -> int {
    |b: Bid|
        if b.1.price > price {
            1
        } else {
            0
        }
}

/// One for a bid at a price or above it, none for another.
pub open spec fn is_at_least(price: Balance) -> spec_fn(Bid) -> int {
    |b: Bid|
        if b.1.price >= price {
            1
        } else {
            0
        }
}

/// Counting the bids that reach a price is adding one for each.
proof fn lemma_count_is_sum(bids: Seq<Bid>, price: Balance)
    ensures
        auction::count_reaching(bids, price, false) == sum(bids, is_above(price)),
        auction::count_reaching(bids, price, true) == sum(bids, is_at_least(price)),
        0 <= sum(bids, is_above(price)) <= bids.len(),
    decreases bids.len(),
{
    broadcast use Seq::lemma_filter_push;

    reveal(Seq::filter);
    if bids.len() > 0 {
        let rest = bids.drop_last();
        lemma_count_is_sum(rest, price);
        assert(rest.push(bids.last()) =~= bids);
    }
}

/// How an auction is settled.
///
/// The clearing price is no lower than the reserve price. Fewer bids than there
/// are cores lie above it, and, where it is above the reserve price, at least as
/// many lie at it or above. As many bids win as there are cores, or all that
/// reach the clearing price where those are fewer. Each winner is one of the
/// bids, reaches the clearing price and pays it; no bid that loses is higher
/// than one that wins. The winners get the cores from the first on, the higher
/// bid before the lower. A winner counts as one with renewal rights if and only
/// if the provider knows of one or more for the end of the regions sold.
pub proof fn law_an_auction_is_settled<R: RenewalRightsProvider<AccountId>>(
    m: MarketModel,
    seed: Seq<u8>,
    rights: R,
    max_bids: u32,
)
    requires
        orderly(m, max_bids),
        m.current_phase == Some(SalePhase::Market),
    ensures
        ({
            let sale = m.sale_info->0;
            let cores = sale.cores_offered as int;
            let settled = m.after_settlement(seed, rights, max_bids);
            let price = settled.auction_clearing_price->0;
            let winners = settled.allocations;
            let reaching = sum(m.bids, is_at_least(price));
            &&& settled.auction_clearing_price is Some
            &&& price >= sale.reserve_price
            &&& cores > 0 ==> sum(m.bids, is_above(price)) < cores
            &&& price > sale.reserve_price ==> cores > 0 && reaching >= cores
            &&& winners.len() == (if reaching < cores {
                reaching
            } else {
                cores
            })
            &&& settled.sale_info == Some(
                SaleInfoRecordOf {
                    cores_sold: winners.len() as u16,
                    clearing_price: Some(price),
                    ..sale
                },
            )
            &&& settled.sale_info->0.cores_sold == winners.len()
            &&& settled.winners.len() == winners.len()
            &&& settled.bids.len() == 0
            &&& settled.current_phase == Some(SalePhase::Renewal)
            &&& settled.renewal_count == 0
            &&& settled.configuration == m.configuration
            &&& settled.status == m.status
            &&& settled.next_bid_id == m.next_bid_id
            &&& forall|i: int|
                0 <= i < winners.len() ==> {
                    &&& m.bids.contains(
                        (
                            (#[trigger] winners[i]).bid_id,
                            BidRecord { who: winners[i].who, price: winners[i].bid_price },
                        ),
                    )
                    &&& winners[i].bid_price >= price
                    &&& winners[i].clearing_price == price
                    &&& winners[i].core == sale.first_core + i
                    &&& winners[i].has_renewal_rights <==> rights.rights(
                        winners[i].who,
                        sale.region_end,
                    ) >= 1
                    &&& settled.winners[i] == winners[i].who
                }
            &&& forall|i: int, j: int|
                0 <= i < j < winners.len() ==> {
                    &&& (#[trigger] winners[i]).bid_price >= (#[trigger] winners[j]).bid_price
                    &&& winners[i].bid_id != winners[j].bid_id
                }
            &&& forall|b: Bid, i: int|
                #![trigger m.bids.contains(b), winners[i]]
                m.bids.contains(b) && 0 <= i < winners.len() && !(exists|j: int|
                    0 <= j < winners.len() && (#[trigger] winners[j]).bid_id == b.0)
                    ==> b.1.price <= winners[i].bid_price
        }),
{
    let sale = m.sale_info->0;
    let bids = m.walked();
    let order = m.serving_order(seed);
    let price = m.clearing_price();
    let settled = m.after_settlement(seed, rights, max_bids);
    let winners = settled.allocations;
    storage::law_walk_meets_every_bid(m.bids);
    auction_laws::law_every_bid_is_served_once(bids, sale, seed);
    auction_laws::law_clearing_price_is_the_marginal_bid(bids, sale);
    auction_laws::law_winners_are_the_first_served(bids, sale, seed, rights);
    auction_laws::law_winners_pay_one_price(bids, sale, seed, rights);
    market_laws::law_no_winner_is_dropped(m, seed, rights, max_bids);
    lemma_count_is_sum(bids, price);
    lemma_sum_of_permutation(bids, m.bids, is_above(price));
    lemma_sum_of_permutation(bids, m.bids, is_at_least(price));
    assert(winners == m.allotments(seed, rights));
    order.to_multiset_ensures();
    m.bids.to_multiset_ensures();
    assert(order.len() == bids.len());
    assert forall|i: int| 0 <= i < order.len() implies m.bids.contains(#[trigger] order[i]) by {
        assert(order.contains(order[i]));
        assert(order.to_multiset().count(order[i]) > 0);
        assert(m.bids.to_multiset().count(order[i]) > 0);
    }
    lemma_permutation_keeps_identities(m.bids, order);
    assert forall|i: int| 0 <= i < winners.len() implies {
        &&& m.bids.contains(
            (
                (#[trigger] winners[i]).bid_id,
                BidRecord { who: winners[i].who, price: winners[i].bid_price },
            ),
        )
        &&& winners[i].bid_price >= price
        &&& winners[i].clearing_price == price
        &&& winners[i].core == sale.first_core + i
        &&& winners[i].has_renewal_rights <==> rights.rights(
            winners[i].who,
            sale.region_end,
        ) >= 1
        &&& settled.winners[i] == winners[i].who
    } by {
        assert(m.bids.contains(order[i]));
    }
    assert forall|i: int, j: int| 0 <= i < j < winners.len() implies {
        &&& (#[trigger] winners[i]).bid_price >= (#[trigger] winners[j]).bid_price
        &&& winners[i].bid_id != winners[j].bid_id
    } by {
        auction_laws::law_higher_bids_are_served_first(bids, sale, seed, i, j);
        assert(order[i].0 != order[j].0);
    }
    assert forall|b: Bid, i: int|
        #![trigger m.bids.contains(b), winners[i]]
        m.bids.contains(b) && 0 <= i < winners.len() && !(exists|j: int|
            0 <= j < winners.len() && (#[trigger] winners[j]).bid_id == b.0) implies b.1.price
        <= winners[i].bid_price by {
        assert(m.bids.to_multiset().count(b) > 0);
        assert(order.to_multiset().count(b) > 0);
        assert(order.contains(b));
        let j = choose|j: int| 0 <= j < order.len() && order[j] == b;
        if j < winners.len() {
            assert(winners[j].bid_id == b.0);
        }
        auction_laws::law_higher_bids_are_served_first(bids, sale, seed, i, j);
    }
}

/// Bids in another order have the same identities, once each where they had
/// them once.
proof fn lemma_permutation_keeps_identities(bids: Seq<Bid>, order: Seq<Bid>)
    requires
        forall|i: int, j: int|
            0 <= i < j < bids.len() ==> (#[trigger] bids[i]).0 != (#[trigger] bids[j]).0,
        order.to_multiset() == bids.to_multiset(),
    ensures
        forall|i: int, j: int|
            0 <= i < j < order.len() ==> (#[trigger] order[i]).0 != (#[trigger] order[j]).0,
{
    assert forall|i: int, j: int| 0 <= i < j < order.len() implies (#[trigger] order[i]).0 != (
    #[trigger] order[j]).0 by {
        if order[i].0 == order[j].0 {
            let id = order[i].0;
            lemma_sum_of_permutation(order, bids, is_bid(id));
            lemma_bids_are_distinct(bids, id);
            lemma_sum_of_two(order, is_bid(id), i, j);
        }
    }
}

/// A sum of numbers that are not negative is no less than two of them.
proof fn lemma_sum_of_two(bids: Seq<Bid>, f: spec_fn(Bid) -> int, i: int, j: int)
    requires
        0 <= i < j < bids.len(),
        forall|b: Bid| #[trigger] f(b) >= 0,
    ensures
        sum(bids, f) >= f(bids[i]) + f(bids[j]),
{
    lemma_sum_remove(bids, j, f);
    let rest = bids.remove(j);
    assert(rest[i] == bids[i]);
    lemma_sum_remove(rest, i, f);
    lemma_sum_is_not_negative(rest.remove(i), f);
}

/// A sum of numbers that are not negative is not negative.
proof fn lemma_sum_is_not_negative(bids: Seq<Bid>, f: spec_fn(Bid) -> int)
    requires
        forall|b: Bid| #[trigger] f(b) >= 0,
    ensures
        sum(bids, f) >= 0,
    decreases bids.len(),
{
    if bids.len() > 0 {
        lemma_sum_is_not_negative(bids.drop_last(), f);
    }
}

// A whole Renewal phase.

/// What orders for renewals leave as it is, and how they are counted.
proof fn lemma_renewals_keep_the_terms(m: MarketModel, orders: Seq<RenewalOrder>)
    requires
        m.wf(),
        renewal::allotted(m.allocations, m.renewal_count) <= u16::MAX,
    ensures
        ({
            let after = after_renewal_orders(m, orders);
            &&& after.wf()
            &&& renewal::allotted(after.allocations, after.renewal_count) <= u16::MAX
            &&& after.sale_info == m.sale_info
            &&& after.configuration == m.configuration
            &&& after.current_phase == m.current_phase
            &&& after.winners == m.winners
            &&& after.auction_clearing_price == m.auction_clearing_price
            &&& after.renewal_count == m.renewal_count + renewed_cores(m, orders).len()
        }),
    decreases orders.len(),
{
    if orders.len() > 0 {
        let rest = orders.drop_last();
        lemma_renewals_keep_the_terms(m, rest);
        let before = after_renewal_orders(m, rest);
        let core_count = orders.last().core_count;
        if before.renewal_refusal(core_count) is None {
            market_laws::law_renewals_are_decided(before, core_count);
        }
    }
}

/// A concluded sale counts as sold each core that the auction or a renewal
/// sold, up to the number on offer: as many as bids won and renewals were
/// granted, whatever orders for renewals there were.
pub proof fn law_a_concluded_sale_counts_all_sales<R: RenewalRightsProvider<AccountId>>(
    m: MarketModel,
    seed: Seq<u8>,
    rights: R,
    max_bids: u32,
    orders: Seq<RenewalOrder>,
)
    requires
        orderly(m, max_bids),
        m.current_phase == Some(SalePhase::Market),
    ensures
        ({
            let settled = m.after_settlement(seed, rights, max_bids);
            let concluded = after_renewal_orders(settled, orders).after_conclusion();
            let total = settled.allocations.len() + renewed_cores(settled, orders).len();
            let offered = m.sale_info->0.cores_offered;
            &&& concluded.sale_info is Some
            &&& concluded.sale_info->0.cores_offered == offered
            &&& concluded.sale_info->0.cores_sold == (if total < offered {
                total as int
            } else {
                offered as int
            })
        }),
{
    let settled = m.after_settlement(seed, rights, max_bids);
    law_an_auction_is_settled(m, seed, rights, max_bids);
    law_settled_markets_are_orderly(m, seed, rights, max_bids);
    lemma_renewals_keep_the_terms(settled, orders);
    market_laws::law_a_sale_is_concluded(after_renewal_orders(settled, orders), 0, 0, 0, seed);
}

/// Whether the allotments of a market are some of those that an auction made,
/// and each of these with renewal rights is among them.
spec fn protects(m: MarketModel, made: Seq<Allocation>) -> bool {
    &&& forall|i: int|
        0 <= i < m.allocations.len() ==> made.contains(#[trigger] m.allocations[i])
    &&& forall|i: int|
        0 <= i < made.len() && (#[trigger] made[i]).has_renewal_rights ==> m.allocations.contains(
            made[i],
        )
}

/// Whether an account holds an allotment that does not count as one with renewal rights.
spec fn holds_exposed(allocations: Seq<Allocation>, who: AccountId) -> bool {
    exists|j: int|
        0 <= j < allocations.len() && !(#[trigger] allocations[j]).has_renewal_rights
            && allocations[j].who == who
}

/// Orders for renewals protect winners with renewal rights.
proof fn lemma_renewals_protect(m: MarketModel, orders: Seq<RenewalOrder>)
    requires
        m.wf(),
        renewal::allotted(m.allocations, m.renewal_count) <= u16::MAX,
    ensures
        protects(after_renewal_orders(m, orders), m.allocations),
        forall|i: int|
            0 <= i < displacements(m, orders).len() ==> holds_exposed(
                m.allocations,
                (#[trigger] displacements(m, orders)[i]).who,
            ),
    decreases orders.len(),
{
    let made = m.allocations;
    if orders.len() == 0 {
        assert forall|i: int| 0 <= i < made.len() implies made.contains(#[trigger] made[i]) by {}
    } else {
        let rest = orders.drop_last();
        lemma_renewals_protect(m, rest);
        lemma_renewals_keep_the_terms(m, rest);
        let before = after_renewal_orders(m, rest);
        let after = after_renewal_orders(m, orders);
        let core_count = orders.last().core_count;
        if before.renewal_refusal(core_count) is None {
            market_laws::law_renewals_are_decided(before, core_count);
            match before.renewal_decision(core_count) {
                RenewalDecision::Displace(d) => {
                    let d = d as int;
                    assert forall|i: int| 0 <= i < after.allocations.len() implies made.contains(
                        #[trigger] after.allocations[i],
                    ) by {
                        let k = if i < d {
                            i
                        } else {
                            i + 1
                        };
                        assert(after.allocations[i] == before.allocations[k]);
                    }
                    assert forall|i: int|
                        0 <= i < made.len() && (
                        #[trigger] made[i]).has_renewal_rights implies after.allocations.contains(
                        made[i],
                    ) by {
                        assert(before.allocations.contains(made[i]));
                        let k = choose|k: int|
                            0 <= k < before.allocations.len() && before.allocations[k] == made[i];
                        if k < d {
                            assert(after.allocations[k] == made[i]);
                        } else {
                            assert(after.allocations[k - 1] == made[i]);
                        }
                    }
                    assert(made.contains(before.allocations[d]));
                    let j = choose|j: int| 0 <= j < made.len() && made[j] == before.allocations[d];
                    assert(!made[j].has_renewal_rights);
                    assert(holds_exposed(made, before.allocations[d].who));
                    assert(displacements(m, orders) =~= displacements(m, rest).push(
                        before.renewal_displaces(core_count)->0,
                    ));
                },
                _ => {},
            }
        }
    }
}

/// Winners of the auction that hold renewal rights are never displaced: in the
/// Renewal phase that follows, whatever orders there are, each winner that is
/// displaced is one of whom the provider knows no renewal right for the end of
/// the regions sold, and each winner of whom it knows one or more keeps its
/// allotment.
pub proof fn law_holders_of_rights_are_never_displaced<R: RenewalRightsProvider<AccountId>>(
    m: MarketModel,
    seed: Seq<u8>,
    rights: R,
    max_bids: u32,
    orders: Seq<RenewalOrder>,
)
    requires
        orderly(m, max_bids),
        m.current_phase == Some(SalePhase::Market),
    ensures
        ({
            let settled = m.after_settlement(seed, rights, max_bids);
            let end = m.sale_info->0.region_end;
            let left = after_renewal_orders(settled, orders).allocations;
            &&& forall|i: int|
                0 <= i < displacements(settled, orders).len() ==> rights.rights(
                    (#[trigger] displacements(settled, orders)[i]).who,
                    end,
                ) == 0
            &&& forall|i: int|
                0 <= i < settled.allocations.len() && rights.rights(
                    (#[trigger] settled.allocations[i]).who,
                    end,
                ) >= 1 ==> left.contains(settled.allocations[i])
        }),
{
    let settled = m.after_settlement(seed, rights, max_bids);
    law_an_auction_is_settled(m, seed, rights, max_bids);
    law_settled_markets_are_orderly(m, seed, rights, max_bids);
    lemma_renewals_protect(settled, orders);
    assert forall|i: int| 0 <= i < displacements(settled, orders).len() implies rights.rights(
        (#[trigger] displacements(settled, orders)[i]).who,
        m.sale_info->0.region_end,
    ) == 0 by {
        let who = displacements(settled, orders)[i].who;
        assert(holds_exposed(settled.allocations, who));
        let j = choose|j: int|
            0 <= j < settled.allocations.len() && !(
            #[trigger] settled.allocations[j]).has_renewal_rights && settled.allocations[j].who
                == who;
        assert(!settled.allocations[j].has_renewal_rights);
    }
    assert forall|i: int|
        0 <= i < settled.allocations.len() && rights.rights(
            (#[trigger] settled.allocations[i]).who,
            m.sale_info->0.region_end,
        ) >= 1 implies after_renewal_orders(settled, orders).allocations.contains(
        settled.allocations[i],
    ) by {
        assert(settled.allocations[i].has_renewal_rights);
    }
}

/// After an auction that left a core unsold, renewals cost everybody the
/// clearing price and displace nobody, whatever orders there were before.
/// After one that sold all cores on offer, all that did not win in it pay the
/// penalty, and all that did do not.
pub proof fn law_renewals_follow_the_auction<R: RenewalRightsProvider<AccountId>>(
    m: MarketModel,
    seed: Seq<u8>,
    rights: R,
    max_bids: u32,
    orders: Seq<RenewalOrder>,
    who: AccountId,
)
    requires
        orderly(m, max_bids),
        m.current_phase == Some(SalePhase::Market),
        m.configuration is Some,
    ensures
        ({
            let settled = m.after_settlement(seed, rights, max_bids);
            let clearing = settled.auction_clearing_price->0 as int;
            let price = after_renewal_orders(settled, orders).renewal_price(who) as int;
            let bidders = settled.allocations;
            let won = exists|i: int| 0 <= i < bidders.len() && (#[trigger] bidders[i]).who == who;
            let parts = m.configuration->0.penalty.parts as int;
            let share = if parts > 1_000_000_000 {
                1_000_000_000 * clearing
            } else {
                parts * clearing
            };
            &&& bidders.len() < m.sale_info->0.cores_offered ==> {
                &&& price == clearing
                &&& displacements(settled, orders).len() == 0
            }
            &&& won ==> price == clearing
            &&& bidders.len() >= m.sale_info->0.cores_offered && !won ==> {
                &&& price >= clearing
                &&& 2 * (1_000_000_000 * (price - clearing) - share) < 1_000_000_000
                &&& price == u64::MAX || 2 * (share - 1_000_000_000 * (price - clearing))
                    <= 1_000_000_000
            }
        }),
{
    let settled = m.after_settlement(seed, rights, max_bids);
    let bidders = settled.allocations;
    law_an_auction_is_settled(m, seed, rights, max_bids);
    law_settled_markets_are_orderly(m, seed, rights, max_bids);
    lemma_renewals_keep_the_terms(settled, orders);
    let after = after_renewal_orders(settled, orders);
    market_laws::law_renewals_cost_a_penalty_after_a_full_auction(after, who);
    if exists|i: int| 0 <= i < bidders.len() && (#[trigger] bidders[i]).who == who {
        let i = choose|i: int| 0 <= i < bidders.len() && (#[trigger] bidders[i]).who == who;
        assert(settled.winners[i] == who);
    } else if settled.winners.contains(who) {
        let i = choose|i: int| 0 <= i < settled.winners.len() && settled.winners[i] == who;
        assert(bidders[i].who == who);
    }
    if bidders.len() < m.sale_info->0.cores_offered {
        lemma_unsold_cores_spare_the_winners(settled, orders);
    }
}

/// Where the auction left a core unsold, renewals displace nobody.
proof fn lemma_unsold_cores_spare_the_winners(m: MarketModel, orders: Seq<RenewalOrder>)
    requires
        m.wf(),
        renewal::allotted(m.allocations, m.renewal_count) <= u16::MAX,
        m.sale_info is Some,
        m.sale_info->0.cores_sold < m.sale_info->0.cores_offered,
    ensures
        displacements(m, orders).len() == 0,
    decreases orders.len(),
{
    if orders.len() > 0 {
        let rest = orders.drop_last();
        lemma_unsold_cores_spare_the_winners(m, rest);
        lemma_renewals_keep_the_terms(m, rest);
        let before = after_renewal_orders(m, rest);
        let core_count = orders.last().core_count;
        if before.renewal_refusal(core_count) is None && before.renewal_displaces(
            core_count,
        ) is Some {
            market_laws::law_renewals_displace_after_a_full_auction_only(before, core_count);
        }
    }
}

// Refunds.

/// One for a refund of an amount to an account, none for another action.
pub open spec fn is_refund_of(w: AccountId, x: Balance) -> spec_fn(Action) -> int {
    |a: Action|
        match a {
            TickAction::Refund { amount, who } if amount == x && who == w => 1int,
            _ => 0,
        }
}

/// Whether the bid with an identity is allotted a core.
pub open spec fn is_winner(winners: Seq<Allocation>, id: BidId) -> bool {
    exists|i: int| 0 <= i < winners.len() && (#[trigger] winners[i]).bid_id == id
}

/// One for a bid of an account of which an amount is due back, none for
/// another: of a bid that loses all of it, of one that wins what is above the
/// clearing price, if anything is.
pub open spec fn is_due(
    winners: Seq<Allocation>,
    clearing: Balance,
    w: AccountId,
    x: Balance,
) -> spec_fn(Bid) -> int {
    |b: Bid|
        if b.1.who != w {
            0
        } else if !is_winner(winners, b.0) {
            if b.1.price == x {
                1
            } else {
                0
            }
        } else if b.1.price > clearing && b.1.price - clearing == x {
            1
        } else {
            0
        }
}

/// What is refunded to the first `n` bidders served is what is due to them.
proof fn lemma_refunds_are_due(
    order: Seq<Bid>,
    n: nat,
    cores_offered: CoreIndex,
    clearing: Balance,
    winners: Seq<Allocation>,
    w: AccountId,
    x: Balance,
)
    requires
        n <= order.len(),
        forall|i: int|
            0 <= i < order.len() ==> #[trigger] auction::wins(order, i, cores_offered, clearing)
                == is_winner(winners, order[i].0),
    ensures
        sum(auction::refunds(order, n, cores_offered, clearing), is_refund_of(w, x)) == sum(
            order.take(n as int),
            is_due(winners, clearing, w, x),
        ),
    decreases n,
{
    if n > 0 {
        let m = (n - 1) as nat;
        lemma_refunds_are_due(order, m, cores_offered, clearing, winners, w, x);
        assert(order.take(n as int).drop_last() =~= order.take(m as int));
        assert(auction::wins(order, m as int, cores_offered, clearing) == is_winner(
            winners,
            order[m as int].0,
        ));
        let refunds = auction::refunds(order, m, cores_offered, clearing);
        let amount = auction::refund_of(order, m as int, cores_offered, clearing);
        let refund: Action = TickAction::Refund { amount: amount as u64, who: order[m as int].1.who };
        lemma_sum_push(refunds, refund, is_refund_of(w, x));
    } else {
        assert(order.take(0) =~= Seq::empty());
    }
}

/// Each bid is refunded on its own when the auction is settled: all of it where
/// it loses, and what is above the clearing price where it wins. There are just
/// as many refunds of each amount to each account as that makes, no other
/// actions but the last, which has renewals processed.
pub proof fn law_each_bid_is_refunded<R: RenewalRightsProvider<AccountId>>(
    m: MarketModel,
    now: BlockNumber,
    core_count: CoreIndex,
    reserved_cores: CoreIndex,
    seed: Seq<u8>,
    rights: R,
    max_bids: u32,
    w: AccountId,
    x: Balance,
)
    requires
        orderly(m, max_bids),
        m.current_phase == Some(SalePhase::Market),
    ensures
        ({
            let settled = m.after_settlement(seed, rights, max_bids);
            let clearing = settled.auction_clearing_price->0;
            let actions = m.phase_actions(now, core_count, reserved_cores, seed);
            &&& sum(actions, is_refund_of(w, x)) == sum(
                m.bids,
                is_due(settled.allocations, clearing, w, x),
            )
            &&& actions.len() > 0
            &&& actions.last() == TickAction::<
                Balance,
                BlockNumber,
                AccountId,
                BidId,
            >::ProcessRenewals
            &&& forall|i: int|
                0 <= i < actions.len() - 1 ==> (#[trigger] actions[i]) is Refund
        }),
{
    let sale = m.sale_info->0;
    let bids = m.walked();
    let clearing = m.clearing_price();
    let order = m.serving_order(seed);
    let settled = m.after_settlement(seed, rights, max_bids);
    let winners = settled.allocations;
    storage::law_walk_meets_every_bid(m.bids);
    auction_laws::law_every_bid_is_served_once(bids, sale, seed);
    auction_laws::law_winners_are_the_first_served(bids, sale, seed, rights);
    market_laws::law_no_winner_is_dropped(m, seed, rights, max_bids);
    order.to_multiset_ensures();
    m.bids.to_multiset_ensures();
    assert(order.len() == m.bids.len());
    lemma_permutation_keeps_identities(m.bids, order);
    assert forall|i: int| 0 <= i < order.len() implies #[trigger] auction::wins(
        order,
        i,
        sale.cores_offered,
        clearing,
    ) == is_winner(winners, order[i].0) by {
        auction_laws::law_the_first_served_win(bids, sale, seed, i);
        if i < winners.len() {
            assert(winners[i].bid_id == order[i].0);
        } else if is_winner(winners, order[i].0) {
            let j = choose|j: int|
                0 <= j < winners.len() && (#[trigger] winners[j]).bid_id == order[i].0;
            assert(order[j].0 != order[i].0);
        }
    }
    lemma_refunds_are_due(order, bids.len(), sale.cores_offered, clearing, winners, w, x);
    assert(order.take(order.len() as int) =~= order);
    lemma_sum_of_permutation(order, m.bids, is_due(winners, clearing, w, x));
    lemma_sum_push(m.refunds(seed), TickAction::ProcessRenewals, is_refund_of(w, x));
    lemma_refunds_are_refunds(order, bids.len(), sale.cores_offered, clearing);
}

/// All refunds are refunds.
proof fn lemma_refunds_are_refunds(
    order: Seq<Bid>,
    n: nat,
    cores_offered: CoreIndex,
    clearing: Balance,
)
    ensures
        forall|i: int|
            0 <= i < auction::refunds(order, n, cores_offered, clearing).len() ==> (
            #[trigger] auction::refunds(order, n, cores_offered, clearing)[i]) is Refund,
    decreases n,
{
    if n > 0 {
        lemma_refunds_are_refunds(order, (n - 1) as nat, cores_offered, clearing);
    }
}

/// The order in which bids were placed does not matter: two markets that differ
/// in it alone settle their auctions in the same way.
pub proof fn law_placement_does_not_matter<R: RenewalRightsProvider<AccountId>>(
    m: MarketModel,
    other: MarketModel,
    now: BlockNumber,
    core_count: CoreIndex,
    reserved_cores: CoreIndex,
    seed: Seq<u8>,
    rights: R,
    max_bids: u32,
)
    requires
        m.wf(),
        m.current_phase == Some(SalePhase::Market),
        m.bids.to_multiset() == other.bids.to_multiset(),
        other == (MarketModel { bids: other.bids, ..m }),
    ensures
        m.after_settlement(seed, rights, max_bids) == other.after_settlement(
            seed,
            rights,
            max_bids,
        ),
        m.phase_actions(now, core_count, reserved_cores, seed) == other.phase_actions(
            now,
            core_count,
            reserved_cores,
            seed,
        ),
{
    assert(storage::distinct(m.bids));
    storage::law_walk_forgets_placement(m.bids, other.bids);
}

/// Without a seed to shuffle them by, equal bids are served in the order of their
/// keys: of two winners that bid the same, the key of the one that is served
/// later does not come before that of the other.
pub proof fn law_ties_are_served_by_key<R: RenewalRightsProvider<AccountId>>(
    m: MarketModel,
    seed: Seq<u8>,
    rights: R,
    max_bids: u32,
    i: int,
    j: int,
)
    requires
        orderly(m, max_bids),
        m.current_phase == Some(SalePhase::Market),
        seed.len() <= 3,
    ensures
        ({
            let winners = m.after_settlement(seed, rights, max_bids).allocations;
            0 <= i < j < winners.len() && winners[i].bid_price == winners[j].bid_price
                ==> !storage::precedes(
                storage::key_of(winners[j].bid_id),
                storage::key_of(winners[i].bid_id),
            )
        }),
{
    storage::law_walk_meets_every_bid(m.bids);
    auction_laws::law_ties_are_ranked_by_key(m.walked());
    auction_laws::law_winners_are_the_first_served(m.walked(), m.sale_info->0, seed, rights);
    market_laws::law_no_winner_is_dropped(m, seed, rights, max_bids);
    let winners = m.after_settlement(seed, rights, max_bids).allocations;
    let ranking = auction::ranked(m.walked());
    assert(m.serving_order(seed) == ranking);
    if 0 <= i < j < winners.len() && winners[i].bid_price == winners[j].bid_price {
        auction::law_ranking_is_a_sort(m.walked());
        assert(ranking[i].1.price == ranking[j].1.price);
    }
}

} // verus!

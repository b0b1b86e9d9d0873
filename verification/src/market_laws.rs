//! What holds of every market, whatever is done to it.

use crate::arithmetic;
use crate::auction;
use crate::auction::Bid;
use crate::auction_laws;
use crate::market::{
    DisplacedBid, MarketError, RenewalOrderResult, RenewalRightsProvider, TickAction,
};
use crate::model;
use crate::model::{Event, MarketModel};
use crate::price;
use crate::price_laws;
use crate::primitives::{CoreIndex, StatusRecord, Timeslice};
use crate::records::{
    AccountId, Balance, BidId, BlockNumber, ConfigRecordOf, SaleInfoRecordOf, SalePhase,
};
use crate::renewal;
use crate::renewal::RenewalDecision;
use crate::storage;
use vstd::prelude::*;

verus! {

/// A new bid is at or below the current price and at or below its limit.
pub proof fn law_bids_are_at_or_below_the_price(
    m: MarketModel,
    now: BlockNumber,
    price_limit: Balance,
    max_bids: u32,
)
    requires
        m.order_refusal(now, max_bids) is None,
    ensures
        m.bid_price(now, price_limit) <= m.auction_price(now),
        m.bid_price(now, price_limit) <= price_limit,
        m.bid_price(now, price_limit) == price_limit || m.bid_price(now, price_limit)
            == m.auction_price(now),
{
    lemma_auction_price_fits(m, now);
}

/// The current price is an amount.
proof fn lemma_auction_price_fits(m: MarketModel, now: BlockNumber)
    ensures
        0 <= m.auction_price(now) <= u64::MAX,
{
    let sale = m.sale_info->0;
    let period = price::market_period(m.configuration, now);
    if period > 0 {
        price::lemma_descent_bounds(now, sale, period);
    }
}

/// Bids are binding: a new bid leaves all others as they are.
pub proof fn law_orders_keep_bids(m: MarketModel, who: AccountId, price: Balance, id: BidId)
    requires
        m.wf(),
        model::has_bid(m.bids, id),
    ensures
        model::has_bid(m.after_order(who, price).bids, id),
        model::bid_of(m.after_order(who, price).bids, id) == model::bid_of(m.bids, id),
        model::bid_of(m.after_order(who, price).bids, m.next_bid_id).who == who,
        model::bid_of(m.after_order(who, price).bids, m.next_bid_id).price == price,
{
    let after = m.after_order(who, price).bids;
    let i = choose|i: int| 0 <= i < m.bids.len() && (#[trigger] m.bids[i]).0 == id;
    assert(after[i] == m.bids[i]);
    let c = choose|c: int| 0 <= c < after.len() && (#[trigger] after[c]).0 == id;
    assert(c < m.bids.len()) by {
        if c == m.bids.len() {
            assert(after[c].0 == m.next_bid_id);
        }
    }
    assert(m.bids[c].0 == id);
    assert(after[m.bids.len() as int].0 == m.next_bid_id);
    let d = choose|d: int| 0 <= d < after.len() && (#[trigger] after[d]).0 == m.next_bid_id;
    if d < m.bids.len() {
        assert(m.bids[d].0 < m.next_bid_id);
    }
}

/// Bids can only be raised: a raise leaves each bid with its bidder at a price
/// no lower than before, and changes the price of no other bid.
pub proof fn law_raises_only_raise(
    m: MarketModel,
    now: BlockNumber,
    id: BidId,
    who: AccountId,
    new_price: Balance,
    other: BidId,
)
    requires
        m.wf(),
        m.raise_refusal(now, id, who, new_price) is None,
        model::has_bid(m.bids, other),
    ensures
        model::has_bid(m.after_raise(id, who, new_price).bids, other),
        model::bid_of(m.after_raise(id, who, new_price).bids, other).who == model::bid_of(
            m.bids,
            other,
        ).who,
        model::bid_of(m.after_raise(id, who, new_price).bids, other).price == (if other == id {
            new_price
        } else {
            model::bid_of(m.bids, other).price
        }),
        model::bid_of(m.after_raise(id, who, new_price).bids, other).price >= model::bid_of(
            m.bids,
            other,
        ).price,
        new_price <= m.auction_price(now),
{
    let after = m.after_raise(id, who, new_price).bids;
    let i = choose|i: int| 0 <= i < m.bids.len() && (#[trigger] m.bids[i]).0 == other;
    assert(after[i].0 == other);
    let c = choose|c: int| 0 <= c < after.len() && (#[trigger] after[c]).0 == other;
    assert(m.bids[c].0 == other);
    assert(c == i) by {
        if c != i {
            assert(m.bids[c].0 != m.bids[i].0);
        }
    }
}

/// The phases follow each other in a cycle: Market, Renewal, Settlement, Market.
pub proof fn law_phases_cycle<R: RenewalRightsProvider<AccountId>>(
    m: MarketModel,
    now: BlockNumber,
    core_count: CoreIndex,
    reserved_cores: CoreIndex,
    seed: Seq<u8>,
    rights: R,
    max_bids: u32,
)
    ensures
        m.after_phase(now, core_count, reserved_cores, seed, rights, max_bids).current_phase == (
        match m.current_phase {
            None => None,
            Some(SalePhase::Market) => Some(SalePhase::Renewal),
            Some(SalePhase::Renewal) => Some(SalePhase::Settlement),
            Some(SalePhase::Settlement) => Some(SalePhase::Market),
        }),
{
}

/// Each sale sells the regions that begin where those of the sale before it
/// end, and they have the length that is set.
pub proof fn law_regions_are_contiguous(
    m: MarketModel,
    now: BlockNumber,
    core_count: CoreIndex,
    reserved_cores: CoreIndex,
)
    requires
        m.sale_info is Some,
        m.configuration is Some,
        m.sale_info->0.region_end + m.configuration->0.region_length <= u32::MAX,
    ensures
        ({
            let sale = m.after_rotation(now, core_count, reserved_cores).sale_info->0;
            &&& sale.region_begin == m.sale_info->0.region_end
            &&& sale.region_end - sale.region_begin == m.configuration->0.region_length
        }),
{
}

/// Settlement and conclusion leave what is sold, and at what prices bids were taken, as it was.
pub proof fn law_a_sale_keeps_its_terms<R: RenewalRightsProvider<AccountId>>(
    m: MarketModel,
    seed: Seq<u8>,
    rights: R,
    max_bids: u32,
)
    requires
        m.sale_info is Some,
    ensures
        ({
            let sale = m.sale_info->0;
            let settled = m.after_settlement(seed, rights, max_bids).sale_info->0;
            let concluded = m.after_conclusion().sale_info->0;
            &&& settled == (SaleInfoRecordOf {
                cores_sold: settled.cores_sold,
                clearing_price: settled.clearing_price,
                ..sale
            })
            &&& concluded == (SaleInfoRecordOf { cores_sold: concluded.cores_sold, ..sale })
        }),
{
}

/// The record of a sale counts no more cores as sold than are offered: it
/// begins with none, counts the winners of the auction, who are no more than
/// that, and counts renewals up to that.
pub proof fn law_records_count_no_more_than_is_offered<R: RenewalRightsProvider<AccountId>>(
    m: MarketModel,
    now: BlockNumber,
    core_count: CoreIndex,
    reserved_cores: CoreIndex,
    seed: Seq<u8>,
    rights: R,
    max_bids: u32,
)
    requires
        m.sale_info is Some,
        m.sale_info->0.cores_sold <= m.sale_info->0.cores_offered,
    ensures
        ({
            let sale = m.after_phase(
                now,
                core_count,
                reserved_cores,
                seed,
                rights,
                max_bids,
            ).sale_info->0;
            sale.cores_sold <= sale.cores_offered
        }),
{
    let sale = m.sale_info->0;
    auction::lemma_allotments_bound(
        m.serving_order(seed),
        m.walked().len(),
        sale,
        m.clearing_price(),
        rights,
    );
}

/// The cores of a new sale lie behind the reserved ones and below the core
/// count, unless all cores are reserved, when none is offered.
pub proof fn law_offered_cores_exist(
    old_sale: SaleInfoRecordOf,
    config: ConfigRecordOf,
    core_count: CoreIndex,
    reserved_cores: CoreIndex,
    now: BlockNumber,
)
    ensures
        ({
            let sale = price::next_sale(old_sale, config, core_count, reserved_cores, now);
            &&& sale.first_core == reserved_cores
            &&& sale.cores_offered > 0 ==> sale.first_core + sale.cores_offered <= core_count
            &&& sale.first_core + sale.cores_offered <= u16::MAX
            &&& config.limit_cores_offered is Some ==> sale.cores_offered
                <= config.limit_cores_offered->0
            &&& sale.ideal_cores_sold <= sale.cores_offered
        }),
{
    let cores_offered = price::offered(core_count, reserved_cores, config.limit_cores_offered);
    arithmetic::lemma_part_of_bound(config.ideal_bulk_proportion, cores_offered);
}

/// An auction opens no lower than the least opening price, and, unless the
/// multiplier is zero, no lower than the reserve price.
pub proof fn law_auctions_open_above_the_floor(
    old_sale: SaleInfoRecordOf,
    config: ConfigRecordOf,
    core_count: CoreIndex,
    reserved_cores: CoreIndex,
    now: BlockNumber,
)
    ensures
        ({
            let sale = price::next_sale(old_sale, config, core_count, reserved_cores, now);
            &&& sale.opening_price >= config.min_opening_price
            &&& config.price_multiplier >= 1 ==> sale.opening_price >= sale.reserve_price
        }),
{
    let reserve = price::next_prices(old_sale, config).reserve_price;
    let multiplier = config.price_multiplier;
    assert(0 <= reserve * multiplier) by (nonlinear_arith)
        requires
            reserve >= 0,
            multiplier >= 0,
    ;
    if multiplier >= 1 {
        assert(reserve * multiplier >= reserve) by (nonlinear_arith)
            requires
                multiplier >= 1,
                reserve >= 0,
        ;
    }
}

/// The regions of a sale are sold to the winners that were not displaced, all
/// at the clearing price.
pub proof fn law_regions_are_sold_at_the_clearing_price<R: RenewalRightsProvider<AccountId>>(
    m: MarketModel,
    seed: Seq<u8>,
    rights: R,
    max_bids: u32,
)
    requires
        m.sale_info is Some,
    ensures
        ({
            let settled = m.after_settlement(seed, rights, max_bids);
            let sales = renewal::region_sales(settled.sale_info->0, settled.allocations);
            &&& sales.len() == settled.allocations.len()
            &&& forall|i: int|
                0 <= i < sales.len() ==> {
                    &&& (#[trigger] sales[i]) matches TickAction::SellRegion {
                        owner,
                        paid,
                        region_id,
                        region_end,
                    }
                    &&& owner == settled.allocations[i].who
                    &&& paid == m.clearing_price()
                    &&& region_id.core == settled.allocations[i].core
                    &&& region_end == m.sale_info->0.region_end
                }
        }),
{
}

/// Every order for a renewal is decided, and the decision is the one that
/// follows from the state of the sale.
pub proof fn law_renewals_are_decided(m: MarketModel, core_count: CoreIndex)
    requires
        m.sale_info is Some,
        m.wf(),
        renewal::allotted(m.allocations, m.renewal_count) <= u16::MAX,
    ensures
        renewal::decision_is(
            m.renewal_decision(core_count),
            m.sale_info->0,
            m.configuration->0.limit_cores_offered,
            m.allocations,
            m.renewal_count,
            core_count,
        ),
{
    let sale = m.sale_info->0;
    let limit = m.configuration->0.limit_cores_offered;
    let a = m.allocations;
    let n = m.renewal_count;
    if renewal::core_is_free(sale, limit, a, n, core_count) {
        let core = (sale.first_core + renewal::allotted(a, n)) as u16;
        assert(renewal::decision_is(RenewalDecision::Unallotted(core), sale, limit, a, n, core_count));
    } else if renewal::sold_out(sale) && exists|j: int|
        0 <= j < a.len() && !(#[trigger] a[j]).has_renewal_rights {
        let j = choose|j: int| 0 <= j < a.len() && !(#[trigger] a[j]).has_renewal_rights;
        renewal::lemma_displaceable_exists(a, j);
        let i = choose|i: int| renewal::is_displaceable(a, i);
        assert(renewal::decision_is(RenewalDecision::Displace(i as usize), sale, limit, a, n, core_count));
    } else {
        assert(renewal::decision_is(RenewalDecision::Unavailable, sale, limit, a, n, core_count));
    }
}

/// Tenants that won in the auction pay the same for renewals, and so do those
/// that did not, before and after other renewals.
pub proof fn law_renewals_cost_the_same(
    m: MarketModel,
    who: AccountId,
    other: AccountId,
    core_count: CoreIndex,
)
    requires
        m.renewal_refusal(core_count) is None,
        m.won(who) == m.won(other),
    ensures
        m.renewal_price(who) == m.renewal_price(other),
        m.after_renewal(who, core_count).renewal_price(other) == m.renewal_price(other),
{
}

/// A renewal costs no less than the clearing price. It costs just that unless
/// the auction sold out, and it costs those that won in the auction just that
/// in any case.
pub proof fn law_renewals_cost_the_clearing_price_or_more(m: MarketModel, who: AccountId)
    requires
        m.sale_info is Some,
        m.configuration is Some,
    ensures
        m.renewal_price(who) >= m.renewal_base(),
        !renewal::sold_out(m.sale_info->0) || m.won(who) ==> m.renewal_price(who)
            == m.renewal_base(),
        renewal::sold_out(m.sale_info->0) && !m.won(who) ==> m.renewal_price(who)
            == arithmetic::saturate(
            m.renewal_base() + arithmetic::part_of(
                m.configuration->0.penalty,
                m.renewal_base() as int,
            ),
        ),
{
    arithmetic::lemma_part_of_bound(m.configuration->0.penalty, m.renewal_base() as int);
}

/// Whoever holds an allotment after the settlement has won, and is known to
/// have won through all renewals, displaced or not.
pub proof fn law_winners_are_remembered<R: RenewalRightsProvider<AccountId>>(
    m: MarketModel,
    seed: Seq<u8>,
    rights: R,
    max_bids: u32,
    i: int,
    who: AccountId,
    core_count: CoreIndex,
)
    requires
        0 <= i < m.allotments(seed, rights).len(),
    ensures
        ({
            let winner = m.allotments(seed, rights)[i].who;
            let settled = m.after_settlement(seed, rights, max_bids);
            &&& settled.won(winner)
            &&& settled.after_renewal(who, core_count).won(winner)
        }),
{
    let settled = m.after_settlement(seed, rights, max_bids);
    assert(settled.winners[i] == m.allotments(seed, rights)[i].who);
}

/// A winner that holds renewal rights is not displaced: it keeps its
/// allotment through every renewal.
pub proof fn law_winners_with_rights_are_protected(
    m: MarketModel,
    who: AccountId,
    core_count: CoreIndex,
    i: int,
)
    requires
        m.wf(),
        m.renewal_refusal(core_count) is None,
        renewal::allotted(m.allocations, m.renewal_count) <= u16::MAX,
        0 <= i < m.allocations.len(),
        m.allocations[i].has_renewal_rights,
    ensures
        m.after_renewal(who, core_count).allocations.contains(m.allocations[i]),
        m.renewal_displaces(core_count) is Some ==> exists|j: int|
            0 <= j < m.allocations.len() && j != i && m.renewal_displaces(core_count)->0.bid_id == (
            #[trigger] m.allocations[j]).bid_id && !m.allocations[j].has_renewal_rights,
{
    law_renewals_are_decided(m, core_count);
    let after = m.after_renewal(who, core_count).allocations;
    match m.renewal_decision(core_count) {
        RenewalDecision::Displace(d) => {
            if i < d {
                assert(after[i] == m.allocations[i]);
            } else {
                assert(after[i - 1] == m.allocations[i]);
            }
            assert(!m.allocations[d as int].has_renewal_rights);
        },
        _ => {
            assert(after[i] == m.allocations[i]);
        },
    }
}

/// The winner that is displaced is the lowest bidder of those without renewal rights.
pub proof fn law_the_lowest_bidder_is_displaced(m: MarketModel, core_count: CoreIndex, j: int)
    requires
        m.wf(),
        m.renewal_refusal(core_count) is None,
        renewal::allotted(m.allocations, m.renewal_count) <= u16::MAX,
        m.renewal_decision(core_count) is Displace,
        0 <= j < m.allocations.len(),
        !m.allocations[j].has_renewal_rights,
    ensures
        m.allocations[m.renewal_decision(core_count)->Displace_0 as int].bid_price
            <= m.allocations[j].bid_price,
{
    law_renewals_are_decided(m, core_count);
}

/// A renewal is refused where no core is left, unless it can displace a winner.
pub proof fn law_renewals_need_a_core(m: MarketModel, core_count: CoreIndex)
    requires
        m.wf(),
        m.configuration is Some,
        m.sale_info is Some,
        m.current_phase == Some(SalePhase::Renewal),
        renewal::allotted(m.allocations, m.renewal_count) <= u16::MAX,
    ensures
        (m.renewal_refusal(core_count) == Some(MarketError::Unavailable)) == (
        !renewal::core_is_free(
            m.sale_info->0,
            m.configuration->0.limit_cores_offered,
            m.allocations,
            m.renewal_count,
            core_count,
        ) && !(
        renewal::sold_out(m.sale_info->0) && exists|j: int|
            0 <= j < m.allocations.len() && !(#[trigger] m.allocations[j]).has_renewal_rights)),
{
    law_renewals_are_decided(m, core_count);
}

/// Renewals keep the number of allotted cores that of a core index.
pub proof fn law_renewals_stay_countable(m: MarketModel, who: AccountId, core_count: CoreIndex)
    requires
        m.wf(),
        m.renewal_refusal(core_count) is None,
        renewal::allotted(m.allocations, m.renewal_count) <= u16::MAX,
    ensures
        renewal::allotted(
            m.after_renewal(who, core_count).allocations,
            m.after_renewal(who, core_count).renewal_count,
        ) <= u16::MAX,
{
    law_renewals_are_decided(m, core_count);
}

/// Where there is a limit to the number of cores, no more are sold: the auction
/// keeps to it, and a renewal that exceeds it displaces a winner or is refused.
pub proof fn law_the_limit_is_kept(m: MarketModel, who: AccountId, core_count: CoreIndex)
    requires
        m.wf(),
        m.renewal_refusal(core_count) is None,
        m.configuration->0.limit_cores_offered is Some,
        renewal::allotted(m.allocations, m.renewal_count)
            <= m.configuration->0.limit_cores_offered->0,
    ensures
        renewal::allotted(
            m.after_renewal(who, core_count).allocations,
            m.after_renewal(who, core_count).renewal_count,
        ) <= m.configuration->0.limit_cores_offered->0,
{
    law_renewals_are_decided(m, core_count);
}

/// What is set is what is read, and setting changes nothing else.
pub proof fn law_settings_are_read_back(
    m: MarketModel,
    config: ConfigRecordOf,
    status: StatusRecord,
    sale: SaleInfoRecordOf,
)
    ensures
        m.with_configuration(config).configuration == Some(config),
        m.with_configuration(config).status == m.status,
        m.with_configuration(config).sale_info == m.sale_info,
        m.with_status(status).status == Some(status),
        m.with_status(status).configuration == m.configuration,
        m.with_status(status).sale_info == m.sale_info,
        m.with_sale_info(sale).sale_info == Some(sale),
        m.with_sale_info(sale).configuration == m.configuration,
        m.with_sale_info(sale).status == m.status,
{
}

/// The auction leaves no bid unanswered: after its settlement there are none.
pub proof fn law_settlement_closes_all_bids<R: RenewalRightsProvider<AccountId>>(
    m: MarketModel,
    seed: Seq<u8>,
    rights: R,
    max_bids: u32,
    id: BidId,
)
    ensures
        !model::has_bid(m.after_settlement(seed, rights, max_bids).bids, id),
{
}

/// A winner that is displaced gets back what was bid, in two parts: what was
/// bid above the clearing price when the auction was settled, and the clearing
/// price when it is displaced.
pub proof fn law_displaced_winners_are_made_whole<R: RenewalRightsProvider<AccountId>>(
    m: MarketModel,
    seed: Seq<u8>,
    rights: R,
    max_bids: u32,
    i: int,
)
    requires
        m.sale_info is Some,
        0 <= i < m.after_settlement(seed, rights, max_bids).allocations.len(),
    ensures
        ({
            let settled = m.after_settlement(seed, rights, max_bids);
            let order = m.serving_order(seed);
            let winner = settled.allocations[i];
            &&& winner.bid_id == order[i].0
            &&& winner.who == order[i].1.who
            &&& auction::refund_of(
                order,
                i,
                m.sale_info->0.cores_offered,
                m.clearing_price(),
            ) + settled.displacement_refund() == order[i].1.price
        }),
{
    let sale = m.sale_info->0;
    auction_laws::law_winners_are_the_first_served(m.walked(), sale, seed, rights);
    auction_laws::law_winners_pay_one_price(m.walked(), sale, seed, rights);
    let all = m.allotments(seed, rights);
    assert(m.after_settlement(seed, rights, max_bids).allocations[i] == all[i]);
    assert(all[i].bid_price >= m.clearing_price());
}

/// The identities of bids.
spec fn ids(bids: Seq<Bid>) -> Seq<int> {
    Seq::new(bids.len(), |i: int| bids[i].0 as int)
}

/// There are no more bids than were placed in the sale.
pub proof fn law_bids_are_counted(m: MarketModel)
    requires
        m.wf(),
    ensures
        m.bids.len() <= m.next_bid_id,
{
    let ids = ids(m.bids);
    assert(ids.no_duplicates()) by {
        assert forall|i: int, j: int| 0 <= i < ids.len() && 0 <= j < ids.len() && i != j implies
            ids[i] != ids[j] by {
            if i < j {
                assert(m.bids[i].0 != m.bids[j].0);
            } else {
                assert(m.bids[j].0 != m.bids[i].0);
            }
        }
    }
    ids.unique_seq_to_set();
    let given = vstd::set_lib::set_int_range(0, m.next_bid_id as int);
    vstd::set_lib::lemma_int_range(0, m.next_bid_id as int);
    assert forall|x: int| #[trigger] ids.to_set().contains(x) implies given.contains(x) by {
        let i = choose|i: int| 0 <= i < ids.len() && ids[i] == x;
        assert(m.bids[i].0 < m.next_bid_id);
    }
    vstd::set_lib::lemma_len_subset(ids.to_set(), given);
}

/// As long as no more bids are placed than are allowed, no winner is dropped.
pub proof fn law_no_winner_is_dropped<R: RenewalRightsProvider<AccountId>>(
    m: MarketModel,
    seed: Seq<u8>,
    rights: R,
    max_bids: u32,
)
    requires
        m.wf(),
        m.next_bid_id <= max_bids,
    ensures
        m.after_settlement(seed, rights, max_bids).allocations == m.allotments(seed, rights),
{
    law_bids_are_counted(m);
    storage::law_walk_meets_every_bid(m.bids);
    auction::lemma_allotments_bound(
        m.serving_order(seed),
        m.walked().len(),
        m.sale_info->0,
        m.clearing_price(),
        rights,
    );
}

/// No more bids are placed in a sale than are allowed.
pub proof fn law_bids_are_limited(
    m: MarketModel,
    now: BlockNumber,
    who: AccountId,
    price: Balance,
    max_bids: u32,
)
    requires
        m.order_refusal(now, max_bids) is None,
    ensures
        m.after_order(who, price).next_bid_id <= max_bids,
        m.after_order(who, price).next_bid_id == m.next_bid_id + 1,
{
}

// Renewals, step by step.

/// When an order for a renewal is refused in the Renewal phase, and what it
/// gets where it is not.
///
/// A renewal gets the next core behind those that are allotted, as long as
/// fewer are allotted than can be sold: the cores that are not reserved, up to
/// the limit if there is one. Else, if the auction filled all cores on offer,
/// it displaces the lowest winner without renewal rights, of equal ones the
/// first, gets the core of that winner, and the winner gets the clearing price
/// back. Else it is refused.
pub proof fn law_a_renewal_gets_a_core(m: MarketModel, who: AccountId, core_count: CoreIndex)
    requires
        m.wf(),
        m.configuration is Some,
        m.sale_info is Some,
        m.current_phase == Some(SalePhase::Renewal),
        m.allocations.len() + m.renewal_count <= u16::MAX,
    ensures
        ({
            let sale = m.sale_info->0;
            let held = m.allocations;
            let taken = held.len() + m.renewal_count;
            let free = if core_count > sale.first_core {
                core_count - sale.first_core
            } else {
                0
            };
            let most = match m.configuration->0.limit_cores_offered {
                Some(limit) if limit < free => limit as int,
                _ => free,
            };
            let filled = sale.cores_sold >= sale.cores_offered;
            let exposed = exists|j: int|
                0 <= j < held.len() && !(#[trigger] held[j]).has_renewal_rights;
            let after = m.after_renewal(who, core_count);
            &&& m.renewal_refusal(core_count) == (if taken < most || (filled && exposed) {
                None::<MarketError>
            } else {
                Some(MarketError::Unavailable)
            })
            &&& m.renewal_refusal(core_count) is None ==> {
                &&& m.renewal_result(who, core_count) matches RenewalOrderResult::Sold {
                    price,
                    next_renewal_price,
                    region_id,
                    effective_to,
                    displaced,
                }
                &&& next_renewal_price == price
                &&& region_id.begin == sale.region_begin
                &&& region_id.mask.high == u16::MAX && region_id.mask.low == u64::MAX
                &&& effective_to == sale.region_end
                &&& taken < most ==> {
                    &&& region_id.core == sale.first_core + taken
                    &&& displaced is None
                    &&& after.allocations == held
                }
                &&& taken >= most ==> exists|i: int|
                    {
                        &&& 0 <= i < held.len()
                        &&& !(#[trigger] held[i]).has_renewal_rights
                        &&& forall|j: int|
                            0 <= j < held.len() && !(#[trigger] held[j]).has_renewal_rights ==> {
                                ||| held[i].bid_price < held[j].bid_price
                                ||| held[i].bid_price == held[j].bid_price && i <= j
                            }
                        &&& region_id.core == held[i].core
                        &&& displaced == Some(
                            DisplacedBid {
                                who: held[i].who,
                                refund: match sale.clearing_price {
                                    Some(paid) => paid,
                                    None => 0u64,
                                },
                                bid_id: held[i].bid_id,
                            },
                        )
                        &&& after.allocations == held.remove(i)
                    }
                &&& after.renewal_count == m.renewal_count + 1
                &&& after == (MarketModel {
                    allocations: after.allocations,
                    renewal_count: after.renewal_count,
                    events: after.events,
                    ..m
                })
            }
        }),
{
    law_renewals_are_decided(m, core_count);
    let held = m.allocations;
    match m.renewal_decision(core_count) {
        RenewalDecision::Displace(i) => {
            assert(!held[i as int].has_renewal_rights);
        },
        _ => {},
    }
}

/// What a renewal costs.
///
/// Where the auction left a core unsold, it costs everybody the clearing price.
/// Where it filled all cores on offer, it still costs those that won in it just
/// that, and all others the penalty on top: the part of the clearing price that
/// is set, rounded to the nearest unit.
pub proof fn law_renewals_cost_a_penalty_after_a_full_auction(m: MarketModel, who: AccountId)
    requires
        m.sale_info is Some,
        m.configuration is Some,
    ensures
        ({
            let sale = m.sale_info->0;
            let clearing = match m.auction_clearing_price {
                Some(price) => price as int,
                None => sale.reserve_price as int,
            };
            let parts = m.configuration->0.penalty.parts as int;
            let share = if parts > 1_000_000_000 {
                1_000_000_000 * clearing
            } else {
                parts * clearing
            };
            let price = m.renewal_price(who);
            let extra = price - clearing;
            &&& sale.cores_sold < sale.cores_offered ==> price == clearing
            &&& m.winners.contains(who) ==> price == clearing
            &&& sale.cores_sold >= sale.cores_offered && !m.winners.contains(who) ==> {
                &&& extra >= 0
                &&& 2 * (1_000_000_000 * extra - share) < 1_000_000_000
                &&& price == u64::MAX || 2 * (share - 1_000_000_000 * extra) <= 1_000_000_000
            }
        }),
{
    let base = m.renewal_base() as int;
    let part = m.configuration->0.penalty.value();
    arithmetic::lemma_part_of_bound(m.configuration->0.penalty, base);
    assert(0 <= part * base) by (nonlinear_arith)
        requires
            0 <= part,
            0 <= base,
    ;
    price_laws::lemma_nearest_is_near(part * base, 1_000_000_000);
}

/// A renewal displaces somebody only where the auction filled all cores on
/// offer, and then nobody but a winner without renewal rights.
pub proof fn law_renewals_displace_after_a_full_auction_only(
    m: MarketModel,
    core_count: CoreIndex,
)
    requires
        m.wf(),
        m.renewal_refusal(core_count) is None,
        m.allocations.len() + m.renewal_count <= u16::MAX,
        m.renewal_displaces(core_count) is Some,
    ensures
        m.sale_info->0.cores_sold >= m.sale_info->0.cores_offered,
        exists|i: int|
            0 <= i < m.allocations.len() && !(#[trigger] m.allocations[i]).has_renewal_rights
                && m.renewal_displaces(core_count)->0.bid_id == m.allocations[i].bid_id,
{
    law_renewals_are_decided(m, core_count);
    let i = m.renewal_decision(core_count)->Displace_0 as int;
    assert(!m.allocations[i].has_renewal_rights);
}

/// Renewals are for the Renewal phase of a sale.
pub proof fn law_renewals_have_their_phase(m: MarketModel, core_count: CoreIndex)
    ensures
        m.configuration is None ==> m.renewal_refusal(core_count) == Some(
            MarketError::Uninitialized,
        ),
        m.configuration is Some && m.sale_info is None ==> m.renewal_refusal(core_count) == Some(
            MarketError::NoSales,
        ),
        m.configuration is Some && m.sale_info is Some ==> (match m.current_phase {
            None => m.renewal_refusal(core_count) == Some(MarketError::Uninitialized),
            Some(SalePhase::Renewal) => m.renewal_refusal(core_count) is None
                || m.renewal_refusal(core_count) == Some(MarketError::Unavailable),
            _ => m.renewal_refusal(core_count) == Some(MarketError::WrongPhase),
        }),
{
}

// The end of each phase.

/// How a sale is concluded: its renewals are counted as cores sold, up to the
/// number on offer, and each winner that is left is sold the region on its core
/// at the clearing price.
pub proof fn law_a_sale_is_concluded(
    m: MarketModel,
    now: BlockNumber,
    core_count: CoreIndex,
    reserved_cores: CoreIndex,
    seed: Seq<u8>,
)
    requires
        m.wf(),
        m.sale_info is Some,
        m.current_phase == Some(SalePhase::Renewal),
        m.sale_info->0.cores_sold <= m.sale_info->0.cores_offered,
    ensures
        ({
            let sale = m.sale_info->0;
            let total = sale.cores_sold + m.renewal_count;
            let concluded = m.after_conclusion();
            let actions = m.phase_actions(now, core_count, reserved_cores, seed);
            &&& concluded.sale_info is Some
            &&& concluded.sale_info->0.cores_sold == (if total < sale.cores_offered {
                total
            } else {
                sale.cores_offered as int
            })
            &&& concluded.sale_info->0 == (SaleInfoRecordOf {
                cores_sold: concluded.sale_info->0.cores_sold,
                ..sale
            })
            &&& concluded == (MarketModel {
                sale_info: concluded.sale_info,
                current_phase: Some(SalePhase::Settlement),
                allocations: Seq::empty(),
                winners: Seq::empty(),
                renewal_count: 0,
                events: concluded.events,
                ..m
            })
            &&& actions.len() == m.allocations.len()
            &&& forall|i: int|
                0 <= i < actions.len() ==> {
                    &&& (#[trigger] actions[i]) matches TickAction::SellRegion {
                        owner,
                        paid,
                        region_id,
                        region_end,
                    }
                    &&& owner == m.allocations[i].who
                    &&& paid == (match sale.clearing_price {
                        Some(price) => price,
                        None => sale.reserve_price,
                    })
                    &&& region_id.begin == sale.region_begin
                    &&& region_id.core == m.allocations[i].core
                    &&& region_id.mask.high == u16::MAX && region_id.mask.low == u64::MAX
                    &&& region_end == sale.region_end
                }
        }),
{
}

/// Each renewal counts: one more that is sold raises the number of cores sold
/// of the concluded sale by one, until that is the number on offer.
pub proof fn law_each_renewal_counts_as_a_core_sold(
    m: MarketModel,
    who: AccountId,
    core_count: CoreIndex,
)
    requires
        m.wf(),
        m.renewal_refusal(core_count) is None,
        m.allocations.len() + m.renewal_count <= u16::MAX,
        m.sale_info->0.cores_sold <= m.sale_info->0.cores_offered,
    ensures
        ({
            let without = m.after_conclusion().sale_info->0.cores_sold;
            let with = m.after_renewal(who, core_count).after_conclusion().sale_info->0.cores_sold;
            if without < m.sale_info->0.cores_offered {
                with == without + 1
            } else {
                with == without
            }
        }),
{
    law_renewals_are_decided(m, core_count);
}

/// When a phase is over: the Market phase after the blocks that are set for it,
/// the Renewal phase after those that are set for it, and the Settlement phase
/// once the first timeslice of the regions sold is committed. With the last
/// block there is, both of the former are over.
pub proof fn law_phases_last_as_long_as_is_set(
    m: MarketModel,
    now: BlockNumber,
    last_committed_timeslice: Timeslice,
)
    requires
        m.configuration is Some,
        m.sale_info is Some,
    ensures
        ({
            let sale = m.sale_info->0;
            let config = m.configuration->0;
            let market_end = sale.sale_start + config.market_period;
            let renewal_end = market_end + config.renewal_period;
            m.phase_is_over(now, last_committed_timeslice) <==> (match m.current_phase {
                None => false,
                Some(SalePhase::Market) => now >= market_end || now == u64::MAX,
                Some(SalePhase::Renewal) => now >= renewal_end || now == u64::MAX,
                Some(SalePhase::Settlement) => last_committed_timeslice >= sale.region_begin,
            })
        }),
{
}

/// No phase ends before there are parameters and a sale.
pub proof fn law_phases_end_in_a_sale_only(
    m: MarketModel,
    now: BlockNumber,
    last_committed_timeslice: Timeslice,
)
    ensures
        m.configuration is None || m.sale_info is None || m.current_phase is None
            ==> !m.phase_is_over(now, last_committed_timeslice),
{
}

/// How the next sale begins: in its Market phase, with no clearing price, and
/// with the first identity for its first bid. The broker is told of the sale
/// that ended and of the one that begins.
pub proof fn law_a_sale_begins(
    m: MarketModel,
    now: BlockNumber,
    core_count: CoreIndex,
    reserved_cores: CoreIndex,
    seed: Seq<u8>,
)
    requires
        m.configuration is Some,
        m.sale_info is Some,
        m.current_phase == Some(SalePhase::Settlement),
    ensures
        ({
            let old_sale = m.sale_info->0;
            let config = m.configuration->0;
            let sale = price::next_sale(old_sale, config, core_count, reserved_cores, now);
            let next = m.after_rotation(now, core_count, reserved_cores);
            let actions = m.phase_actions(now, core_count, reserved_cores, seed);
            &&& next == (MarketModel {
                sale_info: Some(sale),
                current_phase: Some(SalePhase::Market),
                next_bid_id: 0,
                auction_clearing_price: None,
                events: next.events,
                ..m
            })
            &&& actions.len() == 1
            &&& actions[0] matches TickAction::SaleRotated {
                old_sale: ended,
                new_sale,
                new_prices,
                start_price,
            }
            &&& ended == old_sale
            &&& new_sale == sale
            &&& new_prices == price::next_prices(old_sale, config)
            &&& start_price == sale.opening_price
        }),
{
}

/// How sales start: with a sale that keeps the reserve price that is given and
/// whose regions begin one region length after the timeslice that has to be
/// committed by now. That one is the last whose schedule is fixed in advance;
/// the one before it counts as committed.
pub proof fn law_sales_start(
    m: MarketModel,
    now: BlockNumber,
    reserve_price: Balance,
    core_count: CoreIndex,
    reserved_cores: CoreIndex,
    timeslice_period: BlockNumber,
)
    requires
        m.configuration is Some,
        timeslice_period > 0,
        m.bootstrap_sale(now, reserve_price, timeslice_period).region_end
            + m.configuration->0.region_length <= u32::MAX,
    ensures
        ({
            let config = m.configuration->0;
            let ahead = if now + config.advance_notice > u64::MAX {
                u64::MAX as int
            } else {
                now + config.advance_notice
            };
            let commit = if ahead / timeslice_period as int > u32::MAX {
                u32::MAX as int
            } else {
                ahead / timeslice_period as int
            };
            let end = if commit + config.region_length > u32::MAX {
                u32::MAX as int
            } else {
                commit + config.region_length
            };
            let before = m.bootstrap_sale(now, reserve_price, timeslice_period);
            let started = m.after_start(
                now,
                reserve_price,
                core_count,
                reserved_cores,
                timeslice_period,
            );
            let sale = started.sale_info->0;
            let status = started.status->0;
            &&& before.sale_start == now
            &&& before.opening_price == reserve_price
            &&& before.reserve_price == reserve_price
            &&& before.clearing_price is None
            &&& before.region_begin == commit
            &&& before.region_end == end
            &&& before.first_core == 0
            &&& before.ideal_cores_sold == 0
            &&& before.cores_offered == 0
            &&& before.cores_sold == 0
            &&& started.sale_info is Some
            &&& sale == price::next_sale(before, config, core_count, reserved_cores, now)
            &&& sale.reserve_price == reserve_price
            &&& sale.region_begin == end
            &&& sale.region_end == end + config.region_length
            &&& started.status is Some
            &&& status.core_count == core_count
            &&& status.private_pool_size == 0
            &&& status.system_pool_size == 0
            &&& status.last_committed_timeslice == (if commit > 0 {
                commit - 1
            } else {
                0
            })
            &&& status.last_timeslice == (if now / timeslice_period > u32::MAX {
                u32::MAX as int
            } else {
                now as int / timeslice_period as int
            })
            &&& started.events == m.events.push(
                Event::SaleInitialized {
                    sale_start: sale.sale_start,
                    market_period: config.market_period,
                    start_price: sale.opening_price,
                    reserve_price: sale.reserve_price,
                    region_begin: sale.region_begin,
                    region_end: sale.region_end,
                    ideal_cores_sold: sale.ideal_cores_sold,
                    cores_offered: sale.cores_offered,
                },
            )
            &&& started == (MarketModel {
                status: started.status,
                sale_info: started.sale_info,
                current_phase: Some(SalePhase::Market),
                events: started.events,
                ..m
            })
        }),
{
    let n = now as int;
    let ahead = arithmetic::saturate(now + m.configuration->0.advance_notice);
    let p = timeslice_period as int;
    assert(0 <= n / p <= ahead / p) by (nonlinear_arith)
        requires
            p > 0,
            0 <= n <= ahead,
    ;
}

// Bidding, step by step.

/// When an order is refused, and what bid it places where it is not.
///
/// It is refused outside the Market phase, without a sale, before the sale
/// starts, and where as many bids were placed as are allowed. Else it places a
/// bid with the next identity, at its limit or at the current price, whichever
/// is lower, behind all others.
pub proof fn law_an_order_places_a_bid(
    m: MarketModel,
    now: BlockNumber,
    who: AccountId,
    price_limit: Balance,
    max_bids: u32,
)
    ensures
        ({
            let refusal = m.order_refusal(now, max_bids);
            let current = price::price_at(now, m.sale_info->0, m.configuration);
            let price = m.bid_price(now, price_limit);
            let after = m.after_order(who, price);
            &&& m.current_phase != Some(SalePhase::Market) ==> refusal == Some(
                MarketError::WrongPhase,
            )
            &&& m.current_phase == Some(SalePhase::Market) ==> refusal == (match m.sale_info {
                None => Some(MarketError::NoSales),
                Some(sale) => if now < sale.sale_start {
                    Some(MarketError::TooEarly)
                } else if m.next_bid_id >= max_bids {
                    Some(MarketError::SoldOut)
                } else {
                    None
                },
            })
            &&& refusal is None ==> {
                &&& price == (if price_limit < current {
                    price_limit as int
                } else {
                    current
                })
                &&& after.bids.len() == m.bids.len() + 1
                &&& forall|i: int| 0 <= i < m.bids.len() ==> (#[trigger] after.bids[i]) == m.bids[i]
                &&& after.bids[m.bids.len() as int].0 == m.next_bid_id
                &&& after.bids[m.bids.len() as int].1.who == who
                &&& after.bids[m.bids.len() as int].1.price == price
                &&& after.next_bid_id == m.next_bid_id + 1
                &&& after == (MarketModel {
                    bids: after.bids,
                    next_bid_id: after.next_bid_id,
                    events: after.events,
                    ..m
                })
            }
        }),
{
    lemma_auction_price_fits(m, now);
}

/// When a raise is refused, and what it changes where it is not.
///
/// It is refused outside the Market phase and without a sale, where the caller
/// has no bid of the given identity, where it does not raise the price, and
/// where it raises it above the current price. Else it changes the price of
/// that bid and nothing else.
pub proof fn law_a_raise_raises_one_bid(
    m: MarketModel,
    now: BlockNumber,
    id: BidId,
    who: AccountId,
    new_price: Balance,
    i: int,
)
    requires
        m.wf(),
        0 <= i < m.bids.len(),
        m.bids[i].0 == id,
        m.current_phase == Some(SalePhase::Market),
        m.sale_info is Some,
    ensures
        ({
            let current = price::price_at(now, m.sale_info->0, m.configuration);
            let after = m.after_raise(id, who, new_price);
            &&& m.raise_refusal(now, id, who, new_price) == (if m.bids[i].1.who != who {
                Some(MarketError::BidNotExist)
            } else if new_price <= m.bids[i].1.price {
                Some(MarketError::Overpriced)
            } else if new_price > current {
                Some(MarketError::BidTooHigh)
            } else {
                None
            })
            &&& model::bid_of(m.bids, id) == m.bids[i].1
            &&& after.bids.len() == m.bids.len()
            &&& after.bids[i].0 == id
            &&& after.bids[i].1.who == m.bids[i].1.who
            &&& after.bids[i].1.price == new_price
            &&& forall|j: int|
                0 <= j < m.bids.len() && j != i ==> (#[trigger] after.bids[j]) == m.bids[j]
            &&& after == (MarketModel { bids: after.bids, events: after.events, ..m })
        }),
{
    let c = choose|c: int| 0 <= c < m.bids.len() && (#[trigger] m.bids[c]).0 == id;
    assert(m.bids[i].0 == id);
    if c < i {
        assert(m.bids[c].0 != m.bids[i].0);
    } else if i < c {
        assert(m.bids[i].0 != m.bids[c].0);
    }
    let after = m.after_raise(id, who, new_price);
    assert forall|j: int| 0 <= j < m.bids.len() && j != i implies (#[trigger] after.bids[j])
        == m.bids[j] by {
        if j < i {
            assert(m.bids[j].0 != m.bids[i].0);
        } else {
            assert(m.bids[i].0 != m.bids[j].0);
        }
    }
}

/// A raise needs the Market phase of a sale, and a bid.
pub proof fn law_a_raise_needs_a_bid(
    m: MarketModel,
    now: BlockNumber,
    id: BidId,
    who: AccountId,
    new_price: Balance,
)
    ensures
        m.current_phase != Some(SalePhase::Market) ==> m.raise_refusal(now, id, who, new_price)
            == Some(MarketError::WrongPhase),
        m.current_phase == Some(SalePhase::Market) && m.sale_info is None ==> m.raise_refusal(
            now,
            id,
            who,
            new_price,
        ) == Some(MarketError::NoSales),
        m.current_phase == Some(SalePhase::Market) && m.sale_info is Some && (forall|i: int|
            0 <= i < m.bids.len() ==> (#[trigger] m.bids[i]).0 != id) ==> m.raise_refusal(
            now,
            id,
            who,
            new_price,
        ) == Some(MarketError::BidNotExist),
{
}

// Reports.

/// Each operation reports what it did, once, behind what was reported before.
pub proof fn law_operations_are_reported<R: RenewalRightsProvider<AccountId>>(
    m: MarketModel,
    who: AccountId,
    price: Balance,
    id: BidId,
    core_count: CoreIndex,
    reserved_cores: CoreIndex,
    now: BlockNumber,
    seed: Seq<u8>,
    rights: R,
    max_bids: u32,
)
    ensures
        m.after_order(who, price).events == m.events.push(
            Event::BidPlaced { who, bid_id: m.next_bid_id, amount: price },
        ),
        m.after_raise(id, who, price).events == m.events.push(
            Event::BidRaised {
                who,
                bid_id: id,
                new_price: price,
                additional: (price - model::bid_of(m.bids, id).price) as u64,
            },
        ),
        m.after_conclusion().events == m.events.push(
            Event::SaleFinalized { regions_issued: m.allocations.len() as u32 },
        ).push(Event::PhaseTransitioned { from: SalePhase::Renewal, to: SalePhase::Settlement }),
        ({
            let settled = m.after_settlement(seed, rights, max_bids);
            settled.events == m.events.push(
                Event::AuctionSettled {
                    clearing_price: settled.auction_clearing_price->0,
                    winners: settled.winners.len() as u32,
                },
            ).push(Event::PhaseTransitioned { from: SalePhase::Market, to: SalePhase::Renewal })
        }),
        ({
            let next = m.after_rotation(now, core_count, reserved_cores);
            let sale = next.sale_info->0;
            next.events == m.events.push(
                Event::PhaseTransitioned { from: SalePhase::Settlement, to: SalePhase::Market },
            ).push(
                Event::SaleInitialized {
                    sale_start: sale.sale_start,
                    market_period: m.configuration->0.market_period,
                    start_price: sale.opening_price,
                    reserve_price: sale.reserve_price,
                    region_begin: sale.region_begin,
                    region_end: sale.region_end,
                    ideal_cores_sold: sale.ideal_cores_sold,
                    cores_offered: sale.cores_offered,
                },
            )
        }),
        m.renewal_refusal(core_count) is None ==> {
            let exercised = Event::RenewalExercised {
                who,
                price: m.renewal_price(who),
                region_id: m.renewal_region(core_count),
            };
            m.after_renewal(who, core_count).events == (match m.renewal_displaces(core_count) {
                Some(displaced) => m.events.push(
                    Event::BidDisplaced {
                        who: displaced.who,
                        bid_id: displaced.bid_id,
                        refund: displaced.refund,
                    },
                ).push(exercised),
                None => m.events.push(exercised),
            })
        },
{
}

} // verus!

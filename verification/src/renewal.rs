//! What a renewal costs and which core it gets, and how a sale is concluded.

use crate::arithmetic;
use crate::auction::{Action, Allocation};
use crate::core_mask::CoreMask;
use crate::market::TickAction;
use crate::price;
use crate::primitives::{CoreIndex, RegionId};
use crate::records::{Balance, ConfigRecordOf, SaleInfoRecordOf};
use vstd::prelude::*;

verus! {

/// The region of a sale on the given core, with every part of each timeslice.
pub open spec fn region_on(sale: SaleInfoRecordOf, core: CoreIndex) -> RegionId {
    RegionId { begin: sale.region_begin, core, mask: CoreMask::all() }
}

/// The region of a sale on the given core, with every part of each timeslice.
pub fn sale_region(sale: &SaleInfoRecordOf, core: CoreIndex) -> (r: RegionId)
    ensures
        r == region_on(*sale, core),
{
    RegionId { begin: sale.region_begin, core, mask: CoreMask::complete() }
}

/// Whether the auction of a settled sale filled all cores on offer.
pub open spec fn sold_out(sale: SaleInfoRecordOf) -> bool {
    sale.cores_sold >= sale.cores_offered
}

/// What a renewal costs: the clearing price, and the penalty on it where the
/// auction sold out and the tenant did not win in it.
pub open spec fn renewal_price_of(
    sale: SaleInfoRecordOf,
    config: ConfigRecordOf,
    clearing: Balance,
    won: bool,
) -> int {
    if sold_out(sale) && !won {
        arithmetic::saturate(clearing + arithmetic::part_of(config.penalty, clearing as int))
    } else {
        clearing as int
    }
}

/// What a renewal costs a tenant that won in the auction, or did not.
///
/// The penalty depends on the outcome of the auction alone, and not on other
/// renewals.
pub fn renewal_price(
    sale: &SaleInfoRecordOf,
    config: &ConfigRecordOf,
    clearing: Balance,
    won: bool,
) -> (r: Balance)
    ensures
        r == renewal_price_of(*sale, *config, clearing, won),
{
    let penalty: Balance = if sale.cores_sold >= sale.cores_offered && !won {
        config.penalty.of(clearing)
    } else {
        0
    };
    clearing.saturating_add(penalty)
}

/// Whether the winner in place `i` is the one to be displaced: of those
/// without renewal rights the lowest bidder, and the first of them where
/// several bid the same.
pub open spec fn is_displaceable(allocations: Seq<Allocation>, i: int) -> bool {
    &&& 0 <= i < allocations.len()
    &&& !allocations[i].has_renewal_rights
    &&& forall|j: int|
        0 <= j < allocations.len() && !(#[trigger] allocations[j]).has_renewal_rights
            ==> allocations[i].bid_price < allocations[j].bid_price || (allocations[i].bid_price
            == allocations[j].bid_price && i <= j)
}

/// Finds the winner to be displaced, if there is one without renewal rights.
pub fn find_displaceable(allocations: &Vec<Allocation>) -> (r: Option<usize>)
    ensures
        match r {
            Some(i) => is_displaceable(allocations@, i as int),
            None => forall|j: int|
                0 <= j < allocations.len() ==> (#[trigger] allocations[j]).has_renewal_rights,
        },
{
    let mut found: Option<usize> = None;
    let mut n: usize = 0;
    while n < allocations.len()
        invariant
            n <= allocations.len(),
            match found {
                Some(i) => i < n && is_displaceable(allocations@.take(n as int), i as int),
                None => forall|j: int|
                    0 <= j < n ==> (#[trigger] allocations[j]).has_renewal_rights,
            },
        decreases allocations.len() - n,
    {
        let ghost before = allocations@.take(n as int);
        let ghost after = allocations@.take(n + 1);
        assert(forall|j: int| 0 <= j < n ==> after[j] == before[j]);
        assert(after[n as int] == allocations[n as int]);
        if !allocations[n].has_renewal_rights {
            match found {
                Some(i) => {
                    if allocations[n].bid_price < allocations[i].bid_price {
                        assert(before[i as int] == allocations[i as int]);
                        found = Some(n);
                    }
                },
                None => {
                    found = Some(n);
                },
            }
        }
        n += 1;
    }
    assert(allocations@.take(allocations.len() as int) =~= allocations@);
    found
}

/// There is at most one winner to be displaced.
pub proof fn law_displaceable_is_unique(allocations: Seq<Allocation>, i: int, j: int)
    requires
        is_displaceable(allocations, i),
        is_displaceable(allocations, j),
    ensures
        i == j,
{
}

/// Where there is a winner without renewal rights, there is one to be displaced.
pub proof fn lemma_displaceable_exists(allocations: Seq<Allocation>, j: int)
    requires
        0 <= j < allocations.len(),
        !allocations[j].has_renewal_rights,
    ensures
        exists|i: int| is_displaceable(allocations, i),
    decreases allocations.len(),
{
    let last = allocations.len() - 1;
    let rest = allocations.drop_last();
    assert(forall|k: int| 0 <= k < last ==> rest[k] == allocations[k]);
    if exists|k: int| 0 <= k < last && !(#[trigger] allocations[k]).has_renewal_rights {
        let k = choose|k: int| 0 <= k < last && !(#[trigger] allocations[k]).has_renewal_rights;
        assert(!rest[k].has_renewal_rights);
        lemma_displaceable_exists(rest, k);
        let i = choose|i: int| is_displaceable(rest, i);
        if !allocations[last].has_renewal_rights && allocations[last].bid_price
            < allocations[i].bid_price {
            assert forall|m: int|
                0 <= m < allocations.len() && !(
                #[trigger] allocations[m]).has_renewal_rights implies allocations[last].bid_price
                < allocations[m].bid_price || (allocations[last].bid_price
                == allocations[m].bid_price && last <= m) by {
                if m < last {
                    assert(!rest[m].has_renewal_rights);
                }
            }
            assert(is_displaceable(allocations, last));
        } else {
            assert forall|m: int|
                0 <= m < allocations.len() && !(
                #[trigger] allocations[m]).has_renewal_rights implies allocations[i].bid_price
                < allocations[m].bid_price || (allocations[i].bid_price == allocations[m].bid_price
                && i <= m) by {
                if m < last {
                    assert(!rest[m].has_renewal_rights);
                }
            }
            assert(is_displaceable(allocations, i));
        }
    } else {
        assert(is_displaceable(allocations, j));
    }
}

/// What becomes of an order for a renewal.
pub enum RenewalDecision {
    /// A core that is not allotted is sold.
    Unallotted(CoreIndex),
    /// The winner in this place is displaced, and its core is sold.
    Displace(usize),
    /// No core can be had.
    Unavailable,
}

/// The number of cores that are allotted: to winners of the auction and to renewals.
pub open spec fn allotted(allocations: Seq<Allocation>, renewal_count: u32) -> int {
    allocations.len() + renewal_count
}

/// The number of cores that a sale can sell: those that are not reserved, up
/// to the limit if there is one.
pub open spec fn sellable(
    sale: SaleInfoRecordOf,
    limit: Option<CoreIndex>,
    core_count: CoreIndex,
) -> int {
    price::offered(core_count, sale.first_core, limit)
}

/// Whether a core that can be sold is not allotted yet.
pub open spec fn core_is_free(
    sale: SaleInfoRecordOf,
    limit: Option<CoreIndex>,
    allocations: Seq<Allocation>,
    renewal_count: u32,
    core_count: CoreIndex,
) -> bool {
    allotted(allocations, renewal_count) < sellable(sale, limit, core_count)
}

/// The decision on an order for a renewal: a free core if there is one; else,
/// if the auction sold out, that of the winner to be displaced; else none.
pub open spec fn decision_is(
    decision: RenewalDecision,
    sale: SaleInfoRecordOf,
    limit: Option<CoreIndex>,
    allocations: Seq<Allocation>,
    renewal_count: u32,
    core_count: CoreIndex,
) -> bool {
    let free = core_is_free(sale, limit, allocations, renewal_count, core_count);
    match decision {
        RenewalDecision::Unallotted(core) => free && core == sale.first_core + allotted(
            allocations,
            renewal_count,
        ),
        RenewalDecision::Displace(i) => !free && sold_out(sale) && is_displaceable(
            allocations,
            i as int,
        ),
        RenewalDecision::Unavailable => !free && (sold_out(sale) ==> forall|j: int|
            0 <= j < allocations.len() ==> (#[trigger] allocations[j]).has_renewal_rights),
    }
}

/// Decides an order for a renewal.
pub fn decide_renewal(
    sale: &SaleInfoRecordOf,
    limit: Option<CoreIndex>,
    allocations: &Vec<Allocation>,
    renewal_count: u32,
    core_count: CoreIndex,
) -> (r: RenewalDecision)
    requires
        allotted(allocations@, renewal_count) <= u16::MAX,
    ensures
        decision_is(r, *sale, limit, allocations@, renewal_count, core_count),
{
    let allocated_count: CoreIndex = allocations.len() as u16 + renewal_count as u16;
    let available: CoreIndex = price::cores_on_offer(core_count, sale.first_core, limit);
    if allocated_count < available {
        RenewalDecision::Unallotted(sale.first_core.saturating_add(allocated_count))
    } else if sale.cores_sold >= sale.cores_offered {
        match find_displaceable(allocations) {
            Some(i) => RenewalDecision::Displace(i),
            None => RenewalDecision::Unavailable,
        }
    } else {
        RenewalDecision::Unavailable
    }
}

/// One decision follows from the state of the sale.
pub proof fn law_decision_is_unique(
    a: RenewalDecision,
    b: RenewalDecision,
    sale: SaleInfoRecordOf,
    limit: Option<CoreIndex>,
    allocations: Seq<Allocation>,
    renewal_count: u32,
    core_count: CoreIndex,
)
    requires
        decision_is(a, sale, limit, allocations, renewal_count, core_count),
        decision_is(b, sale, limit, allocations, renewal_count, core_count),
    ensures
        a == b,
{
}

/// The price that the winners of a sale pay.
pub open spec fn price_paid(sale: SaleInfoRecordOf) -> Balance {
    match sale.clearing_price {
        Some(p) => p,
        None => sale.reserve_price,
    }
}

/// The regions sold to those who hold allotments.
pub open spec fn region_sales(sale: SaleInfoRecordOf, allocations: Seq<Allocation>) -> Seq<Action> {
    Seq::new(
        allocations.len(),
        |i: int|
            TickAction::SellRegion {
                owner: allocations[i].who,
                paid: price_paid(sale),
                region_id: region_on(sale, allocations[i].core),
                region_end: sale.region_end,
            },
    )
}

/// The record of a sale with its renewals counted. The record counts no more
/// cores as sold than are on offer, also where renewals displaced winners or
/// took cores that came up for sale later.
pub open spec fn concluded_sale(sale: SaleInfoRecordOf, renewal_count: u32) -> SaleInfoRecordOf {
    let renewals = renewal_count % 0x1_0000;
    if renewals > 0 {
        SaleInfoRecordOf {
            cores_sold: arithmetic::smaller(
                sale.cores_sold + renewals,
                sale.cores_offered as int,
            ) as u16,
            ..sale
        }
    } else {
        sale
    }
}

/// Concludes a sale at the end of the Renewal phase.
///
/// Issues regions for all allotments that were not displaced, and counts
/// renewals as sales, so that the next reserve price follows total consumption.
pub fn finalize_sale(sale: &SaleInfoRecordOf, allocations: &Vec<Allocation>, renewal_count: u32) -> (r:
    (Vec<Action>, SaleInfoRecordOf))
    ensures
        r.0@ == region_sales(*sale, allocations@),
        r.1 == concluded_sale(*sale, renewal_count),
{
    let mut actions: Vec<Action> = Vec::new();
    let clearing_price: Balance = match sale.clearing_price {
        Some(p) => p,
        None => sale.reserve_price,
    };
    let mut i: usize = 0;
    while i < allocations.len()
        invariant
            i <= allocations.len(),
            clearing_price == price_paid(*sale),
            actions@ == region_sales(*sale, allocations@).take(i as int),
        decreases allocations.len() - i,
    {
        let alloc = allocations[i];
        actions.push(
            TickAction::SellRegion {
                owner: alloc.who,
                paid: clearing_price,
                region_id: sale_region(sale, alloc.core),
                region_end: sale.region_end,
            },
        );
        assert(actions@ =~= region_sales(*sale, allocations@).take(i + 1));
        i += 1;
    }
    assert(actions@ =~= region_sales(*sale, allocations@));
    let renewals: CoreIndex = (renewal_count % 0x1_0000) as u16;
    let mut updated_sale = *sale;
    if renewals > 0 {
        let sold: CoreIndex = sale.cores_sold.saturating_add(renewals);
        updated_sale.cores_sold = if sold <= sale.cores_offered {
            sold
        } else {
            sale.cores_offered
        };
    }
    (actions, updated_sale)
}

/// The record of a concluded sale differs from that of the sale in the number
/// of cores sold alone. Renewals are added to it, of whose number sixteen bits
/// are kept, up to the number of cores on offer; without renewals it stays.
pub proof fn law_renewals_are_added_to_the_record(sale: SaleInfoRecordOf, renewal_count: u32)
    ensures
        ({
            let concluded = concluded_sale(sale, renewal_count);
            let added = renewal_count % 0x1_0000;
            &&& concluded.cores_sold == (if added == 0 {
                sale.cores_sold as int
            } else if sale.cores_sold + added < sale.cores_offered {
                sale.cores_sold + added
            } else {
                sale.cores_offered as int
            })
            &&& concluded == (SaleInfoRecordOf { cores_sold: concluded.cores_sold, ..sale })
        }),
{
}

/// The region of a sale on a core begins with the regions of the sale and has
/// every bit of its mask set.
pub proof fn law_regions_of_a_sale_are_complete(sale: SaleInfoRecordOf, core: CoreIndex)
    ensures
        region_on(sale, core).begin == sale.region_begin,
        region_on(sale, core).core == core,
        region_on(sale, core).mask.high == u16::MAX,
        region_on(sale, core).mask.low == u64::MAX,
{
}

} // verus!

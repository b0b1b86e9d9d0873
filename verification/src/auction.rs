//! How an auction is settled: who wins, what they pay and what is refunded.

use crate::arithmetic;
use crate::market::{RenewalRightsProvider, TickAction};
use crate::primitives::CoreIndex;
use crate::records::{
    AccountId, AllocationRecord, Balance, BidId, BidRecord, BlockNumber, SaleInfoRecordOf,
};
use vstd::prelude::*;

verus! {

/// A bid with its identity.
pub type Bid = (BidId, BidRecord<AccountId, Balance>);

/// What the broker has to do, in the units of this crate.
pub type Action = TickAction<Balance, BlockNumber, AccountId, BidId>;

/// What a winner has been allotted, in the units of this crate.
pub type Allocation = AllocationRecord<AccountId, Balance>;

/// Whether no bid is higher than one before it.
pub open spec fn descending(bids: Seq<Bid>) -> bool {
    forall|i: int, j: int| 0 <= i <= j < bids.len() ==> bids[i].1.price >= bids[j].1.price
}

/// `bids` with `bid` put behind all that are no lower.
pub open spec fn ranked_with(bids: Seq<Bid>, bid: Bid) -> Seq<Bid>
    decreases bids.len(),
{
    if bids.len() == 0 || bids.last().1.price >= bid.1.price {
        bids.push(bid)
    } else {
        ranked_with(bids.drop_last(), bid).push(bids.last())
    }
}

/// The bids from the highest to the lowest; equal ones keep their order.
pub open spec fn ranked(bids: Seq<Bid>) -> Seq<Bid>
    decreases bids.len(),
{
    if bids.len() == 0 {
        bids
    } else {
        ranked_with(ranked(bids.drop_last()), bids.last())
    }
}

/// Where in a ranking a bid is put.
proof fn lemma_ranked_with_is_insert(bids: Seq<Bid>, bid: Bid, pos: int)
    requires
        0 <= pos <= bids.len(),
        pos > 0 ==> bids[pos - 1].1.price >= bid.1.price,
        forall|i: int| pos <= i < bids.len() ==> bids[i].1.price < bid.1.price,
    ensures
        ranked_with(bids, bid) == bids.insert(pos, bid),
    decreases bids.len(),
{
    if pos == bids.len() {
        assert(bids.insert(pos, bid) =~= bids.push(bid));
    } else {
        lemma_ranked_with_is_insert(bids.drop_last(), bid, pos);
        assert(bids.drop_last().insert(pos, bid).push(bids.last()) =~= bids.insert(pos, bid));
    }
}

/// A bid that is put in its place leaves a ranking a ranking.
proof fn lemma_ranked_with_keeps_order(bids: Seq<Bid>, bid: Bid)
    requires
        descending(bids),
    ensures
        descending(ranked_with(bids, bid)),
        ranked_with(bids, bid).len() == bids.len() + 1,
        ranked_with(bids, bid).to_multiset() == bids.to_multiset().insert(bid),
        forall|i: int|
            0 <= i < ranked_with(bids, bid).len() ==> (#[trigger] ranked_with(bids, bid)[i]) == bid
                || bids.contains(ranked_with(bids, bid)[i]),
    decreases bids.len(),
{
    broadcast use vstd::seq_lib::group_to_multiset_ensures;

    if bids.len() == 0 || bids.last().1.price >= bid.1.price {
        assert forall|i: int, j: int| 0 <= i <= j < bids.push(bid).len() implies bids.push(
            bid,
        )[i].1.price >= bids.push(bid)[j].1.price by {
            if j == bids.len() && i < j {
                assert(bids[i].1.price >= bids[bids.len() - 1].1.price);
            }
        }
    } else {
        let rest = bids.drop_last();
        lemma_ranked_with_keeps_order(rest, bid);
        let inner = ranked_with(rest, bid);
        let r = inner.push(bids.last());
        assert(rest.push(bids.last()) =~= bids);
        assert(rest.to_multiset().insert(bid).insert(bids.last()) =~= bids.to_multiset().insert(
            bid,
        ));
        assert forall|i: int| 0 <= i < r.len() implies (#[trigger] r[i]) == bid || bids.contains(
            r[i],
        ) by {
            if i < inner.len() {
                if inner[i] != bid {
                    let k = choose|k: int| 0 <= k < rest.len() && rest[k] == inner[i];
                    assert(bids[k] == r[i]);
                }
            } else {
                assert(bids[bids.len() - 1] == r[i]);
            }
        }
        assert forall|i: int, j: int| 0 <= i <= j < r.len() implies r[i].1.price
            >= r[j].1.price by {
            if j == inner.len() && i < j {
                if inner[i] != bid {
                    let k = choose|k: int| 0 <= k < rest.len() && rest[k] == inner[i];
                    assert(bids[k].1.price >= bids[bids.len() - 1].1.price);
                }
            }
        }
    }
}

/// A ranking holds the bids that were ranked, each as often, from the highest to the lowest.
pub proof fn law_ranking_is_a_sort(bids: Seq<Bid>)
    ensures
        descending(ranked(bids)),
        ranked(bids).to_multiset() == bids.to_multiset(),
        ranked(bids).len() == bids.len(),
    decreases bids.len(),
{
    broadcast use vstd::seq_lib::group_to_multiset_ensures;

    if bids.len() > 0 {
        law_ranking_is_a_sort(bids.drop_last());
        lemma_ranked_with_keeps_order(ranked(bids.drop_last()), bids.last());
        assert(bids.drop_last().push(bids.last()) =~= bids);
    }
}

/// The bids of one price, in their order.
pub open spec fn bids_at(bids: Seq<Bid>, price: Balance) -> Seq<Bid> {
    bids.filter(|b: Bid| b.1.price == price)
}

/// A bid that is put in its place comes last among those of its price.
proof fn lemma_ranked_with_is_stable(bids: Seq<Bid>, bid: Bid, price: Balance)
    ensures
        bids_at(ranked_with(bids, bid), price) == bids_at(bids.push(bid), price),
    decreases bids.len(),
{
    broadcast use Seq::lemma_filter_push;

    if bids.len() > 0 && bids.last().1.price < bid.1.price {
        let rest = bids.drop_last();
        lemma_ranked_with_is_stable(rest, bid, price);
        assert(rest.push(bids.last()) =~= bids);
        assert(bids_at(bids, price) == bids_at(rest.push(bids.last()), price));
    }
}

/// Bids of one price keep their order in the ranking.
pub proof fn law_ranking_is_stable(bids: Seq<Bid>, price: Balance)
    ensures
        bids_at(ranked(bids), price) == bids_at(bids, price),
    decreases bids.len(),
{
    broadcast use Seq::lemma_filter_push;

    if bids.len() > 0 {
        let rest = bids.drop_last();
        law_ranking_is_stable(rest, price);
        lemma_ranked_with_is_stable(ranked(rest), bids.last(), price);
        assert(rest.push(bids.last()) =~= bids);
    }
}

/// Ranks the bids from the highest to the lowest; equal ones keep their order.
pub fn rank_bids(bids: &Vec<Bid>) -> (r: Vec<Bid>)
    ensures
        r@ == ranked(bids@),
{
    let mut out: Vec<Bid> = Vec::new();
    let mut n: usize = 0;
    assert(bids@.take(0) =~= Seq::<Bid>::empty());
    while n < bids.len()
        invariant
            n <= bids.len(),
            out@ == ranked(bids@.take(n as int)),
            out.len() == n,
        decreases bids.len() - n,
    {
        let bid: Bid = bids[n];
        let mut pos: usize = out.len();
        while pos > 0 && out[pos - 1].1.price < bid.1.price
            invariant
                pos <= out.len(),
                forall|i: int| pos <= i < out.len() ==> out[i].1.price < bid.1.price,
            decreases pos,
        {
            pos -= 1;
        }
        proof {
            lemma_ranked_with_is_insert(out@, bid, pos as int);
            assert(bids@.take(n + 1).drop_last() =~= bids@.take(n as int));
            law_ranking_is_a_sort(bids@.take(n + 1));
        }
        out.insert(pos, bid);
        n += 1;
    }
    assert(bids@.take(bids@.len() as int) =~= bids@);
    out
}

/// The price that all winners pay: the bid on the last core on offer, but no
/// less than the reserve price, which is also the price where there are fewer
/// bids than cores.
pub open spec fn clearing_price_of(
    ranking: Seq<Bid>,
    cores_offered: CoreIndex,
    reserve: Balance,
) -> Balance {
    if ranking.len() >= cores_offered && cores_offered > 0
        && ranking[cores_offered - 1].1.price > reserve {
        ranking[cores_offered - 1].1.price
    } else {
        reserve
    }
}

/// The price that all winners pay, from the ranked bids.
pub fn clearing_price(ranking: &Vec<Bid>, cores_offered: CoreIndex, reserve: Balance) -> (r: Balance)
    ensures
        r == clearing_price_of(ranking@, cores_offered, reserve),
{
    let k: usize = cores_offered as usize;
    if ranking.len() >= k && k > 0 {
        let marginal: Balance = ranking[k - 1].1.price;
        if marginal > reserve {
            return marginal;
        }
    }
    reserve
}

/// Whether a bid is above a price or, if that is asked for, at it.
pub open spec fn reaches(bid: Bid, price: Balance, or_equal: bool) -> bool {
    bid.1.price > price || (or_equal && bid.1.price == price)
}

/// The number of bids above a price or, if that is asked for, at it.
pub open spec fn count_reaching(bids: Seq<Bid>, price: Balance, or_equal: bool) -> nat {
    bids.filter(|b: Bid| reaches(b, price, or_equal)).len()
}

/// The bids that reach a price are the first of a ranking.
pub proof fn lemma_reaching_prefix(bids: Seq<Bid>, price: Balance, or_equal: bool, n: int)
    requires
        0 <= n <= bids.len(),
        forall|i: int| 0 <= i < n ==> reaches(bids[i], price, or_equal),
        forall|i: int| n <= i < bids.len() ==> !reaches(bids[i], price, or_equal),
    ensures
        count_reaching(bids, price, or_equal) == n,
    decreases bids.len(),
{
    broadcast use Seq::lemma_filter_push;

    reveal(Seq::filter);
    if bids.len() > 0 {
        let rest = bids.drop_last();
        assert(rest.push(bids.last()) =~= bids);
        lemma_reaching_prefix(
            rest,
            price,
            or_equal,
            if n == bids.len() {
                n - 1
            } else {
                n
            },
        );
    }
}

/// Counts the bids of a ranking above a price or, if that is asked for, at it.
pub fn partition_point(ranking: &Vec<Bid>, price: Balance, or_equal: bool) -> (r: usize)
    requires
        descending(ranking@),
    ensures
        r == count_reaching(ranking@, price, or_equal),
        r <= ranking.len(),
        forall|i: int| 0 <= i < r ==> reaches(ranking[i], price, or_equal),
        forall|i: int| r <= i < ranking.len() ==> !reaches(ranking[i], price, or_equal),
{
    let mut low: usize = 0;
    let mut high: usize = ranking.len();
    while low < high
        invariant
            low <= high <= ranking.len(),
            descending(ranking@),
            forall|i: int| 0 <= i < low ==> reaches(ranking[i], price, or_equal),
            forall|i: int| high <= i < ranking.len() ==> !reaches(ranking[i], price, or_equal),
        decreases high - low,
    {
        let middle: usize = low + (high - low) / 2;
        let at: Balance = ranking[middle].1.price;
        if at > price || (or_equal && at == price) {
            low = middle + 1;
        } else {
            high = middle;
        }
    }
    proof {
        lemma_reaching_prefix(ranking@, price, or_equal, low as int);
    }
    low
}

/// The number that the seed gives for step `i`: four of its bytes, the least
/// significant first, taken from a place that moves on by four with each step.
pub open spec fn draw(seed: Seq<u8>, i: int) -> int {
    let offset = ((i - 1) * 4) % (seed.len() - 3);
    seed[offset] + 0x100 * seed[offset + 1] + 0x1_0000 * seed[offset + 2] + 0x100_0000 * seed[offset
        + 3]
}

/// `bids` with two of them exchanged.
pub open spec fn exchanged(bids: Seq<Bid>, a: int, b: int) -> Seq<Bid> {
    bids.update(a, bids[b]).update(b, bids[a])
}

/// `bids` after the steps from `i` down to one of a shuffle of those from
/// `start` on: each step exchanges the `i`-th with one that is drawn from
/// those up to it.
pub open spec fn shuffled_from(bids: Seq<Bid>, start: int, i: int, seed: Seq<u8>) -> Seq<Bid>
    decreases i,
{
    if i <= 0 {
        bids
    } else {
        shuffled_from(
            exchanged(bids, start + i, start + draw(seed, i) % (i + 1)),
            start,
            i - 1,
            seed,
        )
    }
}

/// A ranking with the bids at the clearing price shuffled.
pub open spec fn shuffled(ranking: Seq<Bid>, clearing_price: Balance, seed: Seq<u8>) -> Seq<Bid> {
    let start = count_reaching(ranking, clearing_price, false) as int;
    let end = count_reaching(ranking, clearing_price, true) as int;
    if end - start <= 1 || seed.len() <= 3 {
        ranking
    } else {
        shuffled_from(ranking, start, end - start - 1, seed)
    }
}

/// The number that the seed gives for step `i`.
fn draw_from(seed: &[u8], i: usize) -> (r: u32)
    requires
        i >= 1,
        seed@.len() > 3,
    ensures
        r == draw(seed@, i as int),
{
    let hash_len: usize = seed.len() - 3;
    let offset: usize = ((i - 1) as u128 * 4 % hash_len as u128) as usize;
    seed[offset] as u32 + 0x100 * seed[offset + 1] as u32 + 0x1_0000 * seed[offset + 2] as u32
        + 0x100_0000 * seed[offset + 3] as u32
}

/// Shuffles the bids of a ranking that are at the clearing price.
///
/// Bids above the clearing price have won and bids below have lost, whatever
/// their order. Those at it are shuffled, so that the winners among them are
/// chosen fairly where there are not enough cores for all.
pub fn shuffle_marginal_bids(bids: &mut Vec<Bid>, clearing_price: Balance, seed: &[u8])
    requires
        descending(old(bids)@),
    ensures
        final(bids)@ == shuffled(old(bids)@, clearing_price, seed@),
{
    let start: usize = partition_point(bids, clearing_price, false);
    let end: usize = partition_point(bids, clearing_price, true);
    if end <= start || end - start <= 1 {
        return;
    }
    if seed.len() <= 3 {
        return;
    }
    let n: usize = end - start;
    let ghost before = bids@;
    let mut i: usize = n - 1;
    while i >= 1
        invariant
            start + n <= bids.len(),
            bids@.len() == before.len(),
            i < n,
            seed@.len() > 3,
            shuffled_from(bids@, start as int, i as int, seed@) == shuffled_from(
                before,
                start as int,
                n - 1,
                seed@,
            ),
        decreases i,
    {
        let j: usize = (draw_from(seed, i) as u64 % (i as u64 + 1)) as usize;
        let ghost now = bids@;
        let x: Bid = bids[start + i];
        let y: Bid = bids[start + j];
        bids.set(start + i, y);
        bids.set(start + j, x);
        assert(bids@ =~= exchanged(now, start + i, start + j));
        i -= 1;
    }
}

/// Whether two bid sequences are of one length and have the same price at each place.
pub open spec fn same_prices(a: Seq<Bid>, b: Seq<Bid>) -> bool {
    &&& a.len() == b.len()
    &&& forall|i: int| 0 <= i < a.len() ==> (#[trigger] a[i]).1.price == b[i].1.price
}

/// An exchange keeps what is bid and how often.
pub proof fn lemma_exchange_keeps_bids(bids: Seq<Bid>, a: int, b: int)
    requires
        0 <= a < bids.len(),
        0 <= b < bids.len(),
    ensures
        exchanged(bids, a, b).to_multiset() == bids.to_multiset(),
{
    broadcast use vstd::seq_lib::to_multiset_update;

    let once = bids.update(a, bids[b]);
    if a == b {
        assert(exchanged(bids, a, b) =~= bids);
    } else {
        assert(once[b] == bids[b]);
        assert(bids.to_multiset().contains(bids[a])) by {
            bids.to_multiset_ensures();
            assert(bids.contains(bids[a]));
        }
        assert(bids.to_multiset().contains(bids[b])) by {
            bids.to_multiset_ensures();
            assert(bids.contains(bids[b]));
        }
        assert(exchanged(bids, a, b).to_multiset() =~= bids.to_multiset());
    }
}

/// What the steps of a shuffle keep.
proof fn lemma_shuffle_steps(
    bids: Seq<Bid>,
    start: int,
    i: int,
    n: int,
    price: Balance,
    seed: Seq<u8>,
)
    requires
        0 <= start,
        i < n,
        start + n <= bids.len(),
        forall|k: int| start <= k < start + n ==> (#[trigger] bids[k]).1.price == price,
    ensures
        shuffled_from(bids, start, i, seed).to_multiset() == bids.to_multiset(),
        same_prices(shuffled_from(bids, start, i, seed), bids),
        forall|k: int|
            0 <= k < bids.len() && !(start <= k < start + n) ==> (#[trigger] shuffled_from(
                bids,
                start,
                i,
                seed,
            )[k]) == bids[k],
    decreases i,
{
    if i > 0 {
        let j = draw(seed, i) % (i + 1);
        let next = exchanged(bids, start + i, start + j);
        lemma_exchange_keeps_bids(bids, start + i, start + j);
        lemma_shuffle_steps(next, start, i - 1, n, price, seed);
    }
}

/// A shuffle of the bids at the clearing price keeps what is bid and how
/// often, the price at each place, and every bid at another price in its place.
pub proof fn law_shuffle_moves_marginal_bids_only(
    ranking: Seq<Bid>,
    clearing_price: Balance,
    seed: Seq<u8>,
)
    requires
        descending(ranking),
    ensures
        shuffled(ranking, clearing_price, seed).to_multiset() == ranking.to_multiset(),
        same_prices(shuffled(ranking, clearing_price, seed), ranking),
        descending(shuffled(ranking, clearing_price, seed)),
        forall|k: int|
            0 <= k < ranking.len() && ranking[k].1.price != clearing_price ==> (
            #[trigger] shuffled(ranking, clearing_price, seed)[k]) == ranking[k],
{
    let start = count_reaching(ranking, clearing_price, false) as int;
    let end = count_reaching(ranking, clearing_price, true) as int;
    lemma_reaching_is_prefix(ranking, clearing_price, false);
    lemma_reaching_is_prefix(ranking, clearing_price, true);
    if end - start > 1 && seed.len() > 3 {
        assert forall|k: int| start <= k < end implies (#[trigger] ranking[k]).1.price
            == clearing_price by {
            assert(reaches(ranking[k], clearing_price, true));
            assert(!reaches(ranking[k], clearing_price, false));
        }
        assert forall|k: int| 0 <= k < ranking.len() && ranking[k].1.price != clearing_price implies !(
        start <= k < end) by {}
        lemma_shuffle_steps(ranking, start, end - start - 1, end - start, clearing_price, seed);
    }
}

/// In a ranking the bids that reach a price come first.
pub proof fn lemma_reaching_is_prefix(ranking: Seq<Bid>, price: Balance, or_equal: bool)
    requires
        descending(ranking),
    ensures
        count_reaching(ranking, price, or_equal) <= ranking.len(),
        forall|i: int|
            0 <= i < count_reaching(ranking, price, or_equal) ==> reaches(
                #[trigger] ranking[i],
                price,
                or_equal,
            ),
        forall|i: int|
            count_reaching(ranking, price, or_equal) <= i < ranking.len() ==> !reaches(
                #[trigger] ranking[i],
                price,
                or_equal,
            ),
{
    let n = first_short(ranking, price, or_equal, 0);
    lemma_first_short(ranking, price, or_equal, 0);
    lemma_reaching_prefix(ranking, price, or_equal, n);
}

/// The first place from `i` on whose bid does not reach a price.
spec fn first_short(ranking: Seq<Bid>, price: Balance, or_equal: bool, i: int) -> int
    decreases ranking.len() - i,
{
    if i >= ranking.len() || !reaches(ranking[i], price, or_equal) {
        i
    } else {
        first_short(ranking, price, or_equal, i + 1)
    }
}

/// The first place whose bid does not reach a price parts a ranking.
proof fn lemma_first_short(ranking: Seq<Bid>, price: Balance, or_equal: bool, i: int)
    requires
        descending(ranking),
        0 <= i <= ranking.len(),
        forall|k: int| 0 <= k < i ==> reaches(#[trigger] ranking[k], price, or_equal),
    ensures
        i <= first_short(ranking, price, or_equal, i) <= ranking.len(),
        forall|k: int|
            0 <= k < first_short(ranking, price, or_equal, i) ==> reaches(
                #[trigger] ranking[k],
                price,
                or_equal,
            ),
        forall|k: int|
            first_short(ranking, price, or_equal, i) <= k < ranking.len() ==> !reaches(
                #[trigger] ranking[k],
                price,
                or_equal,
            ),
    decreases ranking.len() - i,
{
    if i < ranking.len() && reaches(ranking[i], price, or_equal) {
        lemma_first_short(ranking, price, or_equal, i + 1);
    }
}

/// The clearing price of a set of bids.
pub open spec fn clearing_of(bids: Seq<Bid>, sale: SaleInfoRecordOf) -> Balance {
    clearing_price_of(ranked(bids), sale.cores_offered, sale.reserve_price)
}

/// The bids in the order in which they are served: ranked, with those at the
/// clearing price shuffled.
pub open spec fn serving_order(bids: Seq<Bid>, sale: SaleInfoRecordOf, seed: Seq<u8>) -> Seq<Bid> {
    shuffled(ranked(bids), clearing_of(bids, sale), seed)
}

/// Whether the bid that is served in place `i` wins: a core is left for it,
/// and it is no lower than the clearing price.
pub open spec fn wins(order: Seq<Bid>, i: int, cores_offered: CoreIndex, clearing: Balance) -> bool {
    i < cores_offered && order[i].1.price >= clearing
}

/// What the winner that is served in place `i` is allotted.
pub open spec fn allotment<R: RenewalRightsProvider<AccountId>>(
    order: Seq<Bid>,
    i: int,
    sale: SaleInfoRecordOf,
    clearing: Balance,
    rights: R,
) -> Allocation {
    AllocationRecord {
        who: order[i].1.who,
        bid_price: order[i].1.price,
        clearing_price: clearing,
        bid_id: order[i].0,
        core: arithmetic::smaller(sale.first_core + i, u16::MAX as int) as u16,
        has_renewal_rights: rights.rights(order[i].1.who, sale.region_end) > 0,
    }
}

/// What the winners among the first `n` bids served are allotted.
pub open spec fn allotments<R: RenewalRightsProvider<AccountId>>(
    order: Seq<Bid>,
    n: nat,
    sale: SaleInfoRecordOf,
    clearing: Balance,
    rights: R,
) -> Seq<Allocation>
    decreases n,
{
    if n == 0 {
        Seq::empty()
    } else {
        let before = allotments(order, (n - 1) as nat, sale, clearing, rights);
        if wins(order, n - 1, sale.cores_offered, clearing) {
            before.push(allotment(order, n - 1, sale, clearing, rights))
        } else {
            before
        }
    }
}

/// What is refunded of a bid: what a winner bid above the clearing price, and all that a loser bid.
pub open spec fn refund_of(
    order: Seq<Bid>,
    i: int,
    cores_offered: CoreIndex,
    clearing: Balance,
) -> int {
    if wins(order, i, cores_offered, clearing) {
        order[i].1.price - clearing
    } else {
        order[i].1.price as int
    }
}

/// The refunds to the first `n` bidders served. Losers have one each, winners
/// where they bid above the clearing price.
pub open spec fn refunds(
    order: Seq<Bid>,
    n: nat,
    cores_offered: CoreIndex,
    clearing: Balance,
) -> Seq<Action>
    decreases n,
{
    if n == 0 {
        Seq::empty()
    } else {
        let before = refunds(order, (n - 1) as nat, cores_offered, clearing);
        let amount = refund_of(order, n - 1, cores_offered, clearing);
        if wins(order, n - 1, cores_offered, clearing) && amount == 0 {
            before
        } else {
            before.push(TickAction::Refund { amount: amount as u64, who: order[n - 1].1.who })
        }
    }
}

/// The accounts that hold allotments.
pub open spec fn holders(allocations: Seq<Allocation>) -> Seq<AccountId> {
    Seq::new(allocations.len(), |i: int| allocations[i].who)
}

/// The accounts that hold allotments.
fn holders_of(allocations: &Vec<Allocation>) -> (r: Vec<AccountId>)
    ensures
        r@ == holders(allocations@),
{
    let mut accounts: Vec<AccountId> = Vec::new();
    let mut i: usize = 0;
    while i < allocations.len()
        invariant
            i <= allocations.len(),
            accounts@ == holders(allocations@).take(i as int),
        decreases allocations.len() - i,
    {
        accounts.push(allocations[i].who);
        assert(accounts@ =~= holders(allocations@).take(i + 1));
        i += 1;
    }
    assert(accounts@ =~= holders(allocations@));
    accounts
}

/// The outcome of an auction.
pub struct Settlement {
    /// The refunds.
    pub actions: Vec<Action>,
    /// What the winners are allotted.
    pub allocations: Vec<Allocation>,
    /// The accounts that won, once for each bid.
    pub accounts: Vec<AccountId>,
    /// The record of the sale with the outcome.
    pub sale: SaleInfoRecordOf,
    /// The price that all winners pay.
    pub clearing_price: Balance,
    /// The number of winners.
    pub winners: u32,
}

/// The record of a sale with the outcome of its auction.
pub open spec fn settled_sale(sale: SaleInfoRecordOf, winners: int, clearing: Balance) -> SaleInfoRecordOf {
    SaleInfoRecordOf { cores_sold: winners as u16, clearing_price: Some(clearing), ..sale }
}

/// There are no more winners than cores on offer, nor than bids.
pub proof fn lemma_allotments_bound<R: RenewalRightsProvider<AccountId>>(
    order: Seq<Bid>,
    n: nat,
    sale: SaleInfoRecordOf,
    clearing: Balance,
    rights: R,
)
    ensures
        allotments(order, n, sale, clearing, rights).len() <= n,
        allotments(order, n, sale, clearing, rights).len() <= sale.cores_offered,
    decreases n,
{
    if n > 0 {
        lemma_allotments_bound(order, (n - 1) as nat, sale, clearing, rights);
    }
}

/// Settles the auction at the end of the Market phase.
///
/// Ranks the bids, finds the clearing price, allots cores to the winners and
/// refunds the losers and what winners bid in excess. At most `max_bids`
/// allotments are kept.
pub fn settle_auction<R: RenewalRightsProvider<AccountId>>(
    sale: &SaleInfoRecordOf,
    bids: &Vec<Bid>,
    seed: &[u8],
    rights: &R,
    max_bids: u32,
) -> (r: Settlement)
    ensures
        r.clearing_price == clearing_of(bids@, *sale),
        r.actions@ == refunds(
            serving_order(bids@, *sale, seed@),
            bids@.len(),
            sale.cores_offered,
            clearing_of(bids@, *sale),
        ),
        r.winners == allotments(
            serving_order(bids@, *sale, seed@),
            bids@.len(),
            *sale,
            clearing_of(bids@, *sale),
            *rights,
        ).len(),
        r.allocations@ == kept(
            allotments(
                serving_order(bids@, *sale, seed@),
                bids@.len(),
                *sale,
                clearing_of(bids@, *sale),
                *rights,
            ),
            max_bids as int,
        ),
        r.accounts@ == holders(
            allotments(
                serving_order(bids@, *sale, seed@),
                bids@.len(),
                *sale,
                clearing_of(bids@, *sale),
                *rights,
            ),
        ),
        r.sale == settled_sale(*sale, r.winners as int, r.clearing_price),
        r.winners <= sale.cores_offered,
{
    let mut order: Vec<Bid> = rank_bids(bids);
    let clearing: Balance = clearing_price(&order, sale.cores_offered, sale.reserve_price);
    proof {
        law_ranking_is_a_sort(bids@);
        law_shuffle_moves_marginal_bids_only(ranked(bids@), clearing, seed@);
    }
    shuffle_marginal_bids(&mut order, clearing, seed);
    let mut actions: Vec<Action> = Vec::new();
    let mut allocations: Vec<Allocation> = Vec::new();
    let mut winners: u32 = 0;
    let k: usize = sale.cores_offered as usize;
    let mut i: usize = 0;
    while i < order.len()
        invariant
            i <= order.len(),
            k == sale.cores_offered,
            winners <= i,
            winners <= sale.cores_offered,
            actions@ == refunds(order@, i as nat, sale.cores_offered, clearing),
            allocations@ == allotments(order@, i as nat, *sale, clearing, *rights),
            winners == allocations@.len(),
        decreases order.len() - i,
    {
        let bid_id: BidId = order[i].0;
        let bid = order[i].1;
        proof {
            lemma_allotments_bound(order@, (i + 1) as nat, *sale, clearing, *rights);
        }
        if i < k && bid.price >= clearing {
            let excess: Balance = bid.price - clearing;
            if excess != 0 {
                actions.push(TickAction::Refund { amount: excess, who: bid.who });
            }
            let core: CoreIndex = sale.first_core.saturating_add(i as u16);
            let has_renewal_rights = rights.renewal_rights_count(&bid.who, sale.region_end) > 0;
            allocations.push(
                AllocationRecord {
                    who: bid.who,
                    bid_price: bid.price,
                    clearing_price: clearing,
                    bid_id,
                    core,
                    has_renewal_rights,
                },
            );
            winners += 1;
        } else {
            actions.push(TickAction::Refund { amount: bid.price, who: bid.who });
        }
        i += 1;
    }
    let accounts: Vec<AccountId> = holders_of(&allocations);
    truncate(&mut allocations, max_bids);
    let mut updated_sale = *sale;
    updated_sale.cores_sold = winners as u16;
    updated_sale.clearing_price = Some(clearing);
    Settlement {
        actions,
        allocations,
        accounts,
        sale: updated_sale,
        clearing_price: clearing,
        winners,
    }
}

/// The first `limit` allotments, or all where there are fewer.
pub open spec fn kept(allocations: Seq<Allocation>, limit: int) -> Seq<Allocation> {
    if allocations.len() <= limit {
        allocations
    } else {
        allocations.take(limit)
    }
}

/// Drops all allotments but the first `limit`.
fn truncate(allocations: &mut Vec<Allocation>, limit: u32)
    ensures
        final(allocations)@ == kept(old(allocations)@, limit as int),
{
    if allocations.len() > limit as usize {
        allocations.truncate(limit as usize);
        assert(allocations@ =~= kept(old(allocations)@, limit as int));
    }
}

} // verus!

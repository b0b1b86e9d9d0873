//! What holds of every auction.

use crate::arithmetic;
use crate::auction;
use crate::auction::{Action, Allocation, Bid};
use crate::market::{RenewalRightsProvider, TickAction};
use crate::records::{AccountId, Balance, SaleInfoRecordOf};
use crate::storage;
use vstd::prelude::*;

verus! {

/// The number of bids that reach a price does not depend on their order.
proof fn lemma_count_ranked_with(bids: Seq<Bid>, bid: Bid, price: Balance, or_equal: bool)
    ensures
        auction::count_reaching(auction::ranked_with(bids, bid), price, or_equal)
            == auction::count_reaching(bids.push(bid), price, or_equal),
    decreases bids.len(),
{
    broadcast use Seq::lemma_filter_push;

    if bids.len() > 0 && bids.last().1.price < bid.1.price {
        let rest = bids.drop_last();
        assert(rest.push(bids.last()) =~= bids);
        lemma_count_ranked_with(rest, bid, price, or_equal);
    }
}

/// The number of bids that reach a price is that of the ranking.
proof fn lemma_count_ranked(bids: Seq<Bid>, price: Balance, or_equal: bool)
    ensures
        auction::count_reaching(auction::ranked(bids), price, or_equal) == auction::count_reaching(
            bids,
            price,
            or_equal,
        ),
    decreases bids.len(),
{
    broadcast use Seq::lemma_filter_push;

    if bids.len() > 0 {
        let rest = bids.drop_last();
        assert(rest.push(bids.last()) =~= bids);
        lemma_count_ranked(rest, price, or_equal);
        lemma_count_ranked_with(auction::ranked(rest), bids.last(), price, or_equal);
    }
}

/// What is known of the order in which bids are served.
proof fn lemma_serving_order(bids: Seq<Bid>, sale: SaleInfoRecordOf, seed: Seq<u8>)
    ensures
        auction::descending(auction::ranked(bids)),
        auction::descending(auction::serving_order(bids, sale, seed)),
        auction::same_prices(auction::serving_order(bids, sale, seed), auction::ranked(bids)),
        auction::serving_order(bids, sale, seed).len() == bids.len(),
        auction::serving_order(bids, sale, seed).to_multiset() == bids.to_multiset(),
{
    auction::law_ranking_is_a_sort(bids);
    auction::law_shuffle_moves_marginal_bids_only(
        auction::ranked(bids),
        auction::clearing_of(bids, sale),
        seed,
    );
}

/// Every bid is served once.
pub proof fn law_every_bid_is_served_once(bids: Seq<Bid>, sale: SaleInfoRecordOf, seed: Seq<u8>)
    ensures
        auction::serving_order(bids, sale, seed).to_multiset() == bids.to_multiset(),
{
    lemma_serving_order(bids, sale, seed);
}

/// The clearing price is no less than the reserve price. Where there are at
/// least as many bids as cores on offer, it is the bid on the last core: fewer
/// bids than there are cores lie above it, and, if it is above the reserve
/// price, at least as many lie at or above it. Where there are fewer bids, it
/// is the reserve price.
pub proof fn law_clearing_price_is_the_marginal_bid(bids: Seq<Bid>, sale: SaleInfoRecordOf)
    ensures
        auction::clearing_of(bids, sale) >= sale.reserve_price,
        bids.len() < sale.cores_offered ==> auction::clearing_of(bids, sale) == sale.reserve_price,
        bids.len() >= sale.cores_offered > 0 ==> auction::count_reaching(
            bids,
            auction::clearing_of(bids, sale),
            false,
        ) < sale.cores_offered,
        auction::clearing_of(bids, sale) > sale.reserve_price ==> auction::count_reaching(
            bids,
            auction::clearing_of(bids, sale),
            true,
        ) >= sale.cores_offered,
{
    let ranking = auction::ranked(bids);
    let clearing = auction::clearing_of(bids, sale);
    let k = sale.cores_offered as int;
    auction::law_ranking_is_a_sort(bids);
    auction::lemma_reaching_is_prefix(ranking, clearing, false);
    auction::lemma_reaching_is_prefix(ranking, clearing, true);
    lemma_count_ranked(bids, clearing, false);
    lemma_count_ranked(bids, clearing, true);
    if bids.len() >= k && k > 0 {
        assert(!auction::reaches(ranking[k - 1], clearing, false));
        if auction::count_reaching(ranking, clearing, false) >= k {
            assert(auction::reaches(ranking[k - 1], clearing, false));
        }
        if clearing > sale.reserve_price {
            assert(auction::reaches(ranking[k - 1], clearing, true));
        }
    }
}

/// The number of winners.
pub open spec fn winner_count(bids: Seq<Bid>, sale: SaleInfoRecordOf) -> int {
    arithmetic::smaller(
        sale.cores_offered as int,
        auction::count_reaching(bids, auction::clearing_of(bids, sale), true) as int,
    )
}

/// The winners are the first that are served.
proof fn lemma_winners_come_first(bids: Seq<Bid>, sale: SaleInfoRecordOf, seed: Seq<u8>)
    ensures
        0 <= winner_count(bids, sale) <= bids.len(),
        forall|i: int|
            0 <= i < bids.len() ==> #[trigger] auction::wins(
                auction::serving_order(bids, sale, seed),
                i,
                sale.cores_offered,
                auction::clearing_of(bids, sale),
            ) == (i < winner_count(bids, sale)),
{
    let ranking = auction::ranked(bids);
    let clearing = auction::clearing_of(bids, sale);
    let order = auction::serving_order(bids, sale, seed);
    lemma_serving_order(bids, sale, seed);
    auction::lemma_reaching_is_prefix(ranking, clearing, true);
    lemma_count_ranked(bids, clearing, true);
    assert forall|i: int| 0 <= i < bids.len() implies #[trigger] auction::wins(
        order,
        i,
        sale.cores_offered,
        clearing,
    ) == (i < winner_count(bids, sale)) by {
        assert(order[i].1.price == ranking[i].1.price);
        assert(auction::reaches(ranking[i], clearing, true) == (ranking[i].1.price >= clearing));
    }
}

/// What the winners among the first `n` served are allotted.
proof fn lemma_allotments_are_prefix<R: RenewalRightsProvider<AccountId>>(
    bids: Seq<Bid>,
    sale: SaleInfoRecordOf,
    seed: Seq<u8>,
    rights: R,
    n: nat,
)
    requires
        n <= bids.len(),
    ensures
        auction::allotments(
            auction::serving_order(bids, sale, seed),
            n,
            sale,
            auction::clearing_of(bids, sale),
            rights,
        ) == Seq::new(
            arithmetic::smaller(n as int, winner_count(bids, sale)) as nat,
            |i: int|
                auction::allotment(
                    auction::serving_order(bids, sale, seed),
                    i,
                    sale,
                    auction::clearing_of(bids, sale),
                    rights,
                ),
        ),
    decreases n,
{
    let order = auction::serving_order(bids, sale, seed);
    let clearing = auction::clearing_of(bids, sale);
    lemma_winners_come_first(bids, sale, seed);
    if n > 0 {
        lemma_allotments_are_prefix(bids, sale, seed, rights, (n - 1) as nat);
        assert(auction::wins(order, n - 1, sale.cores_offered, clearing) == (n - 1 < winner_count(
            bids,
            sale,
        )));
    }
    assert(auction::allotments(order, n, sale, clearing, rights) =~= Seq::new(
        arithmetic::smaller(n as int, winner_count(bids, sale)) as nat,
        |i: int| auction::allotment(order, i, sale, clearing, rights),
    ));
}

/// As many bids win as there are cores on offer, or, if fewer bids reach the
/// clearing price, all of those. The winners are the first that are served,
/// and the `i`-th of them is allotted the `i`-th core on offer.
pub proof fn law_winners_are_the_first_served<R: RenewalRightsProvider<AccountId>>(
    bids: Seq<Bid>,
    sale: SaleInfoRecordOf,
    seed: Seq<u8>,
    rights: R,
)
    ensures
        ({
            let order = auction::serving_order(bids, sale, seed);
            let clearing = auction::clearing_of(bids, sale);
            let allotments = auction::allotments(order, bids.len(), sale, clearing, rights);
            &&& allotments.len() == winner_count(bids, sale)
            &&& allotments.len() <= sale.cores_offered
            &&& allotments.len() <= bids.len()
            &&& forall|i: int|
                0 <= i < allotments.len() ==> #[trigger] allotments[i] == auction::allotment(
                    order,
                    i,
                    sale,
                    clearing,
                    rights,
                )
        }),
{
    lemma_winners_come_first(bids, sale, seed);
    lemma_allotments_are_prefix(bids, sale, seed, rights, bids.len());
}

/// Each bid above the clearing price wins, and none below it does: a bid that
/// loses is no higher than one that wins.
pub proof fn law_higher_bids_win(bids: Seq<Bid>, sale: SaleInfoRecordOf, seed: Seq<u8>, i: int)
    requires
        0 <= i < bids.len(),
    ensures
        ({
            let order = auction::serving_order(bids, sale, seed);
            let clearing = auction::clearing_of(bids, sale);
            &&& sale.cores_offered > 0 && order[i].1.price > clearing ==> auction::wins(
                order,
                i,
                sale.cores_offered,
                clearing,
            )
            &&& order[i].1.price < clearing ==> !auction::wins(
                order,
                i,
                sale.cores_offered,
                clearing,
            )
            &&& forall|j: int|
                0 <= j < bids.len() && auction::wins(order, i, sale.cores_offered, clearing)
                    && !#[trigger] auction::wins(order, j, sale.cores_offered, clearing)
                    ==> order[j].1.price <= order[i].1.price
        }),
{
    let ranking = auction::ranked(bids);
    let clearing = auction::clearing_of(bids, sale);
    let order = auction::serving_order(bids, sale, seed);
    lemma_serving_order(bids, sale, seed);
    lemma_winners_come_first(bids, sale, seed);
    law_clearing_price_is_the_marginal_bid(bids, sale);
    auction::lemma_reaching_is_prefix(ranking, clearing, false);
    lemma_count_ranked(bids, clearing, false);
    assert(order[i].1.price == ranking[i].1.price);
    if order[i].1.price > clearing {
        assert(auction::reaches(ranking[i], clearing, false));
        assert(i < auction::count_reaching(ranking, clearing, false));
    }
    assert(auction::wins(order, i, sale.cores_offered, clearing) == (i < winner_count(bids, sale)));
    assert forall|j: int|
        0 <= j < bids.len() && auction::wins(order, i, sale.cores_offered, clearing)
            && !#[trigger] auction::wins(
            order,
            j,
            sale.cores_offered,
            clearing,
        ) implies order[j].1.price <= order[i].1.price by {}
}

/// What all bids come to.
pub open spec fn total_bid(bids: Seq<Bid>) -> int
    decreases bids.len(),
{
    if bids.len() == 0 {
        0
    } else {
        total_bid(bids.drop_last()) + bids.last().1.price
    }
}

/// What the refunds among the actions come to.
pub open spec fn total_refund(actions: Seq<Action>) -> int
    decreases actions.len(),
{
    if actions.len() == 0 {
        0
    } else {
        total_refund(actions.drop_last()) + match actions.last() {
            TickAction::Refund { amount, who } => amount as int,
            _ => 0,
        }
    }
}

/// What is bid is what is refunded and what the winners pay.
proof fn lemma_funds<R: RenewalRightsProvider<AccountId>>(
    order: Seq<Bid>,
    n: nat,
    sale: SaleInfoRecordOf,
    clearing: Balance,
    rights: R,
)
    requires
        n <= order.len(),
    ensures
        total_bid(order.take(n as int)) == total_refund(
            auction::refunds(order, n, sale.cores_offered, clearing),
        ) + auction::allotments(order, n, sale, clearing, rights).len() * clearing,
    decreases n,
{
    if n > 0 {
        let m = (n - 1) as nat;
        lemma_funds(order, m, sale, clearing, rights);
        assert(order.take(n as int).drop_last() =~= order.take(m as int));
        let before = auction::refunds(order, m, sale.cores_offered, clearing);
        let amount = auction::refund_of(order, m as int, sale.cores_offered, clearing);
        let refund: Action = TickAction::Refund { amount: amount as u64, who: order[m as int].1.who };
        assert(before.push(refund).drop_last() =~= before);
        let w = auction::allotments(order, m, sale, clearing, rights).len() as int;
        assert((w + 1) * clearing == w * clearing + clearing) by (nonlinear_arith);
    } else {
        assert(order.take(0) =~= Seq::empty());
        assert(0 * clearing == 0) by (nonlinear_arith);
    }
}

/// The total does not depend on where in the ranking a bid stands.
proof fn lemma_total_ranked_with(bids: Seq<Bid>, bid: Bid)
    ensures
        total_bid(auction::ranked_with(bids, bid)) == total_bid(bids) + bid.1.price,
    decreases bids.len(),
{
    if bids.len() == 0 || bids.last().1.price >= bid.1.price {
        assert(bids.push(bid).drop_last() =~= bids);
    } else {
        let rest = bids.drop_last();
        lemma_total_ranked_with(rest, bid);
        let inner = auction::ranked_with(rest, bid);
        assert(inner.push(bids.last()).drop_last() =~= inner);
    }
}

/// The total of a ranking is that of the bids.
proof fn lemma_total_ranked(bids: Seq<Bid>)
    ensures
        total_bid(auction::ranked(bids)) == total_bid(bids),
    decreases bids.len(),
{
    if bids.len() > 0 {
        lemma_total_ranked(bids.drop_last());
        lemma_total_ranked_with(auction::ranked(bids.drop_last()), bids.last());
    }
}

/// The total depends on the prices alone.
proof fn lemma_total_of_prices(a: Seq<Bid>, b: Seq<Bid>)
    requires
        auction::same_prices(a, b),
    ensures
        total_bid(a) == total_bid(b),
    decreases a.len(),
{
    if a.len() > 0 {
        assert(a.last().1.price == b.last().1.price);
        assert forall|i: int| 0 <= i < a.drop_last().len() implies (
        #[trigger] a.drop_last()[i]).1.price == b.drop_last()[i].1.price by {
            assert(a[i].1.price == b[i].1.price);
        }
        lemma_total_of_prices(a.drop_last(), b.drop_last());
    }
}

/// No funds are lost and none are made: what was locked for the bids is what
/// is refunded and the clearing price for each winner.
pub proof fn law_funds_are_conserved<R: RenewalRightsProvider<AccountId>>(
    bids: Seq<Bid>,
    sale: SaleInfoRecordOf,
    seed: Seq<u8>,
    rights: R,
)
    ensures
        ({
            let order = auction::serving_order(bids, sale, seed);
            let clearing = auction::clearing_of(bids, sale);
            total_bid(bids) == total_refund(
                auction::refunds(order, bids.len(), sale.cores_offered, clearing),
            ) + auction::allotments(order, bids.len(), sale, clearing, rights).len() * clearing
        }),
{
    let order = auction::serving_order(bids, sale, seed);
    lemma_serving_order(bids, sale, seed);
    lemma_funds(order, bids.len(), sale, auction::clearing_of(bids, sale), rights);
    assert(order.take(bids.len() as int) =~= order);
    lemma_total_of_prices(order, auction::ranked(bids));
    lemma_total_ranked(bids);
}

/// All winners pay the clearing price, which is no more than any of them bid.
pub proof fn law_winners_pay_one_price<R: RenewalRightsProvider<AccountId>>(
    bids: Seq<Bid>,
    sale: SaleInfoRecordOf,
    seed: Seq<u8>,
    rights: R,
)
    ensures
        ({
            let order = auction::serving_order(bids, sale, seed);
            let clearing = auction::clearing_of(bids, sale);
            let allotments = auction::allotments(order, bids.len(), sale, clearing, rights);
            forall|i: int|
                0 <= i < allotments.len() ==> {
                    &&& (#[trigger] allotments[i]).clearing_price == clearing
                    &&& allotments[i].bid_price >= clearing
                    &&& clearing >= sale.reserve_price
                }
        }),
{
    let order = auction::serving_order(bids, sale, seed);
    let clearing = auction::clearing_of(bids, sale);
    law_winners_are_the_first_served(bids, sale, seed, rights);
    lemma_winners_come_first(bids, sale, seed);
    let allotments = auction::allotments(order, bids.len(), sale, clearing, rights);
    assert forall|i: int| 0 <= i < allotments.len() implies {
        &&& (#[trigger] allotments[i]).clearing_price == clearing
        &&& allotments[i].bid_price >= clearing
        &&& clearing >= sale.reserve_price
    } by {
        assert(auction::wins(order, i, sale.cores_offered, clearing));
    }
}

/// Where all cores on offer have an index, no core is allotted twice.
pub proof fn law_winners_get_cores_of_their_own<R: RenewalRightsProvider<AccountId>>(
    bids: Seq<Bid>,
    sale: SaleInfoRecordOf,
    seed: Seq<u8>,
    rights: R,
)
    requires
        sale.first_core + sale.cores_offered <= u16::MAX,
    ensures
        ({
            let order = auction::serving_order(bids, sale, seed);
            let clearing = auction::clearing_of(bids, sale);
            let allotments = auction::allotments(order, bids.len(), sale, clearing, rights);
            forall|i: int|
                0 <= i < allotments.len() ==> (#[trigger] allotments[i]).core == sale.first_core + i
        }),
{
    law_winners_are_the_first_served(bids, sale, seed, rights);
}

/// Bids are served from the highest to the lowest.
pub proof fn law_higher_bids_are_served_first(
    bids: Seq<Bid>,
    sale: SaleInfoRecordOf,
    seed: Seq<u8>,
    i: int,
    j: int,
)
    requires
        0 <= i <= j < bids.len(),
    ensures
        auction::serving_order(bids, sale, seed).len() == bids.len(),
        auction::serving_order(bids, sale, seed)[i].1.price >= auction::serving_order(
            bids,
            sale,
            seed,
        )[j].1.price,
{
    lemma_serving_order(bids, sale, seed);
}

// Ties.

/// The number that four bytes stand for, the least significant first.
pub open spec fn number_at(seed: Seq<u8>, place: int) -> int {
    seed[place] + 256 * (seed[place + 1] + 256 * (seed[place + 2] + 256 * seed[place + 3]))
}

/// One step of the shuffle: the bid in the last of `i + 1` places is exchanged
/// with that in a place that the seed draws from all of them, and is not moved
/// again. The number is taken from four bytes of the seed, four bytes farther
/// on for each place more; behind the last four bytes they are counted from the
/// first again.
pub proof fn law_the_last_place_is_drawn(bids: Seq<Bid>, start: int, i: int, seed: Seq<u8>)
    requires
        seed.len() > 3,
        0 <= start,
        1 <= i,
        start + i < bids.len(),
    ensures
        ({
            let drawn = start + number_at(seed, (4 * (i - 1)) % (seed.len() - 3)) % (i + 1);
            let out = auction::shuffled_from(bids, start, i, seed);
            let next = Seq::new(
                bids.len(),
                |k: int|
                    if k == start + i {
                        bids[drawn]
                    } else if k == drawn {
                        bids[start + i]
                    } else {
                        bids[k]
                    },
            );
            &&& start <= drawn <= start + i
            &&& out[start + i] == bids[drawn]
            &&& out == auction::shuffled_from(next, start, i - 1, seed)
            &&& auction::shuffled_from(bids, start, 0, seed) == bids
        }),
{
    let place = (4 * (i - 1)) % (seed.len() - 3);
    assert(place == ((i - 1) * 4) % (seed.len() - 3));
    assert(auction::draw(seed, i) == number_at(seed, place));
    let drawn = start + number_at(seed, place) % (i + 1);
    assert(0 <= number_at(seed, place) % (i + 1) < i + 1) by (nonlinear_arith)
        requires
            i >= 1,
    ;
    let next = Seq::new(
        bids.len(),
        |k: int|
            if k == start + i {
                bids[drawn]
            } else if k == drawn {
                bids[start + i]
            } else {
                bids[k]
            },
    );
    assert(next =~= auction::exchanged(bids, start + i, drawn));
    lemma_later_steps_keep_the_place(next, start, i - 1, seed, start + i);
}

/// The steps of a shuffle move nothing behind the places that they are for.
proof fn lemma_later_steps_keep_the_place(
    bids: Seq<Bid>,
    start: int,
    i: int,
    seed: Seq<u8>,
    place: int,
)
    requires
        0 <= start,
        0 <= i,
        start + i < place < bids.len(),
    ensures
        auction::shuffled_from(bids, start, i, seed)[place] == bids[place],
    decreases i,
{
    if i > 0 {
        let j = auction::draw(seed, i) % (i + 1);
        assert(0 <= j < i + 1) by (nonlinear_arith)
            requires
                j == auction::draw(seed, i) % (i + 1),
                i > 0,
        ;
        lemma_later_steps_keep_the_place(
            auction::exchanged(bids, start + i, start + j),
            start,
            i - 1,
            seed,
            place,
        );
    }
}

/// Whether the bids from `start` on, `n` of them, are those at a price, with
/// the higher ones before them and the lower ones behind.
pub open spec fn ties_at(ranking: Seq<Bid>, price: Balance, start: int, n: int) -> bool {
    &&& 0 <= start
    &&& 0 <= n
    &&& start + n <= ranking.len()
    &&& forall|k: int| 0 <= k < start ==> (#[trigger] ranking[k]).1.price > price
    &&& forall|k: int| start <= k < start + n ==> (#[trigger] ranking[k]).1.price == price
    &&& forall|k: int| start + n <= k < ranking.len() ==> (#[trigger] ranking[k]).1.price < price
}

/// Of a ranking just the bids at the clearing price are shuffled, and all of
/// them, unless there is one at most or the seed is too short.
pub proof fn law_all_ties_are_shuffled(
    ranking: Seq<Bid>,
    price: Balance,
    start: int,
    n: int,
    seed: Seq<u8>,
)
    requires
        ties_at(ranking, price, start, n),
    ensures
        auction::shuffled(ranking, price, seed) == (if n <= 1 || seed.len() <= 3 {
            ranking
        } else {
            auction::shuffled_from(ranking, start, n - 1, seed)
        }),
{
    auction::lemma_reaching_prefix(ranking, price, false, start);
    auction::lemma_reaching_prefix(ranking, price, true, start + n);
}

/// The steps of a shuffle with given draws, `draws[k - 1]` for step `k`.
spec fn shuffled_by(bids: Seq<Bid>, start: int, i: int, draws: Seq<int>) -> Seq<Bid>
    decreases i,
{
    if i <= 0 {
        bids
    } else {
        shuffled_by(
            auction::exchanged(bids, start + i, start + draws[i - 1]),
            start,
            i - 1,
            draws,
        )
    }
}

/// Draws that differ behind the steps that they are for make no difference.
proof fn lemma_shuffled_by_prefix(bids: Seq<Bid>, start: int, i: int, a: Seq<int>, b: Seq<int>)
    requires
        forall|k: int| 0 <= k < i ==> a[k] == b[k],
    ensures
        shuffled_by(bids, start, i, a) == shuffled_by(bids, start, i, b),
    decreases i,
{
    if i > 0 {
        lemma_shuffled_by_prefix(
            auction::exchanged(bids, start + i, start + a[i - 1]),
            start,
            i - 1,
            a,
            b,
        );
    }
}

/// Whether draws are in the ranges that a shuffle draws from.
spec fn in_range(draws: Seq<int>) -> bool {
    forall|k: int| 0 <= k < draws.len() ==> 0 <= (#[trigger] draws[k]) <= k + 1
}

/// Some draws lead from one order of the bids to another.
proof fn lemma_some_draws_lead_to(bids: Seq<Bid>, target: Seq<Bid>, start: int, i: int) -> (draws:
    Seq<int>)
    requires
        0 <= start,
        0 <= i,
        start + i < bids.len(),
        target.len() == bids.len(),
        forall|k: int|
            0 <= k < bids.len() && !(start <= k <= start + i) ==> (#[trigger] target[k]) == bids[k],
        target.subrange(start, start + i + 1).to_multiset() == bids.subrange(
            start,
            start + i + 1,
        ).to_multiset(),
    ensures
        draws.len() == i,
        in_range(draws),
        shuffled_by(bids, start, i, draws) == target,
    decreases i,
{
    let a = bids.subrange(start, start + i + 1);
    let b = target.subrange(start, start + i + 1);
    a.to_multiset_ensures();
    b.to_multiset_ensures();
    assert(b.contains(b[i]));
    assert(b.to_multiset().count(b[i]) > 0);
    assert(a.to_multiset().count(b[i]) > 0);
    assert(a.contains(b[i]));
    let p = choose|p: int| 0 <= p < a.len() && a[p] == b[i];
    if i == 0 {
        assert(bids[start] == a[0] && target[start] == b[0]);
        assert(target =~= bids);
        Seq::empty()
    } else {
        let next = auction::exchanged(bids, start + i, start + p);
        let c = next.subrange(start, start + i);
        let d = target.subrange(start, start + i);
        assert(bids[start + p] == a[p] && target[start + i] == b[i]);
        assert(next.subrange(start, start + i + 1) =~= auction::exchanged(a, i, p));
        auction::lemma_exchange_keeps_bids(a, i, p);
        let e = auction::exchanged(a, i, p);
        e.to_multiset_ensures();
        assert(e[i] == b[i]);
        assert(c =~= e.remove(i));
        assert(d =~= b.remove(i));
        assert(c.to_multiset() =~= d.to_multiset());
        assert(next.subrange(start, start + (i - 1) + 1) =~= c);
        assert(target.subrange(start, start + (i - 1) + 1) =~= d);
        let rest = lemma_some_draws_lead_to(next, target, start, i - 1);
        let draws = rest.push(p);
        lemma_shuffled_by_prefix(next, start, i - 1, rest, draws);
        assert(in_range(draws));
        draws
    }
}

/// The bytes of a seed that draws given numbers.
spec fn seed_of(draws: Seq<int>) -> Seq<u8> {
    Seq::new(
        4 * draws.len(),
        |k: int|
            if k % 4 == 0 {
                (draws[k / 4] % 256) as u8
            } else if k % 4 == 1 {
                (draws[k / 4] / 256 % 256) as u8
            } else if k % 4 == 2 {
                (draws[k / 4] / 65536 % 256) as u8
            } else {
                (draws[k / 4] / 16777216 % 256) as u8
            },
    )
}

/// A seed made of numbers draws them.
proof fn lemma_seed_draws(draws: Seq<int>, i: int)
    requires
        1 <= i <= draws.len(),
        0 <= draws[i - 1] <= u32::MAX,
    ensures
        auction::draw(seed_of(draws), i) == draws[i - 1],
{
    let seed = seed_of(draws);
    let place = (i - 1) * 4;
    assert(seed.len() == 4 * draws.len());
    assert(place % (seed.len() - 3) == place) by (nonlinear_arith)
        requires
            0 <= place < seed.len() - 3,
    ;
    let x = draws[i - 1];
    assert(place % 4 == 0 && place / 4 == i - 1);
    assert((place + 1) % 4 == 1 && (place + 1) / 4 == i - 1);
    assert((place + 2) % 4 == 2 && (place + 2) / 4 == i - 1);
    assert((place + 3) % 4 == 3 && (place + 3) / 4 == i - 1);
    assert(seed[place] == (x % 256) as u8);
    assert(seed[place + 1] == (x / 256 % 256) as u8);
    assert(seed[place + 2] == (x / 65536 % 256) as u8);
    assert(seed[place + 3] == (x / 16777216 % 256) as u8);
}

/// A seed made of numbers leads where they lead.
proof fn lemma_seed_leads_to(bids: Seq<Bid>, start: int, i: int, draws: Seq<int>)
    requires
        0 <= i <= draws.len(),
        draws.len() <= u32::MAX,
        in_range(draws),
    ensures
        auction::shuffled_from(bids, start, i, seed_of(draws)) == shuffled_by(
            bids,
            start,
            i,
            draws,
        ),
    decreases i,
{
    if i > 0 {
        let x = draws[i - 1];
        lemma_seed_draws(draws, i);
        assert(x % (i + 1) == x) by (nonlinear_arith)
            requires
                0 <= x < i + 1,
        ;
        lemma_seed_leads_to(
            auction::exchanged(bids, start + i, start + x),
            start,
            i - 1,
            draws,
        );
    }
}

/// No order of the bids at the clearing price is left out: for each of them
/// there is a seed that puts the bids into it.
pub proof fn law_every_order_of_ties_can_come_out(
    ranking: Seq<Bid>,
    price: Balance,
    start: int,
    n: int,
    target: Seq<Bid>,
)
    requires
        ties_at(ranking, price, start, n),
        2 <= n <= u32::MAX,
        target.len() == ranking.len(),
        forall|k: int|
            0 <= k < ranking.len() && !(start <= k < start + n) ==> (#[trigger] target[k])
                == ranking[k],
        target.subrange(start, start + n).to_multiset() == ranking.subrange(
            start,
            start + n,
        ).to_multiset(),
    ensures
        exists|seed: Seq<u8>| #[trigger] auction::shuffled(ranking, price, seed) == target,
{
    let draws = lemma_some_draws_lead_to(ranking, target, start, n - 1);
    lemma_seed_leads_to(ranking, start, n - 1, draws);
    law_all_ties_are_shuffled(ranking, price, start, n, seed_of(draws));
    assert(auction::shuffled(ranking, price, seed_of(draws)) == target);
}

// The record of the winners.

/// Of the allotments as many are kept as there may be bids, the first of them,
/// and all accounts that won are remembered.
pub proof fn law_the_first_winners_are_kept(allocations: Seq<Allocation>, limit: u32)
    ensures
        ({
            let kept = auction::kept(allocations, limit as int);
            let holders = auction::holders(allocations);
            &&& kept.len() == (if allocations.len() < limit {
                allocations.len() as int
            } else {
                limit as int
            })
            &&& forall|i: int| 0 <= i < kept.len() ==> (#[trigger] kept[i]) == allocations[i]
            &&& holders.len() == allocations.len()
            &&& forall|i: int|
                0 <= i < holders.len() ==> (#[trigger] holders[i]) == allocations[i].who
        }),
{
}

/// Those that win are the first that are served, as many as there are winners.
pub proof fn law_the_first_served_win(
    bids: Seq<Bid>,
    sale: SaleInfoRecordOf,
    seed: Seq<u8>,
    i: int,
)
    requires
        0 <= i < bids.len(),
    ensures
        auction::wins(
            auction::serving_order(bids, sale, seed),
            i,
            sale.cores_offered,
            auction::clearing_of(bids, sale),
        ) == (i < winner_count(bids, sale)),
{
    lemma_winners_come_first(bids, sale, seed);
}

/// Whether no bid has a key that comes before that of an equal bid before it.
pub open spec fn ties_in_key_order(bids: Seq<Bid>) -> bool {
    forall|i: int, j: int|
        0 <= i < j < bids.len() && (#[trigger] bids[i]).1.price == (#[trigger] bids[j]).1.price
            ==> !storage::precedes(storage::key_of(bids[j].0), storage::key_of(bids[i].0))
}

/// Putting a bid behind all that are no lower keeps ties in the order of their
/// keys, where its key does not come before any of theirs.
proof fn lemma_ranked_with_keeps_key_order(bids: Seq<Bid>, bid: Bid)
    requires
        auction::descending(bids),
        ties_in_key_order(bids),
        forall|i: int|
            0 <= i < bids.len() ==> !storage::precedes(
                storage::key_of(bid.0),
                storage::key_of((#[trigger] bids[i]).0),
            ),
    ensures
        ties_in_key_order(auction::ranked_with(bids, bid)),
        forall|i: int|
            0 <= i < auction::ranked_with(bids, bid).len() ==> (#[trigger] auction::ranked_with(
                bids,
                bid,
            )[i]) == bid || bids.contains(auction::ranked_with(bids, bid)[i]),
    decreases bids.len(),
{
    let out = auction::ranked_with(bids, bid);
    if bids.len() == 0 || bids.last().1.price >= bid.1.price {
        assert forall|i: int| 0 <= i < out.len() implies (#[trigger] out[i]) == bid
            || bids.contains(out[i]) by {
            if i < bids.len() {
                assert(bids[i] == out[i]);
            }
        }
    } else {
        let rest = bids.drop_last();
        let last = bids.last();
        assert(forall|i: int| 0 <= i < rest.len() ==> (#[trigger] rest[i]) == bids[i]);
        lemma_ranked_with_keeps_key_order(rest, bid);
        let inner = auction::ranked_with(rest, bid);
        assert forall|i: int| 0 <= i < out.len() implies (#[trigger] out[i]) == bid
            || bids.contains(out[i]) by {
            if i < inner.len() {
                assert(inner[i] == out[i]);
                if inner[i] != bid {
                    let k = choose|k: int| 0 <= k < rest.len() && rest[k] == inner[i];
                    assert(bids[k] == out[i]);
                }
            } else {
                assert(bids[bids.len() - 1] == out[i]);
            }
        }
        assert forall|i: int, j: int|
            0 <= i < j < out.len() && (#[trigger] out[i]).1.price == (
            #[trigger] out[j]).1.price implies !storage::precedes(
            storage::key_of(out[j].0),
            storage::key_of(out[i].0),
        ) by {
            assert(inner[i] == out[i]);
            if j < inner.len() {
                assert(inner[j] == out[j]);
            } else {
                assert(out[j] == last);
                let k = choose|k: int| 0 <= k < rest.len() && rest[k] == inner[i];
                assert(bids[k] == inner[i] && bids[bids.len() - 1] == last);
            }
        }
    }
}

/// Equal bids are ranked in the order of their keys, where they are walked in it.
pub proof fn law_ties_are_ranked_by_key(bids: Seq<Bid>)
    ensures
        storage::in_key_order(bids) ==> ties_in_key_order(auction::ranked(bids)),
    decreases bids.len(),
{
    if bids.len() > 0 && storage::in_key_order(bids) {
        let rest = bids.drop_last();
        let last = bids.len() - 1;
        assert(forall|i: int| 0 <= i < rest.len() ==> (#[trigger] rest[i]) == bids[i]);
        assert(storage::in_key_order(rest)) by {
            assert forall|i: int, j: int| 0 <= i < j < rest.len() implies !storage::precedes(
                storage::key_of((#[trigger] rest[j]).0),
                storage::key_of((#[trigger] rest[i]).0),
            ) by {
                assert(rest[i] == bids[i] && rest[j] == bids[j]);
            }
        }
        law_ties_are_ranked_by_key(rest);
        auction::law_ranking_is_a_sort(rest);
        let ranking = auction::ranked(rest);
        ranking.to_multiset_ensures();
        rest.to_multiset_ensures();
        assert forall|i: int| 0 <= i < ranking.len() implies !storage::precedes(
            storage::key_of(bids.last().0),
            storage::key_of((#[trigger] ranking[i]).0),
        ) by {
            assert(ranking.contains(ranking[i]));
            assert(ranking.to_multiset().count(ranking[i]) > 0);
            assert(rest.to_multiset().count(ranking[i]) > 0);
            assert(rest.contains(ranking[i]));
            let k = choose|k: int| 0 <= k < rest.len() && rest[k] == ranking[i];
            assert(bids[k] == ranking[i] && bids[last] == bids.last());
        }
        lemma_ranked_with_keeps_key_order(ranking, bids.last());
    }
}

} // verus!

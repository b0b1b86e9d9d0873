//! The order in which the bids that are kept in storage are walked.
//!
//! Bids are kept in a map from identities to bids. A map is walked in the
//! lexicographical order of its keys, and the key of an entry is the hash of
//! the encoded identity with the encoded identity behind it.

use crate::auction::Bid;
use crate::records::BidId;
use frame_support::StorageHasher;
use vstd::prelude::*;

verus! {

/// The 128-bit Blake2 hash of some bytes.
pub uninterp spec fn blake2_128(data: Seq<u8>) -> Seq<u8>;

/// The hash of some bytes, and behind it the bytes themselves.
///
/// Calls `hash` of `frame_support::Blake2_128Concat`, which puts the sixteen
/// bytes of the hash before the data. What the hash is, is not said here; it
/// is a function of the data alone.
#[verifier::external_body]
fn blake2_128_concat(data: &[u8]) -> (r: Vec<u8>)
    ensures
        r@ == blake2_128(data@) + data@,
        r@.len() == 16 + data@.len(),
{
    frame_support::Blake2_128Concat::hash(data)
}

/// An identity in four bytes, the least significant first.
pub open spec fn encoded(id: BidId) -> Seq<u8> {
    seq![
        (id % 0x100) as u8,
        (id / 0x100 % 0x100) as u8,
        (id / 0x1_0000 % 0x100) as u8,
        (id / 0x100_0000) as u8,
    ]
}

/// The key of the bid with an identity.
pub open spec fn key_of(id: BidId) -> Seq<u8> {
    blake2_128(encoded(id)) + encoded(id)
}

/// The key of the bid with an identity.
pub fn storage_key(id: BidId) -> (r: Vec<u8>)
    ensures
        r@ == key_of(id),
{
    let mut data: Vec<u8> = Vec::new();
    data.push((id % 0x100) as u8);
    data.push((id / 0x100 % 0x100) as u8);
    data.push((id / 0x1_0000 % 0x100) as u8);
    data.push((id / 0x100_0000) as u8);
    assert(data@ =~= encoded(id));
    blake2_128_concat(&data)
}

/// Whether two keys are the same up to `n`, where the first ends or has the smaller byte.
pub open spec fn precedes_at(a: Seq<u8>, b: Seq<u8>, n: int) -> bool {
    &&& 0 <= n <= a.len()
    &&& n < b.len()
    &&& forall|k: int| 0 <= k < n ==> (#[trigger] a[k]) == b[k]
    &&& n == a.len() || a[n] < b[n]
}

/// Whether a key comes before another in lexicographical order.
pub open spec fn precedes(a: Seq<u8>, b: Seq<u8>) -> bool {
    exists|n: int| precedes_at(a, b, n)
}

/// Whether a key comes before another in lexicographical order.
pub fn comes_before(a: &Vec<u8>, b: &Vec<u8>) -> (r: bool)
    ensures
        r == precedes(a@, b@),
{
    let mut i: usize = 0;
    while i < a.len() && i < b.len() && a[i] == b[i]
        invariant
            i <= a.len(),
            i <= b.len(),
            forall|k: int| 0 <= k < i ==> (#[trigger] a@[k]) == b@[k],
        decreases a.len() - i,
    {
        i += 1;
    }
    let r = i < b.len() && (i == a.len() || a[i] < b[i]);
    proof {
        if r {
            assert(precedes_at(a@, b@, i as int));
        } else if precedes(a@, b@) {
            let n = choose|n: int| precedes_at(a@, b@, n);
            if n < i {
                assert(a@[n] == b@[n]);
            } else if n > i {
                assert(a@[i as int] == b@[i as int]);
            }
        }
    }
    r
}

/// Of two different keys one comes before the other.
proof fn lemma_keys_are_ordered(a: Seq<u8>, b: Seq<u8>)
    ensures
        a == b || precedes(a, b) || precedes(b, a),
{
    let n = first_difference(a, b, 0);
    lemma_first_difference(a, b, 0);
    if n < a.len() && n < b.len() {
        if a[n] < b[n] {
            assert(precedes_at(a, b, n));
        } else {
            assert(precedes_at(b, a, n));
        }
    } else if n < b.len() {
        assert(precedes_at(a, b, n));
    } else if n < a.len() {
        assert(precedes_at(b, a, n));
    } else {
        assert(a =~= b);
    }
}

/// The first place from `i` on where two keys differ or one of them ends.
spec fn first_difference(a: Seq<u8>, b: Seq<u8>, i: int) -> int
    decreases a.len() - i,
{
    if i >= a.len() || i >= b.len() || a[i] != b[i] {
        i
    } else {
        first_difference(a, b, i + 1)
    }
}

/// Two keys are the same up to the first place where they differ.
proof fn lemma_first_difference(a: Seq<u8>, b: Seq<u8>, i: int)
    requires
        0 <= i <= a.len(),
        i <= b.len(),
        forall|k: int| 0 <= k < i ==> (#[trigger] a[k]) == b[k],
    ensures
        ({
            let n = first_difference(a, b, i);
            &&& i <= n <= a.len()
            &&& n <= b.len()
            &&& forall|k: int| 0 <= k < n ==> (#[trigger] a[k]) == b[k]
            &&& n < a.len() && n < b.len() ==> a[n] != b[n]
        }),
    decreases a.len() - i,
{
    if i < a.len() && i < b.len() && a[i] == b[i] {
        lemma_first_difference(a, b, i + 1);
    }
}

/// What comes before what comes before a key comes before that key.
proof fn lemma_precedes_is_transitive(a: Seq<u8>, b: Seq<u8>, c: Seq<u8>)
    requires
        precedes(a, b),
        precedes(b, c),
    ensures
        precedes(a, c),
{
    let m = choose|m: int| precedes_at(a, b, m);
    let n = choose|n: int| precedes_at(b, c, n);
    let k = if m <= n {
        m
    } else {
        n
    };
    assert forall|j: int| 0 <= j < k implies (#[trigger] a[j]) == c[j] by {
        assert(b[j] == c[j]);
    }
    if m < n {
        assert(b[m] == c[m]);
    } else if n < m {
        assert(a[n] == b[n]);
    }
    assert(precedes_at(a, c, k));
}

/// No key comes before itself, nor before one that comes before it.
proof fn lemma_precedes_is_strict(a: Seq<u8>, b: Seq<u8>)
    requires
        precedes(a, b),
    ensures
        !precedes(b, a),
        a != b,
{
    if precedes(b, a) || a == b {
        let m = choose|m: int| precedes_at(a, b, m);
        if precedes(b, a) {
            let n = choose|n: int| precedes_at(b, a, n);
            if m < n {
                assert(b[m] == a[m]);
            } else if n < m {
                assert(a[n] == b[n]);
            }
        }
        assert(false);
    }
}

/// Each identity has a key of its own.
pub proof fn law_keys_differ(a: BidId, b: BidId)
    ensures
        key_of(a) == key_of(b) ==> a == b,
{
    if key_of(a) == key_of(b) {
        let x = encoded(a);
        let y = encoded(b);
        let n = blake2_128(x).len() as int;
        assert(n == blake2_128(y).len()) by {
            assert(key_of(a).len() == n + 4);
            assert(key_of(b).len() == blake2_128(y).len() + 4);
        }
        assert forall|i: int| 0 <= i < 4 implies x[i] == y[i] by {
            assert(key_of(a)[n + i] == x[i]);
            assert(key_of(b)[n + i] == y[i]);
        }
        assert(x[0] == y[0] && x[1] == y[1] && x[2] == y[2] && x[3] == y[3]);
    }
}

/// `bids` with `bid` put before all whose keys come behind its own.
pub open spec fn walked_with(bids: Seq<Bid>, bid: Bid) -> Seq<Bid>
    decreases bids.len(),
{
    if bids.len() == 0 || !precedes(key_of(bid.0), key_of(bids.last().0)) {
        bids.push(bid)
    } else {
        walked_with(bids.drop_last(), bid).push(bids.last())
    }
}

/// The bids in the order of their keys.
pub open spec fn walked(bids: Seq<Bid>) -> Seq<Bid>
    decreases bids.len(),
{
    if bids.len() == 0 {
        bids
    } else {
        walked_with(walked(bids.drop_last()), bids.last())
    }
}

/// Whether no bid has a key that comes before that of one before it.
pub open spec fn in_key_order(bids: Seq<Bid>) -> bool {
    forall|i: int, j: int|
        0 <= i < j < bids.len() ==> !precedes(
            key_of((#[trigger] bids[j]).0),
            key_of((#[trigger] bids[i]).0),
        )
}

/// Putting a bid in its place keeps the order, and what bids there are.
proof fn lemma_walked_with(bids: Seq<Bid>, bid: Bid)
    requires
        in_key_order(bids),
    ensures
        in_key_order(walked_with(bids, bid)),
        walked_with(bids, bid).len() == bids.len() + 1,
        walked_with(bids, bid).to_multiset() == bids.push(bid).to_multiset(),
        forall|i: int|
            0 <= i < walked_with(bids, bid).len() ==> (#[trigger] walked_with(bids, bid)[i]) == bid
                || bids.contains(walked_with(bids, bid)[i]),
    decreases bids.len(),
{
    broadcast use vstd::seq_lib::group_to_multiset_ensures;

    let r = walked_with(bids, bid);
    let key = key_of(bid.0);
    if bids.len() == 0 || !precedes(key, key_of(bids.last().0)) {
        assert forall|i: int, j: int| 0 <= i < j < r.len() implies !precedes(
            key_of((#[trigger] r[j]).0),
            key_of((#[trigger] r[i]).0),
        ) by {
            if j == bids.len() && precedes(key, key_of(bids[i].0)) {
                let last = bids.len() - 1;
                lemma_keys_are_ordered(key_of(bids[i].0), key_of(bids[last].0));
                if i < last {
                    assert(!precedes(key_of(bids[last].0), key_of(bids[i].0)));
                    if precedes(key_of(bids[i].0), key_of(bids[last].0)) {
                        lemma_precedes_is_transitive(
                            key,
                            key_of(bids[i].0),
                            key_of(bids[last].0),
                        );
                    }
                }
            }
        }
        assert forall|i: int| 0 <= i < r.len() implies (#[trigger] r[i]) == bid || bids.contains(
            r[i],
        ) by {
            if i < bids.len() {
                assert(bids[i] == r[i]);
            }
        }
    } else {
        let rest = bids.drop_last();
        let last = bids.last();
        lemma_walked_with(rest, bid);
        let inner = walked_with(rest, bid);
        assert(rest.push(last) =~= bids);
        assert(r.to_multiset() =~= bids.push(bid).to_multiset());
        assert forall|i: int| 0 <= i < r.len() implies (#[trigger] r[i]) == bid || bids.contains(
            r[i],
        ) by {
            if i < inner.len() {
                if inner[i] != bid {
                    let k = choose|k: int| 0 <= k < rest.len() && rest[k] == inner[i];
                    assert(bids[k] == r[i]);
                }
            } else {
                assert(bids[bids.len() - 1] == r[i]);
            }
        }
        assert forall|i: int, j: int| 0 <= i < j < r.len() implies !precedes(
            key_of((#[trigger] r[j]).0),
            key_of((#[trigger] r[i]).0),
        ) by {
            if j == inner.len() {
                if inner[i] == bid {
                    lemma_precedes_is_strict(key, key_of(last.0));
                } else {
                    let k = choose|k: int| 0 <= k < rest.len() && rest[k] == inner[i];
                    assert(bids[k] == inner[i] && bids[bids.len() - 1] == last);
                }
            } else {
                assert(inner[j] == r[j] && inner[i] == r[i]);
            }
        }
    }
}

/// A walk meets each bid that is kept, as often as it is kept, in the order of the keys.
pub proof fn law_walk_meets_every_bid(bids: Seq<Bid>)
    ensures
        in_key_order(walked(bids)),
        walked(bids).to_multiset() == bids.to_multiset(),
        walked(bids).len() == bids.len(),
    decreases bids.len(),
{
    broadcast use vstd::seq_lib::group_to_multiset_ensures;

    if bids.len() > 0 {
        law_walk_meets_every_bid(bids.drop_last());
        lemma_walked_with(walked(bids.drop_last()), bids.last());
        assert(bids.drop_last().push(bids.last()) =~= bids);
    }
}

/// Whether no two bids have one identity.
pub open spec fn distinct(bids: Seq<Bid>) -> bool {
    forall|i: int, j: int|
        0 <= i < j < bids.len() ==> (#[trigger] bids[i]).0 != (#[trigger] bids[j]).0
}

/// Bids with distinct identities are in the order of their keys in one way only.
proof fn lemma_key_order_is_unique(s: Seq<Bid>, t: Seq<Bid>)
    requires
        in_key_order(s),
        in_key_order(t),
        s.to_multiset() == t.to_multiset(),
        distinct(s),
    ensures
        s == t,
    decreases s.len(),
{
    s.to_multiset_ensures();
    t.to_multiset_ensures();
    if s.len() == 0 {
        assert(s =~= t);
    } else {
        let n = s.len() - 1;
        assert(s.to_multiset().count(s[n]) > 0 && t.to_multiset().count(t[n]) > 0) by {
            assert(s.contains(s[n]) && t.contains(t[n]));
        }
        assert(t.contains(s[n]) && s.contains(t[n]));
        let i = choose|i: int| 0 <= i < s.len() && s[i] == t[n];
        let j = choose|j: int| 0 <= j < t.len() && t[j] == s[n];
        if i < n {
            assert(s[i].0 != s[n].0);
            assert(!precedes(key_of(s[n].0), key_of(s[i].0)));
            assert(j < n);
            assert(!precedes(key_of(t[n].0), key_of(t[j].0)));
            lemma_keys_are_ordered(key_of(s[n].0), key_of(t[n].0));
            law_keys_differ(s[n].0, t[n].0);
        }
        assert(s[n] == t[n]);
        assert(s.drop_last() =~= s.remove(n));
        assert(t.drop_last() =~= t.remove(n));
        lemma_key_order_is_unique(s.drop_last(), t.drop_last());
        assert(s =~= s.drop_last().push(s[n]));
        assert(t =~= t.drop_last().push(t[n]));
    }
}

/// Bids that are the same but for their order have the same identities.
proof fn lemma_distinct_of_permutation(s: Seq<Bid>, t: Seq<Bid>)
    requires
        distinct(s),
        s.to_multiset() == t.to_multiset(),
    ensures
        distinct(t),
{
    s.to_multiset_ensures();
    t.to_multiset_ensures();
    assert(s.no_duplicates());
    s.lemma_multiset_has_no_duplicates();
    t.lemma_multiset_has_no_duplicates_conv();
    assert forall|i: int, j: int| 0 <= i < j < t.len() implies (#[trigger] t[i]).0 != (
    #[trigger] t[j]).0 by {
        assert(t.contains(t[i]) && t.contains(t[j]));
        assert(t.to_multiset().count(t[i]) > 0 && t.to_multiset().count(t[j]) > 0);
        assert(s.contains(t[i]) && s.contains(t[j]));
        let a = choose|a: int| 0 <= a < s.len() && s[a] == t[i];
        let b = choose|b: int| 0 <= b < s.len() && s[b] == t[j];
        assert(t[i] != t[j]);
        if a < b {
            assert(s[a].0 != s[b].0);
        } else {
            assert(s[b].0 != s[a].0);
        }
    }
}

/// A walk does not depend on the order in which the bids were placed.
pub proof fn law_walk_forgets_placement(bids: Seq<Bid>, others: Seq<Bid>)
    requires
        distinct(bids),
        bids.to_multiset() == others.to_multiset(),
    ensures
        walked(bids) == walked(others),
{
    law_walk_meets_every_bid(bids);
    law_walk_meets_every_bid(others);
    lemma_distinct_of_permutation(bids, walked(bids));
    lemma_key_order_is_unique(walked(bids), walked(others));
}

/// Where in a walk a bid is met.
proof fn lemma_walked_with_is_insert(bids: Seq<Bid>, bid: Bid, pos: int)
    requires
        0 <= pos <= bids.len(),
        pos > 0 ==> !precedes(key_of(bid.0), key_of(bids[pos - 1].0)),
        forall|i: int|
            pos <= i < bids.len() ==> precedes(key_of(bid.0), key_of((#[trigger] bids[i]).0)),
    ensures
        walked_with(bids, bid) == bids.insert(pos, bid),
    decreases bids.len(),
{
    if pos == bids.len() {
        assert(bids.insert(pos, bid) =~= bids.push(bid));
    } else {
        let rest = bids.drop_last();
        assert(precedes(key_of(bid.0), key_of(bids[bids.len() - 1].0)));
        assert(forall|i: int| 0 <= i < rest.len() ==> (#[trigger] rest[i]) == bids[i]);
        lemma_walked_with_is_insert(rest, bid, pos);
        assert(rest.insert(pos, bid).push(bids.last()) =~= bids.insert(pos, bid));
    }
}

/// Walks the bids in the order of their keys.
pub fn walk_bids(bids: &Vec<Bid>) -> (r: Vec<Bid>)
    ensures
        r@ == walked(bids@),
{
    let mut out: Vec<Bid> = Vec::new();
    let mut keys: Vec<Vec<u8>> = Vec::new();
    let mut n: usize = 0;
    assert(bids@.take(0) =~= Seq::<Bid>::empty());
    while n < bids.len()
        invariant
            n <= bids.len(),
            out@ == walked(bids@.take(n as int)),
            out.len() == n,
            keys.len() == n,
            forall|i: int| 0 <= i < n ==> (#[trigger] keys[i])@ == key_of(out[i].0),
        decreases bids.len() - n,
    {
        let bid: Bid = bids[n];
        let key = storage_key(bid.0);
        let mut pos: usize = out.len();
        while pos > 0 && comes_before(&key, &keys[pos - 1])
            invariant
                pos <= out.len(),
                out.len() == n,
                keys.len() == n,
                key@ == key_of(bid.0),
                forall|i: int| 0 <= i < n ==> (#[trigger] keys[i])@ == key_of(out[i].0),
                forall|i: int|
                    pos <= i < out.len() ==> precedes(
                        key_of(bid.0),
                        key_of((#[trigger] out[i]).0),
                    ),
            decreases pos,
        {
            assert(keys[pos - 1]@ == key_of(out[pos - 1].0));
            pos -= 1;
        }
        proof {
            if pos > 0 {
                assert(keys[pos - 1]@ == key_of(out[pos - 1].0));
            }
            lemma_walked_with_is_insert(out@, bid, pos as int);
            assert(bids@.take(n + 1).drop_last() =~= bids@.take(n as int));
            law_walk_meets_every_bid(bids@.take(n + 1));
        }
        let ghost before = out@;
        let ghost keys_before = keys@;
        out.insert(pos, bid);
        keys.insert(pos, key);
        assert forall|i: int| 0 <= i < n + 1 implies (#[trigger] keys[i])@ == key_of(
            out[i].0,
        ) by {
            if i < pos {
                assert(keys[i] == keys_before[i] && out[i] == before[i]);
            } else if i > pos {
                assert(keys[i] == keys_before[i - 1] && out[i] == before[i - 1]);
            }
        }
        n += 1;
    }
    assert(bids@.take(bids@.len() as int) =~= bids@);
    out
}

/// An identity is encoded in four bytes, each of which counts 256 times as much
/// as the one before it.
pub proof fn law_identities_are_encoded(id: BidId)
    ensures
        encoded(id).len() == 4,
        encoded(id)[0] + 256 * encoded(id)[1] + 65536 * encoded(id)[2] + 16777216 * encoded(id)[3]
            == id,
{
}

/// The key of a bid is the hash of its encoded identity, with the encoded
/// identity behind it.
pub proof fn law_keys_begin_with_the_hash(id: BidId)
    ensures
        key_of(id).len() == blake2_128(encoded(id)).len() + 4,
        key_of(id).take(blake2_128(encoded(id)).len() as int) == blake2_128(encoded(id)),
        key_of(id).skip(blake2_128(encoded(id)).len() as int) == encoded(id),
{
    let hash = blake2_128(encoded(id));
    assert(key_of(id).take(hash.len() as int) =~= hash);
    assert(key_of(id).skip(hash.len() as int) =~= encoded(id));
}

/// Of two keys that are the same up to some place, the one that ends there or
/// has the smaller byte there comes first, and the other does not.
pub proof fn law_keys_are_ordered_by_the_first_difference(a: Seq<u8>, b: Seq<u8>, n: int)
    requires
        0 <= n <= a.len(),
        n < b.len(),
        a.take(n) == b.take(n),
        n == a.len() || a[n] < b[n],
    ensures
        precedes(a, b),
        !precedes(b, a),
{
    assert forall|k: int| 0 <= k < n implies (#[trigger] a[k]) == b[k] by {
        let x = a.take(n);
        let y = b.take(n);
        assert(x[k] == a[k] && y[k] == b[k]);
    }
    assert(precedes_at(a, b, n));
    lemma_precedes_is_strict(a, b);
}

} // verus!

//! The order in which bids are walked.

use coretime_market::auction::Bid;
use coretime_market::records::BidRecord;
use coretime_market::storage::{comes_before, storage_key, walk_bids};

fn bids(ids: &[u32]) -> Vec<Bid> {
    ids.iter().map(|id| (*id, BidRecord { who: *id as u64 + 7, price: 10 })).collect()
}

fn ids(bids: &[Bid]) -> Vec<u32> {
    bids.iter().map(|b| b.0).collect()
}

#[test]
fn keys_are_hashes_with_the_identity_behind() {
    let zero = 0x11d2df4e979aa105cf552e9544ebd2b5u128.to_be_bytes();
    let one = 0xd82c12285b5d4551f88e8f6e7eb52b81u128.to_be_bytes();
    assert_eq!(storage_key(0), [&zero[..], &[0, 0, 0, 0]].concat());
    assert_eq!(storage_key(1), [&one[..], &[1, 0, 0, 0]].concat());
    let id = 0x1234_5678u32;
    assert_eq!(storage_key(id)[16..], id.to_le_bytes());
}

#[test]
fn keys_are_compared_byte_by_byte() {
    assert!(comes_before(&vec![1, 2], &vec![1, 3]));
    assert!(!comes_before(&vec![1, 3], &vec![1, 2]));
    assert!(!comes_before(&vec![1, 2], &vec![1, 2]));
    assert!(comes_before(&vec![1], &vec![1, 0]));
    assert!(!comes_before(&vec![1, 0], &vec![1]));
    assert!(comes_before(&vec![], &vec![0]));
    assert!(comes_before(&vec![1, 200, 0], &vec![2]));
}

#[test]
fn bids_are_walked_in_the_order_of_their_keys() {
    assert_eq!(ids(&walk_bids(&bids(&[0, 1, 2, 3, 4, 5]))), vec![0, 4, 2, 5, 1, 3]);
    assert!(walk_bids(&vec![]).is_empty());
    let walk = walk_bids(&bids(&[1, 0]));
    assert_eq!(walk[0].1.who, 7);
    assert_eq!(walk[1].1.who, 8);
}

#[test]
fn walks_forget_placement() {
    let all: Vec<u32> = (0..40).collect();
    let mut back = all.clone();
    back.reverse();
    assert_eq!(ids(&walk_bids(&bids(&all))), ids(&walk_bids(&bids(&back))));
    let mut expected = all.clone();
    expected.sort_by_key(|id| {
        <frame_support::Blake2_128Concat as frame_support::StorageHasher>::hash(&id.to_le_bytes())
    });
    assert_eq!(ids(&walk_bids(&bids(&all))), expected);
}

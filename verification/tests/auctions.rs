//! How bids are ranked, shuffled and served.

use coretime_market::auction::{
    clearing_price, partition_point, rank_bids, settle_auction, shuffle_marginal_bids, Bid,
};
use coretime_market::market::{RenewalRightsProvider, TickAction};
use coretime_market::primitives::Timeslice;
use coretime_market::records::{BidRecord, SaleInfoRecordOf};

struct Tenants(Vec<(u64, Timeslice)>);

impl RenewalRightsProvider<u64> for Tenants {
    fn rights(&self, who: u64, when: Timeslice) -> u32 {
        self.0.iter().filter(|t| **t == (who, when)).count() as u32
    }

    fn renewal_rights_count(&self, who: &u64, when: Timeslice) -> u32 {
        self.rights(*who, when)
    }
}

fn bid(id: u32, who: u64, price: u64) -> Bid {
    (id, BidRecord { who, price })
}

fn ids(bids: &[Bid]) -> Vec<u32> {
    bids.iter().map(|b| b.0).collect()
}

fn sale(cores_offered: u16, reserve_price: u64) -> SaleInfoRecordOf {
    SaleInfoRecordOf {
        sale_start: 0,
        opening_price: 1000,
        reserve_price,
        clearing_price: None,
        region_begin: 4,
        region_end: 7,
        ideal_cores_sold: cores_offered,
        cores_offered,
        first_core: 5,
        cores_sold: 0,
    }
}

fn refunded(actions: &[TickAction<u64, u64, u64, u32>]) -> Vec<(u64, u64)> {
    actions
        .iter()
        .map(|a| match a {
            TickAction::Refund { amount, who } => (*who, *amount),
            _ => panic!("only refunds are expected"),
        })
        .collect()
}

#[test]
fn ranking_is_descending_and_stable() {
    let bids = vec![bid(0, 1, 5), bid(1, 2, 9), bid(2, 3, 5), bid(3, 4, 7), bid(4, 5, 9)];
    assert_eq!(ids(&rank_bids(&bids)), vec![1, 4, 3, 0, 2]);
    assert!(rank_bids(&vec![]).is_empty());
}

#[test]
fn clearing_price_is_the_bid_on_the_last_core() {
    let ranking = vec![bid(0, 1, 9), bid(1, 2, 7), bid(2, 3, 5)];
    assert_eq!(clearing_price(&ranking, 2, 1), 7);
    assert_eq!(clearing_price(&ranking, 3, 1), 5);
    assert_eq!(clearing_price(&ranking, 3, 6), 6);
    assert_eq!(clearing_price(&ranking, 4, 1), 1);
    assert_eq!(clearing_price(&ranking, 0, 1), 1);
}

#[test]
fn partition_point_counts_bids_that_reach_a_price() {
    let ranking = vec![bid(0, 1, 9), bid(1, 2, 7), bid(2, 3, 7), bid(3, 4, 5)];
    assert_eq!(partition_point(&ranking, 7, false), 1);
    assert_eq!(partition_point(&ranking, 7, true), 3);
    assert_eq!(partition_point(&ranking, 4, false), 4);
    assert_eq!(partition_point(&ranking, 10, true), 0);
}

#[test]
fn shuffle_moves_marginal_bids_only() {
    let mut bids =
        vec![bid(9, 1, 12), bid(0, 2, 10), bid(1, 3, 10), bid(2, 4, 10), bid(3, 5, 10), bid(8, 6, 3)];
    shuffle_marginal_bids(&mut bids, 10, &[0; 32]);
    assert_eq!(ids(&bids), vec![9, 1, 2, 3, 0, 8]);
}

#[test]
fn shuffle_reads_the_least_significant_byte_first() {
    let mut seed = [0u8; 32];
    seed[3] = 1;
    let mut bids = vec![bid(0, 1, 10), bid(1, 2, 10)];
    shuffle_marginal_bids(&mut bids, 10, &seed);
    assert_eq!(ids(&bids), vec![1, 0]);
    seed[0] = 1;
    let mut bids = vec![bid(0, 1, 10), bid(1, 2, 10)];
    shuffle_marginal_bids(&mut bids, 10, &seed);
    assert_eq!(ids(&bids), vec![0, 1]);
}

#[test]
fn shuffle_needs_a_seed_and_two_bids() {
    let mut bids = vec![bid(0, 1, 10), bid(1, 2, 10)];
    shuffle_marginal_bids(&mut bids, 10, &[0; 3]);
    assert_eq!(ids(&bids), vec![0, 1]);
    let mut bids = vec![bid(0, 1, 11), bid(1, 2, 10)];
    shuffle_marginal_bids(&mut bids, 10, &[0; 32]);
    assert_eq!(ids(&bids), vec![0, 1]);
}

#[test]
fn settlement_allots_cores_and_refunds_the_rest() {
    let bids = vec![bid(0, 1, 50), bid(1, 2, 90), bid(2, 3, 70), bid(3, 4, 40)];
    let s = settle_auction(&sale(2, 10), &bids, &[0; 32], &Tenants(vec![(3, 7)]), 100);
    assert_eq!(s.clearing_price, 70);
    assert_eq!(s.winners, 2);
    assert_eq!(refunded(&s.actions), vec![(2, 20), (1, 50), (4, 40)]);
    assert_eq!(s.allocations.len(), 2);
    assert_eq!(s.allocations[0].who, 2);
    assert_eq!(s.allocations[0].core, 5);
    assert_eq!(s.allocations[0].bid_price, 90);
    assert_eq!(s.allocations[0].bid_id, 1);
    assert!(!s.allocations[0].has_renewal_rights);
    assert_eq!(s.allocations[1].who, 3);
    assert_eq!(s.allocations[1].core, 6);
    assert_eq!(s.allocations[1].clearing_price, 70);
    assert!(s.allocations[1].has_renewal_rights);
    assert_eq!(s.sale.cores_sold, 2);
    assert_eq!(s.sale.clearing_price, Some(70));
}

#[test]
fn funds_are_conserved() {
    let bids: Vec<Bid> = (0..20u32).map(|i| bid(i, i as u64, 10 + (i as u64 * 7) % 13)).collect();
    for k in 0..25u16 {
        let s = settle_auction(&sale(k, 12), &bids, &[7; 32], &Tenants(vec![]), 100);
        let paid = s.winners as u64 * s.clearing_price;
        let back: u64 = refunded(&s.actions).iter().map(|r| r.1).sum();
        let total: u64 = bids.iter().map(|b| b.1.price).sum();
        assert_eq!(paid + back, total);
        assert!(s.winners <= k as u32);
        assert!(s.clearing_price >= 12);
    }
}

#[test]
fn bids_below_the_reserve_price_lose() {
    let bids = vec![bid(0, 1, 50), bid(1, 2, 9)];
    let s = settle_auction(&sale(3, 10), &bids, &[0; 32], &Tenants(vec![]), 100);
    assert_eq!(s.clearing_price, 10);
    assert_eq!(s.winners, 1);
    assert_eq!(refunded(&s.actions), vec![(1, 40), (2, 9)]);
}

#[test]
fn no_more_allotments_are_kept_than_bids_are_allowed() {
    let bids = vec![bid(0, 1, 50), bid(1, 2, 50), bid(2, 3, 50)];
    let s = settle_auction(&sale(3, 10), &bids, &[0; 32], &Tenants(vec![]), 2);
    assert_eq!(s.winners, 3);
    assert_eq!(s.allocations.len(), 2);
    assert_eq!(s.sale.cores_sold, 3);
}

#[test]
fn higher_bids_win_whatever_the_seed() {
    let bids = vec![bid(0, 1, 10), bid(1, 2, 20), bid(2, 3, 20), bid(3, 4, 20), bid(4, 5, 30)];
    for seed in 0..50u8 {
        let s = settle_auction(&sale(3, 5), &bids, &[seed; 32], &Tenants(vec![]), 100);
        assert_eq!(s.clearing_price, 20);
        assert_eq!(s.allocations[0].who, 5);
        assert!(s.allocations.iter().all(|a| a.who != 1));
        let mut cores: Vec<u16> = s.allocations.iter().map(|a| a.core).collect();
        cores.sort();
        assert_eq!(cores, vec![5, 6, 7]);
    }
}

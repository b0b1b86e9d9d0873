//! How prices move within a sale and from sale to sale.

use coretime_market::arithmetic::{FixedU64, Perbill};
use coretime_market::price::{
    adjust_reserve_price, cores_on_offer, current_timeslice, descending_price, exponential,
    latest_timeslice_ready_to_commit, part_of_cores, rotate_sale, saturating_product,
};
use coretime_market::records::{ConfigRecord, ConfigRecordOf, SaleInfoRecordOf};
use coretime_market::renewal::renewal_price;

fn config() -> ConfigRecordOf {
    ConfigRecord {
        advance_notice: 2,
        market_period: 30,
        renewal_period: 10,
        region_length: 3,
        ideal_bulk_proportion: Perbill { parts: 500_000_000 },
        limit_cores_offered: None,
        penalty: Perbill { parts: 300_000_000 },
        contribution_timeout: 5,
        price_multiplier: 3,
        min_opening_price: 150,
        target_consumption_rate: Perbill { parts: 900_000_000 },
        sensitivity_millis: 2500,
        min_reserve_price: 1,
        min_increment: 100,
    }
}

fn sale(reserve_price: u64, cores_sold: u16, cores_offered: u16) -> SaleInfoRecordOf {
    SaleInfoRecordOf {
        sale_start: 100,
        opening_price: reserve_price * 3,
        reserve_price,
        clearing_price: None,
        region_begin: 4,
        region_end: 7,
        ideal_cores_sold: 0,
        cores_offered,
        first_core: 0,
        cores_sold,
    }
}

#[test]
fn price_at_given_blocks() {
    let s = sale(1000, 0, 2);
    let c = Some(config());
    assert_eq!(descending_price(0, &s, &c), 3000);
    assert_eq!(descending_price(100, &s, &c), 3000);
    // A thirtieth of the difference of 2000, rounded down.
    assert_eq!(descending_price(101, &s, &c), 2934);
    assert_eq!(descending_price(115, &s, &c), 2000);
    assert_eq!(descending_price(130, &s, &c), 1000);
    assert_eq!(descending_price(1_000_000, &s, &c), 1000);
}

#[test]
fn price_without_a_period_is_the_reserve_price() {
    let mut c = config();
    c.market_period = 0;
    assert_eq!(descending_price(100, &sale(1000, 0, 2), &Some(c)), 1000);
    // Without parameters the period is the present block number.
    assert_eq!(descending_price(200, &sale(1000, 0, 2), &None), 2000);
    assert_eq!(descending_price(0, &sale(1000, 0, 2), &None), 1000);
}

#[test]
fn price_never_rises() {
    let s = sale(1000, 0, 2);
    let c = Some(config());
    let mut last = u64::MAX;
    for now in 90..140 {
        let p = descending_price(now, &s, &c);
        assert!(p <= last && p >= 1000);
        last = p;
    }
}

#[test]
fn exponential_sums_its_series() {
    assert_eq!(exponential(FixedU64 { inner: 0 }).inner, 1_000_000_000);
    assert_eq!(exponential(FixedU64 { inner: 1_000_000_000 }).inner, 2_718_281_823);
    assert_eq!(exponential(FixedU64 { inner: 250_000_000 }).inner, 1_284_025_415);
    assert_eq!(exponential(FixedU64 { inner: 2_250_000_000 }).inner, 9_487_735_825);
    assert_eq!(exponential(FixedU64 { inner: u64::MAX }).inner, u64::MAX);
}

#[test]
fn reserve_price_follows_consumption() {
    let c = config();
    assert_eq!(adjust_reserve_price(&sale(1_000_000_000, 2, 2), &c), 1_284_025_415);
    assert_eq!(adjust_reserve_price(&sale(1_000_000_000, 9, 10), &c), 1_000_000_000);
    assert_eq!(adjust_reserve_price(&sale(1_000_000_000, 2, 3), &c), 558_035_146);
    assert_eq!(adjust_reserve_price(&sale(1_000_000_000, 1, 2), &c), 367_879_441);
    assert_eq!(adjust_reserve_price(&sale(1_000_000_000, 0, 2), &c), 105_399_224);
    let mut last = 0;
    for sold in 0..12 {
        let next = adjust_reserve_price(&sale(1_000_000_000, sold, 10), &c);
        assert!(next >= last);
        last = next;
    }
}

#[test]
fn reserve_price_has_a_floor_and_a_least_increment() {
    let mut c = config();
    assert_eq!(adjust_reserve_price(&sale(100, 2, 2), &c), 200);
    assert_eq!(adjust_reserve_price(&sale(100, 1, 2), &c), 36);
    c.min_reserve_price = 50;
    assert_eq!(adjust_reserve_price(&sale(100, 1, 2), &c), 50);
    c.min_increment = 0;
    assert_eq!(adjust_reserve_price(&sale(100, 2, 2), &c), 128);
    c.min_increment = u64::MAX;
    assert_eq!(adjust_reserve_price(&sale(100, 2, 2), &c), u64::MAX);
}

#[test]
fn reserve_price_stays_where_nothing_was_offered() {
    assert_eq!(adjust_reserve_price(&sale(100, 0, 0), &config()), 100);
}

#[test]
fn rotation_lays_out_the_next_sale() {
    let c = config();
    let mut old = sale(1000, 9, 10);
    old.clearing_price = Some(1200);
    let (prices, new) = rotate_sale(&old, &c, 20, 5, 400);
    assert_eq!(prices.reserve_price, 1000);
    assert_eq!(prices.target_price, 1200);
    assert_eq!(new.sale_start, 400);
    assert_eq!(new.opening_price, 3000);
    assert_eq!(new.reserve_price, 1000);
    assert_eq!(new.clearing_price, None);
    assert_eq!((new.region_begin, new.region_end), (7, 10));
    assert_eq!((new.first_core, new.cores_offered), (5, 15));
    assert_eq!(new.ideal_cores_sold, 7);
    assert_eq!(new.cores_sold, 0);
}

#[test]
fn opening_price_has_a_floor() {
    let (prices, new) = rotate_sale(&sale(10, 0, 0), &config(), 1, 0, 0);
    assert_eq!(prices.target_price, 10);
    assert_eq!(new.opening_price, 150);
}

#[test]
fn cores_on_offer_are_limited() {
    assert_eq!(cores_on_offer(10, 3, None), 7);
    assert_eq!(cores_on_offer(10, 3, Some(4)), 4);
    assert_eq!(cores_on_offer(10, 3, Some(9)), 7);
    assert_eq!(cores_on_offer(3, 10, None), 0);
}

#[test]
fn parts_are_rounded_to_the_nearest() {
    assert_eq!(part_of_cores(Perbill { parts: 500_000_000 }, 15), 7);
    assert_eq!(part_of_cores(Perbill { parts: 510_000_000 }, 15), 8);
    assert_eq!(part_of_cores(Perbill { parts: 2_000_000_000 }, 15), 15);
    for cores in 0..200u16 {
        let parts = sp_arithmetic::Perbill::from_percent(37);
        let expected = (parts * cores as u32) as u16;
        assert_eq!(part_of_cores(Perbill { parts: parts.deconstruct() }, cores), expected);
    }
}

#[test]
fn renewals_cost_those_more_who_did_not_win_where_the_auction_sold_out() {
    let c = config();
    assert_eq!(renewal_price(&sale(10, 2, 2), &c, 1000, false), 1300);
    assert_eq!(renewal_price(&sale(10, 2, 2), &c, 1000, true), 1000);
    assert_eq!(renewal_price(&sale(10, 1, 2), &c, 1000, false), 1000);
    assert_eq!(renewal_price(&sale(10, 2, 2), &c, u64::MAX, false), u64::MAX);
}

#[test]
fn timeslices_of_blocks() {
    assert_eq!(current_timeslice(7, 2), 3);
    assert_eq!(current_timeslice(u64::MAX, 1), u32::MAX);
    assert_eq!(latest_timeslice_ready_to_commit(7, 3, 2), 5);
    assert_eq!(latest_timeslice_ready_to_commit(u64::MAX, 3, 2), u32::MAX);
}

#[test]
fn products_are_capped() {
    assert_eq!(saturating_product(6, 7), 42);
    assert_eq!(saturating_product(u64::MAX, 2), u64::MAX);
}

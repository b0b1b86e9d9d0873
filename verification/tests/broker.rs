//! The market without bids.

use coretime_market::arithmetic::{FixedU64, Perbill};
use coretime_market::broker::{
    benchmark_config, leadin_factor_at, next_timeslice_to_commit, purchase_core, rotate_sale,
    sell_price, AdaptPrice, BrokerCoreCountProvider, LegacyConfig, LegacyConfigRecord,
    LegacyMarket,
};
use coretime_market::core_mask::CoreMask;
use coretime_market::market::{
    CoreCountProvider, Market, MarketError, MarketState, OrderResult, RenewalOrderResult,
    TickAction,
};
use coretime_market::primitives::{PotentialRenewalId, RegionId, StatusRecord};
use coretime_market::records::{AdaptedPrices, SaleInfoRecordOf};
use coretime_market::weight::WeightMeter;

/// Halves the reserve price where nothing was sold.
struct Halving;

impl AdaptPrice for Halving {
    fn adapted(old_sale: SaleInfoRecordOf) -> AdaptedPrices<u64> {
        let reserve_price = if old_sale.cores_offered > 0 && old_sale.cores_sold == 0 {
            old_sale.reserve_price / 2
        } else {
            old_sale.reserve_price
        };
        AdaptedPrices { reserve_price, target_price: reserve_price }
    }

    fn adapt_price(old_sale: &SaleInfoRecordOf) -> AdaptedPrices<u64> {
        Self::adapted(*old_sale)
    }
}

struct Test;

impl LegacyConfig for Test {
    type PriceAdapter = Halving;

    fn period() -> u64 {
        2
    }

    fn timeslice_period() -> u64 {
        2
    }
}

fn config() -> LegacyConfigRecord {
    LegacyConfigRecord {
        advance_notice: 2,
        market_period: 20,
        renewal_period: 10,
        region_length: 3,
        ideal_bulk_proportion: Perbill { parts: 500_000_000 },
        limit_cores_offered: None,
        penalty: Perbill { parts: 100_000_000 },
        contribution_timeout: 5,
    }
}

fn new_market() -> LegacyMarket<Test> {
    let mut market = LegacyMarket::new(BrokerCoreCountProvider {
        reservations: Some(1),
        leases: None,
    });
    market.set_configuration(config());
    market
}

const RENEWAL: PotentialRenewalId = PotentialRenewalId { core: 0, when: 0 };

#[test]
fn reserved_cores_are_counted() {
    let count = |reservations, leases| {
        BrokerCoreCountProvider { reservations, leases }.reserved_core_count()
    };
    assert_eq!(count(Some(3), Some(4)), 7);
    assert_eq!(count(None, Some(4)), 4);
    assert_eq!(count(None, None), 0);
    assert_eq!(count(Some(0x1_0002), None), 2);
}

#[test]
fn leadin_comes_down_from_a_hundred_to_one() {
    let at = |inner| leadin_factor_at(FixedU64 { inner }).inner;
    assert_eq!(at(0), 100_000_000_000);
    assert_eq!(at(250_000_000), 55_000_000_000);
    assert_eq!(at(500_000_000), 10_000_000_000);
    assert_eq!(at(500_000_001), 9_999_999_982);
    assert_eq!(at(1_000_000_000), 1_000_000_000);
    assert_eq!(at(2_000_000_000), 0);
}

#[test]
fn sale_starts_at_a_hundred_times_the_reserve_price() {
    let mut market = new_market();
    let started = market.start_sales(10, 7, 5).unwrap();
    assert_eq!(started.start_price, 700);
    assert_eq!(started.new_sale.opening_price, 700);
    assert_eq!(started.new_sale.reserve_price, 7);
    assert_eq!(started.new_sale.clearing_price, Some(7));
    assert_eq!(started.new_sale.cores_offered, 4);
    assert_eq!(started.new_sale.first_core, 1);
    assert_eq!(started.new_sale.ideal_cores_sold, 2);
    assert_eq!((started.old_sale.region_begin, started.old_sale.region_end), (6, 9));
    assert_eq!((started.new_sale.region_begin, started.new_sale.region_end), (9, 12));
    assert_eq!(market.status().unwrap().last_committed_timeslice, 5);
    assert_eq!(market.status().unwrap().last_timeslice, 5);
    assert_eq!(market.current_price(10), Some(700));
    assert_eq!(market.current_price(20), Some(70));
    assert_eq!(market.current_price(30), Some(7));
    assert_eq!(market.current_price(999), Some(7));
    let mut last = u64::MAX;
    for now in 0..40 {
        let price = market.current_price(now).unwrap();
        assert!(price <= last && price >= 7);
        last = price;
    }
    assert_eq!(market.current_phase(), None);
}

#[test]
fn sell_price_is_rounded_down() {
    let mut market = new_market();
    let sale = market.start_sales(0, 7, 5).unwrap().new_sale;
    let mut c = config();
    c.market_period = 7;
    // A seventh is 0.142857143, so the factor is 74.28571426.
    assert_eq!(sell_price(1, &sale, &c), 519);
    assert_eq!(sell_price(2, &sale, &c), 339);
}

#[test]
fn orders_are_resolved_at_once() {
    let mut market = new_market();
    market.start_sales(10, 7, 5).unwrap();
    let region = |core| RegionId { begin: 9, core, mask: CoreMask::complete() };
    assert_eq!(
        market.place_order(20, &1, 1000).unwrap(),
        OrderResult::Sold { price: 70, region_id: region(1), region_end: 12 }
    );
    assert_eq!(market.sale_info().unwrap().clearing_price, Some(70));
    // No more than the limit is paid.
    assert_eq!(
        market.place_order(20, &1, 50).unwrap(),
        OrderResult::Sold { price: 50, region_id: region(2), region_end: 12 }
    );
    assert_eq!(market.sale_info().unwrap().clearing_price, Some(50));
    // Beyond the number of cores to be sold ideally the clearing price stays.
    assert!(market.place_order(20, &1, 40).is_ok());
    assert_eq!(market.sale_info().unwrap().clearing_price, Some(50));
    assert!(market.place_order(20, &1, 40).is_ok());
    assert!(matches!(market.place_order(20, &1, 40), Err(MarketError::SoldOut)));
    assert!(matches!(
        market.place_renewal_order(20, &1, RENEWAL, 40),
        Err(MarketError::SoldOut)
    ));
}

#[test]
fn orders_are_refused() {
    let mut market: LegacyMarket<Test> =
        LegacyMarket::new(BrokerCoreCountProvider { reservations: None, leases: None });
    assert!(matches!(market.start_sales(0, 1, 1), Err(MarketError::Uninitialized)));
    assert!(matches!(market.place_order(0, &1, 1), Err(MarketError::Uninitialized)));
    assert!(matches!(
        market.place_renewal_order(0, &1, RENEWAL, 1),
        Err(MarketError::Uninitialized)
    ));
    assert_eq!(market.current_price(0), None);
    market.set_configuration(config());
    assert_eq!(market.configuration(), Some(config()));
    assert!(matches!(market.place_order(0, &1, 1), Err(MarketError::NoSales)));
    assert!(matches!(
        market.place_renewal_order(0, &1, RENEWAL, 1),
        Err(MarketError::Uninitialized)
    ));
    assert_eq!(market.current_price(0), None);
    market.start_sales(10, 7, 5).unwrap();
    assert!(matches!(market.place_order(10, &1, 1), Err(MarketError::TooEarly)));
    let status = market.status().unwrap();
    market.status = None;
    assert!(matches!(market.place_order(11, &1, 1), Err(MarketError::Uninitialized)));
    market.set_status(StatusRecord { core_count: 0, ..status });
    assert!(matches!(market.place_order(11, &1, 1), Err(MarketError::Unavailable)));
    assert!(matches!(
        market.place_renewal_order(11, &1, RENEWAL, 1),
        Err(MarketError::Unavailable)
    ));
    market.sale_info = None;
    assert!(matches!(
        market.place_renewal_order(11, &1, RENEWAL, 1),
        Err(MarketError::NoSales)
    ));
}

#[test]
fn renewals_are_sold_at_the_recorded_price() {
    let mut market = new_market();
    market.start_sales(10, 7, 5).unwrap();
    let mut renew = |now, recorded| match market.place_renewal_order(now, &1, RENEWAL, recorded) {
        Ok(RenewalOrderResult::Sold {
            price,
            next_renewal_price,
            region_id,
            effective_to,
            displaced,
        }) => {
            assert_eq!(price, recorded);
            assert_eq!(effective_to, 12);
            assert!(displaced.is_none());
            (next_renewal_price, region_id.core)
        },
        _ => panic!("a renewal is expected to be sold"),
    };
    // A tenth more than the recorded price.
    assert_eq!(renew(10, 50), (55, 1));
    // The price of the moment where that is lower.
    assert_eq!(renew(20, 100), (70, 2));
    // The reserve price where that is more than the raised price.
    assert_eq!(renew(20, 1), (7, 3));
}

#[test]
fn there_are_no_bids() {
    let mut market = new_market();
    assert!(matches!(market.raise_bid(0, (), &1, 5), Err(MarketError::BidNotExist)));
    assert!(matches!(market.close_bid((), None), Err(MarketError::BidNotExist)));
}

#[test]
fn ticks_commit_one_timeslice_and_rotate_the_sale() {
    let mut market = new_market();
    let mut meter = WeightMeter::new();
    assert!(market.tick(100, &mut meter).is_empty());
    market.start_sales(10, 7, 5).unwrap();
    assert!(market.tick(10, &mut meter).is_empty());
    assert_eq!(market.status().unwrap().last_committed_timeslice, 6);
    // Nothing more is due at this block.
    assert!(market.tick(10, &mut meter).is_empty());
    assert_eq!(market.status().unwrap().last_committed_timeslice, 6);
    assert!(market.tick(100, &mut meter).is_empty());
    assert!(market.tick(100, &mut meter).is_empty());
    assert_eq!(market.status().unwrap().last_committed_timeslice, 8);
    assert_eq!(market.status().unwrap().last_timeslice, 7);
    let old_sale = market.sale_info().unwrap();
    let actions = market.tick(100, &mut meter);
    assert_eq!(actions.len(), 2);
    assert_eq!(actions[0], TickAction::ProcessRenewals);
    match actions[1] {
        TickAction::SaleRotated { old_sale: old, new_sale, new_prices, start_price } => {
            assert_eq!(old, old_sale);
            assert_eq!(Some(new_sale), market.sale_info());
            assert_eq!(new_prices.reserve_price, 3);
            assert_eq!(start_price, 300);
            assert_eq!(new_sale.region_begin, old_sale.region_end);
        },
        _ => panic!("the sale is expected to rotate"),
    }
    assert_eq!(market.status().unwrap().last_committed_timeslice, 9);
}

#[test]
fn due_timeslices() {
    let mut market = new_market();
    market.start_sales(10, 7, 5).unwrap();
    let mut status = market.status().unwrap();
    assert_eq!(next_timeslice_to_commit(10, &config(), &status, 2), Some(6));
    status.last_committed_timeslice = 6;
    assert_eq!(next_timeslice_to_commit(10, &config(), &status, 2), None);
    assert_eq!(next_timeslice_to_commit(12, &config(), &status, 2), Some(7));
}

#[test]
fn sales_without_cores_have_no_clearing_price() {
    let mut market = new_market();
    let started = market.start_sales(10, 7, 1).unwrap();
    assert_eq!(started.new_sale.cores_offered, 0);
    assert_eq!(started.new_sale.clearing_price, None);
    let mut sale = started.new_sale;
    assert_eq!(purchase_core(4, &mut sale), 1);
    assert_eq!(sale.clearing_price, Some(4));
    assert_eq!(sale.cores_sold, 1);
    assert_eq!(purchase_core(5, &mut sale), 2);
    assert_eq!(sale.clearing_price, Some(4));
}

#[test]
fn rotation_follows_the_adapted_prices() {
    let mut market = new_market();
    let old = market.start_sales(10, 7, 5).unwrap().new_sale;
    let status = market.status().unwrap();
    let (prices, new) = rotate_sale::<Halving>(&old, &config(), &status, 2, 50);
    assert_eq!(prices.reserve_price, 3);
    assert_eq!(new.reserve_price, 3);
    assert_eq!(new.opening_price, 300);
    assert_eq!(new.cores_offered, 3);
    assert_eq!(new.first_core, 2);
    assert_eq!((new.region_begin, new.region_end), (12, 15));
}

#[test]
fn parameters_for_measuring() {
    let c = benchmark_config();
    assert_eq!(c.market_period, 1);
    assert_eq!(c.penalty.parts, sp_arithmetic::Perbill::from_percent(10).deconstruct());
}

#[test]
fn refused_orders_need_no_period() {
    let mut c = config();
    c.market_period = 0;
    let mut market = new_market();
    market.set_configuration(c);
    assert!(matches!(market.place_order(11, &1, 1), Err(MarketError::NoSales)));
    market.set_configuration(config());
    market.start_sales(10, 7, 5).unwrap();
    market.set_configuration(c);
    let mut unready = new_market();
    unready.set_configuration(c);
    unready.set_sale_info(market.sale_info().unwrap());
    assert!(matches!(unready.place_order(11, &1, 1), Err(MarketError::Uninitialized)));
    assert!(matches!(market.place_order(10, &1, 1), Err(MarketError::TooEarly)));
    assert!(matches!(market.raise_bid(11, (), &1, 5), Err(MarketError::BidNotExist)));
    let mut sale = market.sale_info().unwrap();
    sale.cores_sold = sale.cores_offered;
    market.set_sale_info(sale);
    assert!(matches!(market.place_order(11, &1, 1), Err(MarketError::SoldOut)));
    assert!(matches!(
        market.place_renewal_order(11, &1, RENEWAL, 1),
        Err(MarketError::SoldOut)
    ));
    sale.first_core = market.status().unwrap().core_count;
    market.set_sale_info(sale);
    assert!(matches!(market.place_order(11, &1, 1), Err(MarketError::Unavailable)));
}

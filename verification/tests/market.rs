//! The life of a sale, from its start to the next one.

use coretime_market::arithmetic::Perbill;
use coretime_market::core_mask::CoreMask;
use coretime_market::market::{
    CoreCountProvider, Market, MarketError, MarketState, OrderResult, RenewalOrderResult,
    RenewalRightsProvider, TickAction,
};
use coretime_market::model::Event;
use coretime_market::pallet::{Config, Pallet};
use coretime_market::primitives::{CoreIndex, PotentialRenewalId, Timeslice};
use coretime_market::records::{ConfigRecord, SalePhase};
use coretime_market::weight::WeightMeter;
use std::collections::BTreeMap;

struct TestCoreCountProvider;

impl CoreCountProvider for TestCoreCountProvider {
    fn countable(&self) -> bool {
        true
    }

    fn reserved(&self) -> CoreIndex {
        0
    }

    fn reserved_core_count(&self) -> CoreIndex {
        0
    }
}

#[derive(Default)]
struct TestRenewalRights(BTreeMap<(u64, Timeslice), u32>);

impl TestRenewalRights {
    fn set(&mut self, who: u64, when: Timeslice, count: u32) {
        self.0.insert((who, when), count);
    }
}

impl RenewalRightsProvider<u64> for TestRenewalRights {
    fn rights(&self, who: u64, when: Timeslice) -> u32 {
        self.0.get(&(who, when)).copied().unwrap_or(0)
    }

    fn renewal_rights_count(&self, who: &u64, when: Timeslice) -> u32 {
        self.rights(*who, when)
    }
}

struct Test;

impl Config for Test {
    type WeightInfo = ();
    type CoreCountProvider = TestCoreCountProvider;
    type RenewalRights = TestRenewalRights;

    fn period() -> u64 {
        2
    }

    fn bid_limit() -> u32 {
        100
    }

    fn timeslice_period() -> u64 {
        2
    }

    fn max_bids() -> u32 {
        100
    }
}

fn percent(n: u32) -> Perbill {
    Perbill { parts: sp_arithmetic::Perbill::from_percent(n).deconstruct() }
}

fn part(p: Perbill, x: u64) -> u64 {
    sp_arithmetic::Perbill::from_parts(p.parts) * x
}

fn new_config() -> ConfigRecord<u64, u64> {
    ConfigRecord {
        advance_notice: 2,
        market_period: 20,
        renewal_period: 10,
        ideal_bulk_proportion: percent(100),
        limit_cores_offered: None,
        region_length: 3,
        penalty: percent(30),
        contribution_timeout: 5,
        price_multiplier: 2,
        min_opening_price: 10,
        target_consumption_rate: percent(90),
        sensitivity_millis: 2500,
        min_reserve_price: 1,
        min_increment: 100,
    }
}

fn new_market_with_config(config: ConfigRecord<u64, u64>) -> Pallet<Test> {
    let mut market: Pallet<Test> =
        Pallet::new(TestCoreCountProvider, TestRenewalRights::default(), vec![0; 32]);
    market.set_configuration(config);
    market
}

fn new_market() -> Pallet<Test> {
    new_market_with_config(new_config())
}

fn start_sales(market: &mut Pallet<Test>, reserve_price: u64, extra_cores: u16) {
    assert!(market.start_sales(0, reserve_price, extra_cores).is_ok());
}

fn tick(market: &mut Pallet<Test>, block_number: u64) -> Vec<TickAction<u64, u64, u64, u32>> {
    let mut meter = WeightMeter::new();
    market.tick(block_number, &mut meter)
}

fn place_bid(
    market: &mut Pallet<Test>,
    block_number: u64,
    who: u64,
    price_limit: u64,
) -> Result<OrderResult<u64, u32>, MarketError> {
    market.place_order(block_number, &who, price_limit)
}

fn place_renewal(
    market: &mut Pallet<Test>,
    block_number: u64,
    who: u64,
    core: u16,
    when: u32,
    recorded_price: u64,
) -> Result<RenewalOrderResult<u64, u32, u64>, MarketError> {
    let renewal_id = PotentialRenewalId { core, when };
    market.place_renewal_order(block_number, &who, renewal_id, recorded_price)
}

// Phase transition tests

#[test]
fn start_sales_initializes_market_phase() {
    let mut market = new_market();
    start_sales(&mut market, 100, 2);

    assert_eq!(market.current_phase(), Some(SalePhase::Market));
    let sale = market.sale_info().unwrap();
    assert!(sale.cores_offered > 0);
    assert_eq!(sale.cores_sold, 0);
    assert_eq!(sale.clearing_price, None);
    assert!(sale.opening_price > 0);
    assert_eq!(sale.reserve_price, 100);
}

#[test]
fn market_to_renewal_transition_on_timeout() {
    let mut market = new_market();
    start_sales(&mut market, 100, 2);

    let sale = market.sale_info().unwrap();
    let config = market.configuration().unwrap();
    let market_end = sale.sale_start + config.market_period;

    // Before market end: still Market.
    tick(&mut market, market_end - 1);
    assert_eq!(market.current_phase(), Some(SalePhase::Market));

    // At market end: transitions to Renewal.
    tick(&mut market, market_end);
    assert_eq!(market.current_phase(), Some(SalePhase::Renewal));
}

#[test]
fn renewal_to_settlement_transition() {
    let mut market = new_market();
    start_sales(&mut market, 100, 2);

    let sale = market.sale_info().unwrap();
    let config = market.configuration().unwrap();
    let market_end = sale.sale_start + config.market_period;
    let renewal_end = market_end + config.renewal_period;

    tick(&mut market, market_end);
    assert_eq!(market.current_phase(), Some(SalePhase::Renewal));

    tick(&mut market, renewal_end - 1);
    assert_eq!(market.current_phase(), Some(SalePhase::Renewal));

    tick(&mut market, renewal_end);
    assert_eq!(market.current_phase(), Some(SalePhase::Settlement));
}

#[test]
fn settlement_to_market_transition_on_rotation() {
    let mut market = new_market();
    start_sales(&mut market, 100, 2);

    let sale = market.sale_info().unwrap();
    let config = market.configuration().unwrap();
    let market_end = sale.sale_start + config.market_period;
    let renewal_end = market_end + config.renewal_period;

    tick(&mut market, market_end);
    tick(&mut market, renewal_end);
    assert_eq!(market.current_phase(), Some(SalePhase::Settlement));

    // Set last_committed_timeslice >= region_begin to trigger rotation.
    let mut status = market.status().unwrap();
    status.last_committed_timeslice = sale.region_begin;
    market.set_status(status);

    let actions = tick(&mut market, renewal_end + 1);
    assert_eq!(market.current_phase(), Some(SalePhase::Market));
    assert!(actions.iter().any(|a| matches!(a, TickAction::SaleRotated { .. })));
}

// Bidding tests

#[test]
fn place_bid_works_during_market_phase() {
    let mut market = new_market();
    start_sales(&mut market, 100, 2);

    let sale = market.sale_info().unwrap();
    let block = sale.sale_start + 1;
    let current_price =
        market.current_price(block).unwrap();

    let result = place_bid(&mut market, block, 1, current_price);
    assert!(result.is_ok());
    match result.unwrap() {
        OrderResult::BidPlaced { id, bid_price } => {
            assert_eq!(id, 0);
            assert_eq!(bid_price, current_price);
        },
        _ => panic!("Expected BidPlaced"),
    }
}

#[test]
fn place_bid_fails_before_sale_start() {
    let mut market = new_market();
    // Start at block 1 so there's a block before sale_start to test with.
    assert!(market.start_sales(1, 100, 2).is_ok());

    let sale = market.sale_info().unwrap();
    assert!(matches!(
        place_bid(&mut market, sale.sale_start - 1, 1, 100),
        Err(MarketError::TooEarly)
    ));
}

#[test]
fn place_bid_clamps_to_current_price() {
    let mut market = new_market();
    start_sales(&mut market, 100, 2);

    let sale = market.sale_info().unwrap();
    let block = sale.sale_start + 1;
    let current_price =
        market.current_price(block).unwrap();

    // Bidding above current price should clamp to current price, not fail.
    let result = place_bid(&mut market, block, 1, current_price + 1).unwrap();
    match result {
        OrderResult::BidPlaced { bid_price, .. } => {
            assert_eq!(bid_price, current_price);
        },
        _ => panic!("Expected BidPlaced"),
    }
}

#[test]
fn place_bid_fails_during_renewal_phase() {
    let mut market = new_market();
    start_sales(&mut market, 100, 2);

    let sale = market.sale_info().unwrap();
    let config = market.configuration().unwrap();
    let market_end = sale.sale_start + config.market_period;

    tick(&mut market, market_end);

    assert!(matches!(
        place_bid(&mut market, market_end + 1, 1, 100),
        Err(MarketError::WrongPhase)
    ));
}

#[test]
fn place_bid_fails_without_sale_info() {
    let mut market = new_market();
    // Before sales are started, CurrentPhase is None => WrongPhase.
    assert!(matches!(place_bid(&mut market, 1, 1, 100), Err(MarketError::WrongPhase)));
}

#[test]
fn place_bid_enforces_max_bids() {
    let mut market = new_market();
    start_sales(&mut market, 100, 200);

    let sale = market.sale_info().unwrap();
    let block = sale.sale_start + 1;
    let current_price =
        market.current_price(block).unwrap();

    // Place MaxBids (100) bids.
    for i in 0..100u64 {
        assert!(place_bid(&mut market, block, i, current_price).is_ok());
    }

    // Next bid should fail — MaxBids reached.
    assert!(matches!(
        place_bid(&mut market, block, 1, current_price),
        Err(MarketError::SoldOut)
    ));
}

// Clearing price / auction settlement tests

#[test]
fn clearing_price_is_kth_highest_bid() {
    let mut market = new_market();
    start_sales(&mut market, 10, 2);

    let sale = market.sale_info().unwrap();
    let block = sale.sale_start + 1;
    let current_price =
        market.current_price(block).unwrap();

    let high_bid = current_price;
    let mid_bid = current_price / 2;
    let low_bid = current_price / 4;

    assert!(place_bid(&mut market, block, 1, high_bid).is_ok());
    assert!(place_bid(&mut market, block, 2, mid_bid).is_ok());
    assert!(place_bid(&mut market, block, 3, low_bid).is_ok());

    let config = market.configuration().unwrap();
    let market_end = sale.sale_start + config.market_period;

    let actions = tick(&mut market, market_end);

    // Clearing price = max(2nd highest bid, reserve).
    let clearing = market.auction_clearing_price.unwrap();
    assert_eq!(clearing, mid_bid.max(sale.reserve_price));

    // Bidder 1 (high_bid) wins and gets refund of excess.
    let excess = high_bid - clearing;
    assert!(actions
        .iter()
        .any(|a| matches!(a, TickAction::Refund { amount, who } if *who == 1 && *amount == excess)));

    // Bidder 2 (mid_bid) wins at its own price.
    let excess = mid_bid - clearing;
    assert_eq!(excess, 0);
    assert!(actions
        .iter()
        .any(|a| matches!(a, TickAction::Refund { amount, who } if *who == 3 && *amount == low_bid)));

    // Bidder 3 (low_bid < clearing) loses and gets full refund.
    assert!(actions
        .iter()
        .any(|a| matches!(a, TickAction::Refund { amount, who } if *who == 3 && *amount == low_bid)));
}

#[test]
fn clearing_price_falls_back_to_reserve_when_undersubscribed() {
    let mut market = new_market();
    start_sales(&mut market, 10, 2);

    let sale = market.sale_info().unwrap();
    let block = sale.sale_start + 1;
    let current_price =
        market.current_price(block).unwrap();

    assert!(place_bid(&mut market, block, 1, current_price).is_ok());

    let config = market.configuration().unwrap();
    tick(&mut market, sale.sale_start + config.market_period);

    let clearing = market.auction_clearing_price.unwrap();
    assert_eq!(clearing, sale.reserve_price);
}

#[test]
fn no_bids_results_in_reserve_clearing_price() {
    let mut market = new_market();
    start_sales(&mut market, 50, 2);

    let sale = market.sale_info().unwrap();
    let config = market.configuration().unwrap();

    tick(&mut market, sale.sale_start + config.market_period);

    let clearing = market.auction_clearing_price.unwrap();
    assert_eq!(clearing, sale.reserve_price);
    assert!(market.allocations.clone().is_empty());
}

#[test]
fn winners_pay_clearing_price_not_bid_price() {
    let mut market = new_market();
    start_sales(&mut market, 10, 2);

    let sale = market.sale_info().unwrap();
    let block = sale.sale_start + 1;
    let price = market.current_price(block).unwrap();

    assert!(place_bid(&mut market, block, 1, price).is_ok());
    assert!(place_bid(&mut market, block, 2, price).is_ok());

    let config = market.configuration().unwrap();
    tick(&mut market, sale.sale_start + config.market_period);

    let allocations = market.allocations.clone();
    assert_eq!(allocations.len(), 2);
    for alloc in &allocations {
        assert_eq!(alloc.clearing_price, price.max(sale.reserve_price));
    }
}

// Region issuance tests

#[test]
fn regions_issued_at_renewal_end() {
    let mut market = new_market();
    start_sales(&mut market, 10, 2);

    let sale = market.sale_info().unwrap();
    let block = sale.sale_start + 1;
    let price = market.current_price(block).unwrap();

    assert!(place_bid(&mut market, block, 1, price).is_ok());
    assert!(place_bid(&mut market, block, 2, price).is_ok());

    let config = market.configuration().unwrap();
    let market_end = sale.sale_start + config.market_period;
    let renewal_end = market_end + config.renewal_period;

    tick(&mut market, market_end);

    let actions = tick(&mut market, renewal_end);

    let sell_regions: Vec<_> = actions
        .iter()
        .filter(|a| matches!(a, TickAction::SellRegion { .. }))
        .collect();
    assert_eq!(sell_regions.len(), 2);

    for action in &sell_regions {
        if let TickAction::SellRegion { paid, region_id, region_end, .. } = action {
            assert_eq!(*paid, price.max(sale.reserve_price));
            assert_eq!(region_id.begin, sale.region_begin);
            assert_eq!(region_id.mask, CoreMask::complete());
            assert_eq!(*region_end, sale.region_end);
        }
    }
}

// Renewal tests

#[test]
fn renewal_during_market_phase_fails() {
    let mut market = new_market();
    start_sales(&mut market, 100, 2);

    let sale = market.sale_info().unwrap();
    let block = sale.sale_start + 1;

    // Renewals are not allowed during Market phase — use place_order instead.
    let result = place_renewal(&mut market, block, 1, 0, sale.region_begin, 500);
    assert!(matches!(result, Err(MarketError::WrongPhase)));
}

#[test]
fn renewal_during_renewal_phase_gets_core() {
    let mut market = new_market();
    start_sales(&mut market, 10, 2);

    let sale = market.sale_info().unwrap();
    let config = market.configuration().unwrap();
    let market_end = sale.sale_start + config.market_period;

    // Only 1 bid out of 2 cores — undersubscribed.
    let block = sale.sale_start + 1;
    let price = market.current_price(block).unwrap();
    assert!(place_bid(&mut market, block, 1, price).is_ok());

    tick(&mut market, market_end);

    let result = place_renewal(&mut market, market_end + 1, 2, 0, sale.region_begin, 100);
    assert!(result.is_ok());
    match result.unwrap() {
        RenewalOrderResult::Sold { region_id, displaced, .. } => {
            assert_eq!(region_id.begin, sale.region_begin);
            assert_eq!(region_id.mask, CoreMask::complete());
            assert!(displaced.is_none());
        },
        _ => panic!("Expected Sold during Renewal phase"),
    }
}

#[test]
fn renewal_with_displacement() {
    let mut market = new_market();
    start_sales(&mut market, 10, 2);

    let sale = market.sale_info().unwrap();
    let config = market.configuration().unwrap();
    let market_end = sale.sale_start + config.market_period;

    let block = sale.sale_start + 1;
    let price = market.current_price(block).unwrap();
    assert!(place_bid(&mut market, block, 10, price).is_ok());
    assert!(place_bid(&mut market, block, 20, price).is_ok());

    tick(&mut market, market_end);

    let allocations = market.allocations.clone();
    assert_eq!(allocations.len(), 2);

    let result = place_renewal(&mut market, market_end + 1, 30, 0, sale.region_begin, 100);
    assert!(result.is_ok());
    match result.unwrap() {
        RenewalOrderResult::Sold { displaced, .. } => {
            assert!(displaced.is_some());
            let d = displaced.unwrap();
            assert!(d.who == 10 || d.who == 20);
            // Displaced winner gets clearing_price refunded (excess was already refunded).
            let clearing = market.auction_clearing_price.unwrap();
            assert_eq!(d.refund, clearing);
        },
        _ => panic!("Expected Sold with displacement"),
    }

    let allocations = market.allocations.clone();
    assert_eq!(allocations.len(), 1);
}

#[test]
fn renewal_displacement_protects_renewers_with_rights() {
    let mut market = new_market();
    start_sales(&mut market, 10, 2);

    let sale = market.sale_info().unwrap();
    let config = market.configuration().unwrap();
    let market_end = sale.sale_start + config.market_period;

    let block = sale.sale_start + 1;
    let price = market.current_price(block).unwrap();

    market.renewal_rights.set(10, sale.region_end, 1);

    assert!(place_bid(&mut market, block, 10, price).is_ok());
    assert!(place_bid(&mut market, block, 20, price).is_ok());

    tick(&mut market, market_end);

    let allocations = market.allocations.clone();
    let bidder_10 = allocations.iter().find(|a| a.who == 10).unwrap();
    assert!(bidder_10.has_renewal_rights);
    let bidder_20 = allocations.iter().find(|a| a.who == 20).unwrap();
    assert!(!bidder_20.has_renewal_rights);

    let result = place_renewal(&mut market, market_end + 1, 30, 0, sale.region_begin, 100);
    assert!(result.is_ok());
    match result.unwrap() {
        RenewalOrderResult::Sold { displaced, .. } => {
            let d = displaced.unwrap();
            assert_eq!(d.who, 20);
        },
        _ => panic!("Expected Sold"),
    }
}

#[test]
fn renewal_fails_when_all_winners_have_renewal_rights() {
    let mut market = new_market();
    start_sales(&mut market, 10, 2);

    let sale = market.sale_info().unwrap();
    let config = market.configuration().unwrap();
    let market_end = sale.sale_start + config.market_period;

    let block = sale.sale_start + 1;
    let price = market.current_price(block).unwrap();

    market.renewal_rights.set(10, sale.region_end, 1);
    market.renewal_rights.set(20, sale.region_end, 1);

    assert!(place_bid(&mut market, block, 10, price).is_ok());
    assert!(place_bid(&mut market, block, 20, price).is_ok());

    tick(&mut market, market_end);

    let result = place_renewal(&mut market, market_end + 1, 30, 0, sale.region_begin, 100);
    assert!(matches!(result, Err(MarketError::Unavailable)));
}

#[test]
fn renewal_penalty_applied_when_oversubscribed() {
    let mut market = new_market();
    start_sales(&mut market, 10, 2);

    let sale = market.sale_info().unwrap();
    let config = market.configuration().unwrap();
    let market_end = sale.sale_start + config.market_period;

    let block = sale.sale_start + 1;
    let price = market.current_price(block).unwrap();

    assert!(place_bid(&mut market, block, 10, price).is_ok());
    assert!(place_bid(&mut market, block, 20, price).is_ok());

    tick(&mut market, market_end);

    let clearing = market.auction_clearing_price.unwrap();
    let penalty = part(config.penalty, clearing);
    let expected_renewal_price = clearing + penalty;

    let result = place_renewal(&mut market, market_end + 1, 30, 0, sale.region_begin, 100);
    assert!(result.is_ok());
    match result.unwrap() {
        RenewalOrderResult::Sold { price, .. } => {
            assert_eq!(price, expected_renewal_price);
        },
        _ => panic!("Expected Sold"),
    }
}

#[test]
fn renewal_no_penalty_when_undersubscribed() {
    let mut market = new_market();
    start_sales(&mut market, 10, 3);

    let sale = market.sale_info().unwrap();
    let config = market.configuration().unwrap();
    let market_end = sale.sale_start + config.market_period;

    let block = sale.sale_start + 1;
    let price = market.current_price(block).unwrap();

    assert!(place_bid(&mut market, block, 10, price).is_ok());

    tick(&mut market, market_end);

    let clearing = market.auction_clearing_price.unwrap();

    let result = place_renewal(&mut market, market_end + 1, 30, 0, sale.region_begin, 100);
    assert!(result.is_ok());
    match result.unwrap() {
        RenewalOrderResult::Sold { price, .. } => {
            assert_eq!(price, clearing);
        },
        _ => panic!("Expected Sold"),
    }
}

#[test]
fn renewal_fails_during_settlement() {
    let mut market = new_market();
    start_sales(&mut market, 10, 2);

    let sale = market.sale_info().unwrap();
    let config = market.configuration().unwrap();
    let market_end = sale.sale_start + config.market_period;
    let renewal_end = market_end + config.renewal_period;

    tick(&mut market, market_end);
    tick(&mut market, renewal_end);

    let result = place_renewal(&mut market, renewal_end + 1, 1, 0, sale.region_begin, 100);
    assert!(matches!(result, Err(MarketError::WrongPhase)));
}

// raise_bid tests

#[test]
fn raise_bid_works() {
    let mut market = new_market();
    start_sales(&mut market, 100, 2);

    let sale = market.sale_info().unwrap();
    let block = sale.sale_start + 1;
    let price = market.current_price(block).unwrap();

    let initial_bid = price / 2;
    let result = place_bid(&mut market, block, 1, initial_bid).unwrap();
    let bid_id = match result {
        OrderResult::BidPlaced { id, .. } => id,
        _ => panic!("Expected BidPlaced"),
    };

    let new_price = price;
    let additional =
        market.raise_bid(block, bid_id, &1, new_price).unwrap();
    assert_eq!(additional, new_price - initial_bid);

    let bid = market.bids.iter().find(|b| b.0 == bid_id).unwrap().1;
    assert_eq!(bid.price, new_price);
}

#[test]
fn raise_bid_fails_for_wrong_owner() {
    let mut market = new_market();
    start_sales(&mut market, 100, 2);

    let sale = market.sale_info().unwrap();
    let block = sale.sale_start + 1;
    let price = market.current_price(block).unwrap();

    let result = place_bid(&mut market, block, 1, price / 2).unwrap();
    let bid_id = match result {
        OrderResult::BidPlaced { id, .. } => id,
        _ => panic!("Expected BidPlaced"),
    };

    assert!(matches!(
        market.raise_bid(block, bid_id, &2, price),
        Err(MarketError::BidNotExist)
    ));
}

#[test]
fn raise_bid_fails_for_lower_price() {
    let mut market = new_market();
    start_sales(&mut market, 100, 2);

    let sale = market.sale_info().unwrap();
    let block = sale.sale_start + 1;
    let price = market.current_price(block).unwrap();

    let result = place_bid(&mut market, block, 1, price).unwrap();
    let bid_id = match result {
        OrderResult::BidPlaced { id, .. } => id,
        _ => panic!("Expected BidPlaced"),
    };

    assert!(matches!(
        market.raise_bid(block, bid_id, &1, price / 2),
        Err(MarketError::Overpriced)
    ));
}

#[test]
fn raise_bid_fails_above_current_price() {
    let mut market = new_market();
    start_sales(&mut market, 100, 2);

    let sale = market.sale_info().unwrap();
    let block = sale.sale_start + 1;
    let price = market.current_price(block).unwrap();

    let result = place_bid(&mut market, block, 1, price / 3).unwrap();
    let bid_id = match result {
        OrderResult::BidPlaced { id, .. } => id,
        _ => panic!("Expected BidPlaced"),
    };

    // Try to raise above current descending price.
    assert!(matches!(
        market.raise_bid(block, bid_id, &1, price + 1),
        Err(MarketError::BidTooHigh)
    ));
}

#[test]
fn raise_bid_fails_during_renewal_phase() {
    let mut market = new_market();
    start_sales(&mut market, 100, 2);

    let sale = market.sale_info().unwrap();
    let block = sale.sale_start + 1;
    let price = market.current_price(block).unwrap();

    let result = place_bid(&mut market, block, 1, price / 2).unwrap();
    let bid_id = match result {
        OrderResult::BidPlaced { id, .. } => id,
        _ => panic!("Expected BidPlaced"),
    };

    let config = market.configuration().unwrap();
    tick(&mut market, sale.sale_start + config.market_period);

    assert!(matches!(
        market.raise_bid(block, bid_id, &1, price),
        Err(MarketError::WrongPhase)
    ));
}

// close_bid tests

#[test]
fn close_bid_always_fails() {
    let mut market = new_market();
    start_sales(&mut market, 100, 2);

    let sale = market.sale_info().unwrap();
    let block = sale.sale_start + 1;
    let price = market.current_price(block).unwrap();

    let result = place_bid(&mut market, block, 1, price).unwrap();
    let bid_id = match result {
        OrderResult::BidPlaced { id, .. } => id,
        _ => panic!("Expected BidPlaced"),
    };

    assert!(matches!(
        market.close_bid(bid_id, Some(1)),
        Err(MarketError::BidNotCancellable)
    ));
}

// Descending price tests

#[test]
fn price_descends_linearly_during_market_phase() {
    let mut market = new_market();
    start_sales(&mut market, 100, 2);

    let sale = market.sale_info().unwrap();
    let config = market.configuration().unwrap();

    let price_start =
        market.current_price(sale.sale_start + 1).unwrap();
    let price_mid = market.current_price(
        sale.sale_start + config.market_period / 2,
    )
    .unwrap();
    let price_end = market.current_price(
        sale.sale_start + config.market_period,
    )
    .unwrap();

    assert!(price_start > price_mid);
    assert!(price_mid > price_end);
    assert_eq!(price_end, sale.reserve_price);
}

// Config validation tests

#[test]
fn config_validation_works() {
    let mut cfg = new_config();
    assert!(cfg.validate().is_ok());

    cfg.market_period = 0;
    assert!(cfg.validate().is_err());
}

// Sale rotation tests

#[test]
fn sale_rotation_creates_new_sale_with_correct_parameters() {
    let mut market = new_market();
    start_sales(&mut market, 100, 2);

    let sale1 = market.sale_info().unwrap();
    let config = market.configuration().unwrap();
    let market_end = sale1.sale_start + config.market_period;
    let renewal_end = market_end + config.renewal_period;

    tick(&mut market, market_end);
    tick(&mut market, renewal_end);

    let mut status = market.status().unwrap();
    status.last_committed_timeslice = sale1.region_begin;
    market.set_status(status);

    let rotation_block = renewal_end + 1;
    tick(&mut market, rotation_block);

    let sale2 = market.sale_info().unwrap();
    assert_eq!(sale2.region_begin, sale1.region_end);
    assert_eq!(sale2.region_end, sale1.region_end + config.region_length);
    assert_eq!(sale2.clearing_price, None);
    assert_eq!(sale2.cores_sold, 0);
    assert_eq!(sale2.sale_start, rotation_block);
}

#[test]
fn sale_rotation_cleans_up_previous_state() {
    let mut market = new_market();
    start_sales(&mut market, 100, 2);

    let sale = market.sale_info().unwrap();
    let config = market.configuration().unwrap();
    let block = sale.sale_start + 1;
    let price = market.current_price(block).unwrap();

    assert!(place_bid(&mut market, block, 1, price).is_ok());

    let market_end = sale.sale_start + config.market_period;
    let renewal_end = market_end + config.renewal_period;

    tick(&mut market, market_end);
    tick(&mut market, renewal_end);

    // At this point we have a clearing price and NextBidId > 0.
    assert!(market.auction_clearing_price.is_some());
    assert!(market.next_bid_id > 0);

    let mut status = market.status().unwrap();
    status.last_committed_timeslice = sale.region_begin;
    market.set_status(status);

    tick(&mut market, renewal_end + 1);

    // After rotation, previous sale state is cleaned up.
    assert!(market.auction_clearing_price.is_none());
    assert_eq!(market.next_bid_id, 0);
}

// Full lifecycle test

#[test]
fn full_sale_lifecycle() {
    let config = ConfigRecord {
        advance_notice: 2,
        market_period: 100,
        renewal_period: 10,
        ideal_bulk_proportion: percent(100),
        limit_cores_offered: None,
        region_length: 3,
        penalty: percent(30),
        contribution_timeout: 5,
        ..new_config()
    };
    let mut market = new_market_with_config(config);
    start_sales(&mut market, 100, 2);

    let sale = market.sale_info().unwrap();
    let block = sale.sale_start + 1;
    let current_price =
        market.current_price(block).unwrap();

    // --- Market Phase: 3 bidders compete for 2 cores ---
    let bid1 = current_price;
    let bid2 = current_price - 1;
    let bid3 = current_price - 2;

    assert!(place_bid(&mut market, block, 1, bid1).is_ok());
    assert!(place_bid(&mut market, block, 2, bid2).is_ok());
    assert!(place_bid(&mut market, block, 3, bid3).is_ok());

    // --- Auction settles ---
    let market_end = sale.sale_start + config.market_period;
    let settle_actions = tick(&mut market, market_end);

    let clearing = market.auction_clearing_price.unwrap();
    assert_eq!(clearing, bid2.max(sale.reserve_price));

    // 2 winners, 1 loser.
    let allocations = market.allocations.clone();
    assert_eq!(allocations.len(), 2);

    let refund_count = settle_actions
        .iter()
        .filter(|a| matches!(a, TickAction::Refund { .. }))
        .count();
    assert!(refund_count >= 1);

    // --- Renewal Phase: renewer displaces an auction winner ---
    let result = place_renewal(&mut market, market_end + 1, 100, 0, sale.region_begin, 500);
    assert!(result.is_ok());
    match result.unwrap() {
        RenewalOrderResult::Sold { displaced, price: renewal_price, .. } => {
            assert!(displaced.is_some());
            let penalty = part(config.penalty, clearing);
            assert_eq!(renewal_price, clearing + penalty);
            // Displaced gets clearing_price refund.
            assert_eq!(displaced.unwrap().refund, clearing);
        },
        _ => panic!("Expected Sold with displacement"),
    }

    // --- Renewal ends: regions issued for remaining allocation ---
    let renewal_end = market_end + config.renewal_period;
    let finalize_actions = tick(&mut market, renewal_end);

    let region_count = finalize_actions
        .iter()
        .filter(|a| matches!(a, TickAction::SellRegion { .. }))
        .count();
    assert_eq!(region_count, 1);

    assert_eq!(market.current_phase(), Some(SalePhase::Settlement));

    // --- Settlement => Next sale ---
    let mut status = market.status().unwrap();
    status.last_committed_timeslice = sale.region_begin;
    market.set_status(status);

    tick(&mut market, renewal_end + 1);
    assert_eq!(market.current_phase(), Some(SalePhase::Market));

    let sale2 = market.sale_info().unwrap();
    assert_eq!(sale2.region_begin, sale.region_end);
}

// MarketState tests

#[test]
fn market_state_current_price_returns_none_without_sale() {
    let mut market = new_market();
    assert_eq!(market.current_price(1), None);
}

#[test]
fn market_state_returns_clearing_price_after_settlement() {
    let mut market = new_market();
    start_sales(&mut market, 50, 2);

    let sale = market.sale_info().unwrap();
    let config = market.configuration().unwrap();
    let market_end = sale.sale_start + config.market_period;

    let block = sale.sale_start + 1;
    let price = market.current_price(block).unwrap();
    assert!(place_bid(&mut market, block, 1, price).is_ok());

    tick(&mut market, market_end);

    let clearing = market.auction_clearing_price.unwrap();
    let reported_price =
        market.current_price(market_end + 1).unwrap();
    assert_eq!(reported_price, clearing);
}

// Event tests

#[test]
fn events_emitted_on_bid_placed() {
    let mut market = new_market();
    start_sales(&mut market, 100, 2);
    market.events.clear();

    let sale = market.sale_info().unwrap();
    let block = sale.sale_start + 1;
    let price = market.current_price(block).unwrap();

    assert!(place_bid(&mut market, block, 1, price).is_ok());

    let events = market.events.clone();
    assert!(events.iter().any(|e| matches!(
        e,
        Event::BidPlaced {
            who: 1,
            bid_id: 0,
            ..
        }
    )));
}

#[test]
fn events_emitted_on_phase_transitions() {
    let mut market = new_market();
    start_sales(&mut market, 100, 2);

    let sale = market.sale_info().unwrap();
    let config = market.configuration().unwrap();
    let market_end = sale.sale_start + config.market_period;

    market.events.clear();
    tick(&mut market, market_end);

    let events = market.events.clone();
    assert!(events.iter().any(|e| matches!(
        e,
        Event::PhaseTransitioned {
            from: SalePhase::Market,
            to: SalePhase::Renewal,
        }
    )));
    assert!(events.iter().any(|e| matches!(
        e,
        Event::AuctionSettled { .. }
    )));
}

#[test]
fn events_emitted_on_bid_raised() {
    let mut market = new_market();
    start_sales(&mut market, 100, 2);

    let sale = market.sale_info().unwrap();
    let block = sale.sale_start + 1;
    let price = market.current_price(block).unwrap();

    let bid_id = match place_bid(&mut market, block, 1, price / 2).unwrap() {
        OrderResult::BidPlaced { id, .. } => id,
        _ => panic!("Expected BidPlaced"),
    };

    market.events.clear();
    assert!(market.raise_bid(block, bid_id, &1, price).is_ok());

    let events = market.events.clone();
    assert!(events.iter().any(|e| matches!(
        e,
        Event::BidRaised {
            who: 1,
            bid_id: 0,
            ..
        }
    )));
}

#[test]
fn events_emitted_on_displacement() {
    let mut market = new_market();
    start_sales(&mut market, 10, 2);

    let sale = market.sale_info().unwrap();
    let config = market.configuration().unwrap();
    let market_end = sale.sale_start + config.market_period;

    let block = sale.sale_start + 1;
    let price = market.current_price(block).unwrap();

    assert!(place_bid(&mut market, block, 10, price).is_ok());
    assert!(place_bid(&mut market, block, 20, price).is_ok());

    tick(&mut market, market_end);
    market.events.clear();

    assert!(place_renewal(&mut market, market_end + 1, 30, 0, sale.region_begin, 100).is_ok());

    let events = market.events.clone();
    assert!(events
        .iter()
        .any(|e| matches!(
            e,
            Event::BidDisplaced { .. }
        )));
    assert!(events
        .iter()
        .any(|e| matches!(
            e,
            Event::RenewalExercised { who: 30, .. }
        )));
}

// Refusals

fn raw_market() -> Pallet<Test> {
    Pallet::new(TestCoreCountProvider, TestRenewalRights::default(), vec![0; 32])
}

#[test]
fn nothing_works_before_the_market_is_configured() {
    let mut market = raw_market();
    assert!(matches!(market.start_sales(0, 100, 2), Err(MarketError::Uninitialized)));
    assert!(matches!(
        place_renewal(&mut market, 1, 1, 0, 0, 100),
        Err(MarketError::Uninitialized)
    ));
    assert!(tick(&mut market, 1000).is_empty());
    assert_eq!(market.current_phase(), None);
    assert_eq!(market.status(), None);
}

#[test]
fn renewals_need_a_sale() {
    let mut market = new_market();
    assert!(matches!(place_renewal(&mut market, 1, 1, 0, 0, 100), Err(MarketError::NoSales)));
    start_sales(&mut market, 100, 2);
    market.current_phase = None;
    assert!(matches!(
        place_renewal(&mut market, 1, 1, 0, 0, 100),
        Err(MarketError::Uninitialized)
    ));
    market.current_phase = Some(SalePhase::Market);
    market.sale_info = None;
    assert!(matches!(place_bid(&mut market, 1, 1, 100), Err(MarketError::NoSales)));
    assert!(matches!(market.raise_bid(1, 0, &1, 100), Err(MarketError::NoSales)));
}

#[test]
fn raising_an_unknown_bid_fails() {
    let mut market = new_market();
    start_sales(&mut market, 100, 2);
    assert!(matches!(market.raise_bid(1, 7, &1, 100), Err(MarketError::BidNotExist)));
    assert!(matches!(market.raise_bid(1, 0, &1, 100), Err(MarketError::BidNotExist)));
}

#[test]
fn raising_to_the_same_price_fails() {
    let mut market = new_market();
    start_sales(&mut market, 100, 2);
    assert!(place_bid(&mut market, 1, 1, 150).is_ok());
    assert!(matches!(market.raise_bid(1, 0, &1, 150), Err(MarketError::Overpriced)));
    assert_eq!(market.raise_bid(1, 0, &1, 151).unwrap(), 1);
}

#[test]
fn errors_have_names() {
    assert_eq!(MarketError::NoSales.name(), "NoSales");
    assert_eq!(MarketError::Overpriced.name(), "Overpriced");
    assert_eq!(MarketError::BidNotExist.name(), "BidNotExist");
    assert_eq!(MarketError::Uninitialized.name(), "Uninitialized");
    assert_eq!(MarketError::TooEarly.name(), "TooEarly");
    assert_eq!(MarketError::Unavailable.name(), "Unavailable");
    assert_eq!(MarketError::SoldOut.name(), "SoldOut");
    assert_eq!(MarketError::WrongPhase.name(), "WrongPhase");
    assert_eq!(MarketError::BidTooHigh.name(), "BidTooHigh");
    assert_eq!(MarketError::BidNotCancellable.name(), "BidNotCancellable");
}

// Starting sales

#[test]
fn start_sales_lays_out_the_first_sale() {
    let mut market = new_market();
    let started = market.start_sales(9, 100, 4).unwrap();
    assert_eq!(started.old_sale.region_begin, 5);
    assert_eq!(started.old_sale.region_end, 8);
    assert_eq!(started.new_sale.region_begin, 8);
    assert_eq!(started.new_sale.region_end, 11);
    assert_eq!(started.new_sale.cores_offered, 4);
    assert_eq!(started.new_sale.ideal_cores_sold, 4);
    assert_eq!(started.new_prices.reserve_price, 100);
    assert_eq!(started.new_prices.target_price, 100);
    assert_eq!(started.start_price, 200);
    let status = market.status().unwrap();
    assert_eq!(status.core_count, 4);
    assert_eq!(status.private_pool_size, 0);
    assert_eq!(status.system_pool_size, 0);
    assert_eq!(status.last_committed_timeslice, 4);
    assert_eq!(status.last_timeslice, 4);
    assert!(matches!(
        market.events[0],
        Event::SaleInitialized { sale_start: 9, start_price: 200, cores_offered: 4, .. }
    ));
}

// Weights

struct Heavy;

impl coretime_market::pallet::WeightInfo for Heavy {
    fn settlement() -> coretime_market::weight::Weight {
        coretime_market::weight::Weight { ref_time: 5, proof_size: 5 }
    }

    fn conclusion() -> coretime_market::weight::Weight {
        coretime_market::weight::Weight { ref_time: 6, proof_size: 0 }
    }

    fn rotation() -> coretime_market::weight::Weight {
        coretime_market::weight::Weight { ref_time: 7, proof_size: 0 }
    }

    fn place_order() -> coretime_market::weight::Weight {
        coretime_market::weight::Weight::zero()
    }

    fn raise_bid() -> coretime_market::weight::Weight {
        coretime_market::weight::Weight::zero()
    }

    fn place_renewal_order_market() -> coretime_market::weight::Weight {
        coretime_market::weight::Weight::zero()
    }

    fn place_renewal_order_renewal() -> coretime_market::weight::Weight {
        coretime_market::weight::Weight::zero()
    }

    fn place_renewal_order_displacement() -> coretime_market::weight::Weight {
        coretime_market::weight::Weight::zero()
    }

    fn settle_auction() -> coretime_market::weight::Weight {
        Self::settlement()
    }

    fn finalize_sale() -> coretime_market::weight::Weight {
        Self::conclusion()
    }

    fn rotate_sale() -> coretime_market::weight::Weight {
        Self::rotation()
    }
}

struct HeavyTest;

impl Config for HeavyTest {
    type WeightInfo = Heavy;
    type CoreCountProvider = TestCoreCountProvider;
    type RenewalRights = TestRenewalRights;

    fn period() -> u64 {
        2
    }

    fn bid_limit() -> u32 {
        1
    }

    fn timeslice_period() -> u64 {
        2
    }

    fn max_bids() -> u32 {
        1
    }
}

#[test]
fn phases_wait_for_weight() {
    let mut market: Pallet<HeavyTest> =
        Pallet::new(TestCoreCountProvider, TestRenewalRights::default(), vec![0; 32]);
    market.set_configuration(new_config());
    assert!(market.start_sales(0, 100, 2).is_ok());
    let limit = |n: u64| {
        WeightMeter::with_limit(coretime_market::weight::Weight { ref_time: n, proof_size: n })
    };
    let mut meter = limit(4);
    assert!(market.tick(20, &mut meter).is_empty());
    assert_eq!(market.current_phase(), Some(SalePhase::Market));
    assert_eq!(meter.consumed.ref_time, 0);
    let mut meter = limit(5);
    assert!(!market.tick(20, &mut meter).is_empty());
    assert_eq!(market.current_phase(), Some(SalePhase::Renewal));
    assert_eq!(meter.consumed.ref_time, 5);
    let mut meter = limit(5);
    market.tick(30, &mut meter);
    assert_eq!(market.current_phase(), Some(SalePhase::Renewal));
    let mut meter = limit(6);
    market.tick(30, &mut meter);
    assert_eq!(market.current_phase(), Some(SalePhase::Settlement));
    let mut status = market.status().unwrap();
    status.last_committed_timeslice = 4;
    market.set_status(status);
    let mut meter = limit(6);
    market.tick(31, &mut meter);
    assert_eq!(market.current_phase(), Some(SalePhase::Settlement));
    let mut meter = limit(7);
    market.tick(31, &mut meter);
    assert_eq!(market.current_phase(), Some(SalePhase::Market));
}

#[test]
fn default_weights_are_zero() {
    let zero = coretime_market::weight::Weight::zero();
    assert_eq!(<() as coretime_market::pallet::WeightInfo>::place_order(), zero);
    assert_eq!(<() as coretime_market::pallet::WeightInfo>::raise_bid(), zero);
    assert_eq!(<() as coretime_market::pallet::WeightInfo>::place_renewal_order_market(), zero);
    assert_eq!(<() as coretime_market::pallet::WeightInfo>::place_renewal_order_renewal(), zero);
    assert_eq!(
        <() as coretime_market::pallet::WeightInfo>::place_renewal_order_displacement(),
        zero
    );
    assert_eq!(<() as coretime_market::pallet::WeightInfo>::settle_auction(), zero);
    assert_eq!(<() as coretime_market::pallet::WeightInfo>::finalize_sale(), zero);
    assert_eq!(<() as coretime_market::pallet::WeightInfo>::rotate_sale(), zero);
}

// What holds of every sale

#[test]
fn ticks_ask_for_renewals_after_the_auction() {
    let mut market = new_market();
    start_sales(&mut market, 10, 2);
    assert!(place_bid(&mut market, 1, 1, 5).is_ok());
    let actions = tick(&mut market, 20);
    assert_eq!(
        actions,
        vec![TickAction::Refund { amount: 5, who: 1 }, TickAction::ProcessRenewals]
    );
    assert!(market.bids.is_empty());
    assert!(tick(&mut market, 20).is_empty());
}

#[test]
fn all_renewals_cost_the_same_and_get_cores_of_their_own() {
    let mut market = new_market();
    start_sales(&mut market, 10, 3);
    for who in 1..=3 {
        assert!(place_bid(&mut market, 1, who, 15 + who).is_ok());
    }
    tick(&mut market, 20);
    let mut cores: Vec<u16> = Vec::new();
    for who in 10..13 {
        match place_renewal(&mut market, 21, who, 0, 4, 100).unwrap() {
            RenewalOrderResult::Sold { price, next_renewal_price, region_id, displaced, .. } => {
                // Thirty hundredths of the clearing price of 16, to the nearest.
                assert_eq!(price, 21);
                assert_eq!(next_renewal_price, 21);
                // The lowest bidder goes first.
                assert_eq!(displaced.unwrap().who, who - 9);
                cores.push(region_id.core);
            },
            _ => panic!("Expected Sold"),
        }
    }
    cores.sort();
    assert_eq!(cores, vec![0, 1, 2]);
    assert!(matches!(
        place_renewal(&mut market, 21, 13, 0, 4, 100),
        Err(MarketError::Unavailable)
    ));
    let actions = tick(&mut market, 30);
    assert!(actions.is_empty());
    assert_eq!(market.sale_info().unwrap().cores_sold, 3);
    assert_eq!(market.renewal_count, 0);
}

#[test]
fn renewals_of_unsold_cores_count_as_sold() {
    let mut market = new_market();
    start_sales(&mut market, 10, 3);
    assert!(place_bid(&mut market, 1, 1, 20).is_ok());
    tick(&mut market, 20);
    assert_eq!(market.sale_info().unwrap().cores_sold, 1);
    match place_renewal(&mut market, 21, 5, 0, 4, 100).unwrap() {
        RenewalOrderResult::Sold { region_id, effective_to, .. } => {
            assert_eq!(region_id.core, 1);
            assert_eq!(effective_to, 7);
        },
        _ => panic!("Expected Sold"),
    }
    tick(&mut market, 30);
    assert_eq!(market.sale_info().unwrap().cores_sold, 2);
}

#[test]
fn renewals_without_a_clearing_price_cost_the_reserve_price() {
    let mut market = new_market();
    start_sales(&mut market, 10, 2);
    market.current_phase = Some(SalePhase::Renewal);
    match place_renewal(&mut market, 21, 5, 0, 4, 100).unwrap() {
        RenewalOrderResult::Sold { price, .. } => assert_eq!(price, 10),
        _ => panic!("Expected Sold"),
    }
}

#[test]
fn bids_are_binding() {
    let mut market = new_market();
    start_sales(&mut market, 100, 2);
    assert!(place_bid(&mut market, 1, 1, 120).is_ok());
    assert!(place_bid(&mut market, 1, 2, 130).is_ok());
    assert!(market.raise_bid(1, 0, &1, 140).is_ok());
    let prices: Vec<(u32, u64, u64)> =
        market.bids.iter().map(|b| (b.0, b.1.who, b.1.price)).collect();
    assert_eq!(prices, vec![(0, 1, 140), (1, 2, 130)]);
}

#[test]
fn settings_are_read_back() {
    let mut market = new_market();
    assert_eq!(market.configuration(), Some(new_config()));
    let config = coretime_market::pallet::benchmark_config();
    market.set_configuration(config);
    assert_eq!(market.configuration(), Some(config));
    assert_eq!(config.penalty, percent(10));
    assert_eq!(config.target_consumption_rate, percent(90));
    start_sales(&mut market, 100, 2);
    let mut sale = market.sale_info().unwrap();
    sale.cores_sold = 1;
    market.set_sale_info(sale);
    assert_eq!(market.sale_info(), Some(sale));
}

#[test]
fn price_is_unknown_after_a_settlement_phase_without_an_auction() {
    let mut market = new_market();
    start_sales(&mut market, 100, 2);
    market.current_phase = Some(SalePhase::Settlement);
    assert_eq!(market.current_price(5), None);
    market.current_phase = None;
    assert_eq!(market.current_price(5), None);
}

#[test]
fn displaced_winners_are_made_whole() {
    let mut market = new_market();
    start_sales(&mut market, 10, 1);
    assert!(place_bid(&mut market, 1, 1, 18).is_ok());
    assert!(place_bid(&mut market, 1, 2, 15).is_ok());
    let actions = tick(&mut market, 20);
    assert_eq!(
        actions,
        vec![TickAction::Refund { amount: 15, who: 2 }, TickAction::ProcessRenewals]
    );
    assert_eq!(market.auction_clearing_price, Some(18));
    match place_renewal(&mut market, 21, 5, 0, 4, 100).unwrap() {
        RenewalOrderResult::Sold { displaced, .. } => {
            let d = displaced.unwrap();
            assert_eq!((d.who, d.refund, d.bid_id), (1, 18, 0));
        },
        _ => panic!("Expected Sold"),
    }
}

#[test]
fn winners_renew_without_a_penalty() {
    let mut market = new_market();
    for when in 0..10 {
        market.renewal_rights.set(10, when, 1);
    }
    start_sales(&mut market, 10, 2);
    assert!(place_bid(&mut market, 1, 10, 20).is_ok());
    assert!(place_bid(&mut market, 1, 20, 10).is_ok());
    tick(&mut market, 20);
    assert_eq!(market.auction_clearing_price, Some(10));
    match place_renewal(&mut market, 21, 10, 0, 4, 100).unwrap() {
        RenewalOrderResult::Sold { price, next_renewal_price, displaced, .. } => {
            assert_eq!(price, 10);
            assert_eq!(next_renewal_price, 10);
            assert_eq!(displaced.unwrap().who, 20);
        },
        _ => panic!("Expected Sold"),
    }
    tick(&mut market, 30);
    assert!(market.winners.is_empty());
}

#[test]
fn displaced_winners_renew_without_a_penalty_and_losers_with_one() {
    let mut market = new_market();
    start_sales(&mut market, 10, 2);
    assert!(place_bid(&mut market, 1, 1, 20).is_ok());
    assert!(place_bid(&mut market, 1, 2, 19).is_ok());
    assert!(place_bid(&mut market, 1, 3, 18).is_ok());
    tick(&mut market, 20);
    let mut price_for = |who| match place_renewal(&mut market, 21, who, 0, 4, 100).unwrap() {
        RenewalOrderResult::Sold { price, displaced, .. } => (price, displaced.unwrap().who),
        _ => panic!("Expected Sold"),
    };
    // The loser pays thirty hundredths more than 19, to the nearest.
    assert_eq!(price_for(3), (25, 2));
    assert_eq!(price_for(2), (19, 1));
}

#[test]
fn no_more_cores_are_sold_than_the_limit() {
    let mut config = new_config();
    config.limit_cores_offered = Some(2);
    let mut market = new_market_with_config(config);
    start_sales(&mut market, 10, 10);
    assert_eq!(market.sale_info().unwrap().cores_offered, 2);
    assert!(place_bid(&mut market, 1, 1, 20).is_ok());
    tick(&mut market, 20);
    match place_renewal(&mut market, 21, 5, 0, 4, 100).unwrap() {
        RenewalOrderResult::Sold { region_id, .. } => assert_eq!(region_id.core, 1),
        _ => panic!("Expected Sold"),
    }
    assert!(matches!(
        place_renewal(&mut market, 21, 6, 0, 4, 100),
        Err(MarketError::Unavailable)
    ));
}

#[test]
fn funds_of_each_account_are_conserved_over_a_sale() {
    let mut market = new_market();
    start_sales(&mut market, 10, 3);
    let bids = [(1u64, 20u64), (2, 18), (1, 15), (3, 12), (2, 11)];
    for (who, price) in bids {
        assert!(place_bid(&mut market, 1, who, price).is_ok());
    }
    let mut back = [0u64; 4];
    for action in tick(&mut market, 20) {
        if let TickAction::Refund { amount, who } = action {
            back[who as usize] += amount;
        }
    }
    let mut cores = Vec::new();
    for who in [50, 51] {
        match place_renewal(&mut market, 21, who, 0, 4, 100).unwrap() {
            RenewalOrderResult::Sold { region_id, displaced, .. } => {
                let d = displaced.unwrap();
                back[d.who as usize] += d.refund;
                cores.push(region_id.core);
            },
            _ => panic!("Expected Sold"),
        }
    }
    for action in tick(&mut market, 30) {
        if let TickAction::SellRegion { owner, paid, region_id, .. } = action {
            back[owner as usize] += paid;
            cores.push(region_id.core);
        }
    }
    for who in 1..4u64 {
        let locked: u64 = bids.iter().filter(|b| b.0 == who).map(|b| b.1).sum();
        assert_eq!(back[who as usize], locked);
    }
    cores.sort();
    assert_eq!(cores, vec![0, 1, 2]);
}

#[test]
fn nothing_of_the_old_sale_is_left() {
    let mut market = new_market();
    start_sales(&mut market, 10, 2);
    assert!(place_bid(&mut market, 1, 1, 20).is_ok());
    assert!(place_bid(&mut market, 1, 2, 20).is_ok());
    tick(&mut market, 20);
    assert!(place_renewal(&mut market, 21, 5, 0, 4, 100).is_ok());
    tick(&mut market, 30);
    let mut status = market.status().unwrap();
    status.last_committed_timeslice = market.sale_info().unwrap().region_begin;
    market.set_status(status);
    tick(&mut market, 31);
    assert_eq!(market.current_phase(), Some(SalePhase::Market));
    assert!(market.bids.is_empty() && market.allocations.is_empty() && market.winners.is_empty());
    assert_eq!((market.next_bid_id, market.renewal_count), (0, 0));
    assert_eq!(market.auction_clearing_price, None);
    let sale = market.sale_info().unwrap();
    assert_eq!((sale.cores_sold, sale.clearing_price), (0, None));
    match place_bid(&mut market, 31, 1, 5).unwrap() {
        OrderResult::BidPlaced { id, .. } => assert_eq!(id, 0),
        _ => panic!("Expected BidPlaced"),
    }
}

#[test]
fn equal_bids_are_ranked_in_the_order_of_their_keys() {
    let mut market = new_market();
    market.parent_hash = vec![];
    start_sales(&mut market, 10, 6);
    for who in 0..6 {
        assert!(place_bid(&mut market, 1, who, 15).is_ok());
    }
    tick(&mut market, 20);
    let winners: Vec<(u32, u16)> = market.allocations.iter().map(|a| (a.bid_id, a.core)).collect();
    assert_eq!(winners, vec![(0, 0), (4, 1), (2, 2), (5, 3), (1, 4), (3, 5)]);
}

#[test]
fn equal_bids_are_shuffled_from_the_order_of_their_keys() {
    let mut market = new_market();
    start_sales(&mut market, 10, 2);
    for who in 0..3 {
        assert!(place_bid(&mut market, 1, who, 15).is_ok());
    }
    tick(&mut market, 20);
    let winners: Vec<u32> = market.allocations.iter().map(|a| a.bid_id).collect();
    assert_eq!(winners, vec![2, 1]);
}

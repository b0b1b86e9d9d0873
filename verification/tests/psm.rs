//! How modules and accounts are set up for measuring.

use coretime_market::assets::{
    asset_hub_location, pusd, pusd_location, AssetRateBenchmarkHelper,
    AssetTxPaymentBenchmarkHelper, SetupStep,
};
use coretime_market::psm::{
    add_external_asset, failure, mint, redeem, remove_external_asset, set_asset_ceiling_weight,
    set_asset_status, set_max_debt, set_minting_fee, set_redemption_fee, setup_assets,
    took_effect, AssetPair, BenchmarkHelper, CircuitBreakerLevel, PsmInfo, PsmState, Reading, Step,
};
use coretime_market::table::Table;
use coretime_market::xcm::{Fungibility, Junction, Location};

struct Thousands;

impl BenchmarkHelper for Thousands {
    fn id_of(number: u32) -> u64 {
        number as u64 * 1000
    }

    fn get_asset_id(number: u32) -> u64 {
        Self::id_of(number)
    }
}

fn state() -> PsmState {
    PsmState {
        assets: Table::new(),
        psms: Table::new(),
        external_assets: Table::new(),
        asset_ceiling_weight: Table::new(),
        psm_debt: Table::new(),
        external_decimals: Table::new(),
    }
}

fn pair(external: u64) -> AssetPair {
    AssetPair { internal: 99_000, external }
}

#[test]
fn module_is_set_up_with_external_assets() {
    let mut s = state();
    let done = setup_assets::<Thousands>(&mut s, 3, 42);
    assert_eq!(done.internal_asset, 99_000);
    assert_eq!(done.target_external, 102_000);
    assert!(done.created_internal && done.created_psm && done.created_target);
    assert_eq!(s.assets.get(99_000), Some(6));
    assert_eq!(s.assets.get(102_000), Some(6));
    assert_eq!(s.assets.get(100_000), None);
    let info = PsmInfo {
        fee_destination: 42,
        max_debt: 4_294_967_295_000_000,
        internal_decimals: 6,
        external_count: 3,
    };
    assert_eq!(s.psms.get(99_000), Some(info));
    for id in [100_000, 101_000] {
        assert_eq!(s.external_assets.get(pair(id)), Some(CircuitBreakerLevel::AllEnabled));
        let one = sp_arithmetic::Permill::from_percent(1).deconstruct();
        assert_eq!(s.asset_ceiling_weight.get(pair(id)), Some(one));
        assert_eq!(s.psm_debt.get(pair(id)), Some(1));
        assert_eq!(s.external_decimals.get(pair(id)), None);
    }
    assert_eq!(s.external_assets.get(pair(102_000)), Some(CircuitBreakerLevel::AllEnabled));
    assert_eq!(s.asset_ceiling_weight.get(pair(102_000)), Some(1_000_000));
    assert_eq!(s.psm_debt.get(pair(102_000)), None);
    assert_eq!(s.external_decimals.get(pair(102_000)), Some(6));
    assert_eq!(s.external_assets.get(pair(103_000)), None);
}

#[test]
fn what_exists_is_not_created_again() {
    let mut s = state();
    setup_assets::<Thousands>(&mut s, 3, 42);
    let done = setup_assets::<Thousands>(&mut s, 1, 43);
    assert!(!done.created_internal && !done.created_psm && done.created_target);
    let info = s.psms.get(99_000).unwrap();
    assert_eq!(info.fee_destination, 42);
    assert_eq!(info.external_count, 1);
    assert_eq!(s.asset_ceiling_weight.get(pair(100_000)), Some(1_000_000));
}

#[test]
fn module_is_set_up_without_external_assets() {
    let mut s = state();
    let done = setup_assets::<Thousands>(&mut s, 0, 42);
    assert_eq!(done.target_external, done.internal_asset);
    assert!(!done.created_target);
    assert_eq!(s.psms.get(99_000).unwrap().external_count, 0);
    assert_eq!(s.external_assets.get(pair(100_000)), None);
    assert_eq!(s.external_decimals.get(pair(99_000)), Some(6));
}

#[test]
fn minting_and_redeeming_are_measured_with_covered_amounts() {
    assert_eq!(
        mint(4, 100),
        vec![
            Step::SetUp { externals: 4 },
            Step::Fund { amount: 2000 },
            Step::Mint { amount: 1000 },
        ]
    );
    assert_eq!(
        redeem(100),
        vec![
            Step::SetUp { externals: 1 },
            Step::Fund { amount: 2000 },
            Step::Mint { amount: 1000 },
            Step::Redeem { amount: 100 },
        ]
    );
    assert_eq!(redeem(u64::MAX)[1], Step::Fund { amount: u64::MAX });
}

#[test]
fn settings_are_measured_on_one_external_asset() {
    let percent = |n| sp_arithmetic::Permill::from_percent(n).deconstruct();
    let after_setup = |steps: Vec<Step>| {
        assert_eq!(steps.len(), 2);
        assert_eq!(steps[0], Step::SetUp { externals: 1 });
        steps[1]
    };
    assert_eq!(after_setup(set_minting_fee()), Step::SetMintingFee { fee: percent(2) });
    assert_eq!(after_setup(set_redemption_fee()), Step::SetRedemptionFee { fee: percent(2) });
    assert_eq!(after_setup(set_max_debt()), Step::SetMaxDebt { amount: 123 });
    assert_eq!(
        after_setup(set_asset_status()),
        Step::SetAssetStatus { status: CircuitBreakerLevel::MintingDisabled }
    );
    assert_eq!(
        after_setup(set_asset_ceiling_weight()),
        Step::SetAssetCeilingWeight { weight: percent(50) }
    );
    assert_eq!(
        add_external_asset(),
        vec![
            Step::SetUp { externals: 0 },
            Step::CreateAsset { number: 100, decimals: 6 },
            Step::AddExternalAsset { number: 100 },
        ]
    );
    assert_eq!(
        remove_external_asset(),
        vec![Step::SetUp { externals: 1 }, Step::ClearDebt, Step::RemoveExternalAsset]
    );
}

#[test]
fn measurements_fail_and_take_effect() {
    assert_eq!(failure(Step::Fund { amount: 1 }), Some("Failed to fund caller"));
    assert_eq!(failure(Step::Mint { amount: 1 }), Some("Failed to setup reserve via mint"));
    assert_eq!(failure(Step::SetUp { externals: 1 }), None);
    let reserve = |before, after| Reading::Reserve { before, after };
    assert!(took_effect(Step::Mint { amount: 1 }, reserve(1, 2)));
    assert!(!took_effect(Step::Mint { amount: 1 }, reserve(2, 2)));
    assert!(took_effect(Step::Redeem { amount: 1 }, reserve(2, 1)));
    assert!(!took_effect(Step::Redeem { amount: 1 }, reserve(2, 2)));
    assert!(!took_effect(Step::Redeem { amount: 1 }, Reading::MaxDebt { amount: 0 }));
}

#[test]
fn settings_are_read_back_after_a_measurement() {
    let last = |steps: Vec<Step>| steps[steps.len() - 1];
    let minting = last(set_minting_fee());
    assert!(took_effect(minting, Reading::MintingFee { fee: 20_000 }));
    assert!(!took_effect(minting, Reading::MintingFee { fee: 0 }));
    assert!(!took_effect(minting, Reading::RedemptionFee { fee: 20_000 }));
    let redemption = last(set_redemption_fee());
    assert!(took_effect(redemption, Reading::RedemptionFee { fee: 20_000 }));
    assert!(!took_effect(redemption, Reading::RedemptionFee { fee: 1 }));
    let debt = last(set_max_debt());
    assert!(took_effect(debt, Reading::MaxDebt { amount: 123 }));
    assert!(!took_effect(debt, Reading::MaxDebt { amount: 124 }));
    let status = last(set_asset_status());
    let read = |status| Reading::AssetStatus { status };
    assert!(took_effect(status, read(Some(CircuitBreakerLevel::MintingDisabled))));
    assert!(!took_effect(status, read(Some(CircuitBreakerLevel::AllEnabled))));
    assert!(!took_effect(status, read(None)));
    let weight = last(set_asset_ceiling_weight());
    assert!(took_effect(weight, Reading::AssetCeilingWeight { weight: 500_000 }));
    assert!(!took_effect(weight, Reading::AssetCeilingWeight { weight: 0 }));
    let approved = |approved| Reading::Approved { approved };
    assert!(took_effect(last(add_external_asset()), approved(true)));
    assert!(!took_effect(last(add_external_asset()), approved(false)));
    assert!(took_effect(last(remove_external_asset()), approved(false)));
    assert!(!took_effect(last(remove_external_asset()), approved(true)));
    assert!(!took_effect(Step::ClearDebt, approved(true)));
}

#[test]
fn tables_keep_the_last_value() {
    let mut t: Table<u64, u8> = Table::new();
    assert!(!t.contains_key(1));
    t.insert(1, 10);
    t.insert(2, 20);
    t.insert(1, 11);
    assert!(t.contains_key(1));
    assert_eq!(t.get(1), Some(11));
    assert_eq!(t.get(2), Some(20));
    assert_eq!(t.get(3), None);
}

#[test]
fn places_of_assets() {
    let hub = Location::new(1, vec![Junction::Parachain(1000)]);
    assert!(asset_hub_location().same(&hub));
    let stable = Location::new(
        1,
        vec![
            Junction::Parachain(1000),
            Junction::PalletInstance(50),
            Junction::GeneralIndex(50000342),
        ],
    );
    assert!(pusd_location().same(&stable));
    assert!(pusd().id.same(&stable));
    assert_eq!(pusd().fun, Fungibility::Fungible(10_000_000));
    let (a, b) = AssetTxPaymentBenchmarkHelper::create_asset_id_parameter(1);
    assert!(a.same(&b));
    assert_eq!(a.interior[2], Junction::GeneralIndex(1337));
    let kind = AssetRateBenchmarkHelper::create_asset_kind(7);
    assert_eq!(kind.parents, 1);
    assert_eq!(kind.interior, vec![Junction::Parachain(1000), Junction::GeneralIndex(7)]);
}

#[test]
fn accounts_are_set_up_for_fees() {
    let rest = |amount| {
        vec![SetupStep::MintAsset { amount }, SetupStep::MintNative { amount }]
    };
    let mut expected = vec![SetupStep::CreateRate { rate: 1 }];
    expected.extend(rest(50_000));
    assert_eq!(AssetTxPaymentBenchmarkHelper::setup_balances_and_pool(true, 5), expected);
    let mut expected = vec![
        SetupStep::CreateRate { rate: 1 },
        SetupStep::CreateAsset { is_sufficient: true, min_balance: 1 },
    ];
    expected.extend(rest(50_000));
    assert_eq!(AssetTxPaymentBenchmarkHelper::setup_balances_and_pool(false, 5), expected);
}

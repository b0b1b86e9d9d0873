//! How a peg stability module is set up for measuring it, and with what amounts.
//!
//! A peg stability module swaps external assets for an internal one. It is
//! measured with a number of approved external assets, of which the last is
//! the one that is swapped.

use crate::arithmetic;
use crate::price;
use crate::records::{AccountId, Balance};
use crate::table::{Key, Table};
use vstd::prelude::*;

verus! {

/// The identity of an asset.
pub type AssetId = u64;

/// A number of millionths.
pub type Permill = u32;

/// The number of the first external asset, chosen so that none is the internal one.
pub const ASSET_ID_OFFSET: u32 = 100;

/// The number of the internal asset.
pub const INTERNAL_ID_OFFSET: u32 = 99;

/// The decimals of all assets.
pub const DECIMALS: u8 = 6;

/// An internal asset and an external one.
#[derive(Clone, Copy, Debug, PartialEq, Eq, Structural)]
pub struct AssetPair {
    pub internal: AssetId,
    pub external: AssetId,
}

impl Key for AssetPair {
    fn same(&self, other: &Self) -> (r: bool) {
        *self == *other
    }
}

/// Which swaps of an external asset are switched off.
#[derive(Clone, Copy, Debug, PartialEq, Eq, Structural)]
pub enum CircuitBreakerLevel {
    AllEnabled,
    MintingDisabled,
}

/// What is known of a module.
#[derive(Clone, Copy, Debug, PartialEq, Eq)]
pub struct PsmInfo {
    /// The account that fees go to.
    pub fee_destination: AccountId,
    /// The most that the module may owe.
    pub max_debt: Balance,
    /// The decimals of the internal asset.
    pub internal_decimals: u8,
    /// The number of approved external assets.
    pub external_count: u32,
}

/// The state of all modules, and the assets that exist.
pub struct PsmState {
    /// The decimals of the assets that exist.
    pub assets: Table<AssetId, u8>,
    /// The modules, by internal asset.
    pub psms: Table<AssetId, PsmInfo>,
    /// The approved external assets.
    pub external_assets: Table<AssetPair, CircuitBreakerLevel>,
    /// The part of the debt that each external asset may make up.
    pub asset_ceiling_weight: Table<AssetPair, Permill>,
    /// What is owed in each external asset.
    pub psm_debt: Table<AssetPair, Balance>,
    /// The decimals of external assets.
    pub external_decimals: Table<AssetPair, u8>,
}

/// Gives numbered assets their identities.
pub trait BenchmarkHelper {
    /// The identity of the asset with a number.
    spec fn id_of(number: u32) -> AssetId;

    /// Returns the identity of the asset with a number.
    fn get_asset_id(number: u32) -> (r: AssetId)
        ensures
            r == Self::id_of(number),
    ;
}

/// `percent` hundredths, in millionths.
///
/// Calls `sp_arithmetic::Permill::from_percent`, which takes more than a hundred for a hundred.
#[verifier::external_body]
fn from_percent(percent: u32) -> (r: Permill)
    ensures
        r == arithmetic::smaller(percent as int, 100) * 10_000,
{
    sp_arithmetic::Permill::from_percent(percent).deconstruct()
}

/// The internal asset.
pub open spec fn internal_asset<H: BenchmarkHelper>() -> AssetId {
    H::id_of(INTERNAL_ID_OFFSET)
}

/// The external asset that is swapped: the last of `n`.
pub open spec fn target_asset<H: BenchmarkHelper>(n: u32) -> AssetId {
    H::id_of((ASSET_ID_OFFSET + n - 1) as u32)
}

/// Whether a pair is of the internal asset and one of the first `n` external ones.
pub open spec fn is_external<H: BenchmarkHelper>(pair: AssetPair, n: int) -> bool {
    pair.internal == internal_asset::<H>() && exists|i: int|
        0 <= i < n && pair.external == #[trigger] H::id_of((ASSET_ID_OFFSET + i) as u32)
}

/// `table` with each of the first `n` external assets mapped to what `value`
/// says, but for those that `skipped` names.
pub open spec fn with_externals<H: BenchmarkHelper, V>(
    table: Map<AssetPair, V>,
    n: int,
    skipped: spec_fn(AssetId) -> bool,
    value: spec_fn(AssetId) -> V,
) -> Map<AssetPair, V> {
    Map::new(
        |p: AssetPair| table.contains_key(p) || (is_external::<H>(p, n) && !skipped(p.external)),
        |p: AssetPair|
            if is_external::<H>(p, n) && !skipped(p.external) {
                value(p.external)
            } else {
                table[p]
            },
    )
}

/// `table` with `key` mapped to `value`, unless it is mapped already.
pub open spec fn inserted_if_absent<K, V>(table: Map<K, V>, key: K, value: V) -> Map<K, V> {
    if table.contains_key(key) {
        table
    } else {
        table.insert(key, value)
    }
}

/// The most that the module may owe.
pub open spec fn initial_max_debt() -> Balance {
    4_294_967_295_000_000
}

/// What a module is set up as.
pub open spec fn initial_info(admin: AccountId) -> PsmInfo {
    PsmInfo {
        fee_destination: admin,
        max_debt: initial_max_debt(),
        internal_decimals: DECIMALS,
        external_count: 0,
    }
}

/// What set-up has done.
#[derive(Clone, Copy, Debug, PartialEq, Eq)]
pub struct SetUp {
    /// The internal asset.
    pub internal_asset: AssetId,
    /// The external asset that is swapped.
    pub target_external: AssetId,
    /// Whether the internal asset had to be created.
    pub created_internal: bool,
    /// Whether the module had to be created, and accounts for it and the administrator with it.
    pub created_psm: bool,
    /// Whether the external asset that is swapped had to be created.
    pub created_target: bool,
}

/// Prolonging the run of external assets by one maps one more.
proof fn lemma_one_more_external<H: BenchmarkHelper, V>(
    table: Map<AssetPair, V>,
    i: int,
    skipped: spec_fn(AssetId) -> bool,
    value: spec_fn(AssetId) -> V,
)
    requires
        i >= 0,
    ensures
        ({
            let id = H::id_of((ASSET_ID_OFFSET + i) as u32);
            let pair = AssetPair { internal: internal_asset::<H>(), external: id };
            with_externals::<H, V>(table, i + 1, skipped, value) == (if skipped(id) {
                with_externals::<H, V>(table, i, skipped, value)
            } else {
                with_externals::<H, V>(table, i, skipped, value).insert(pair, value(id))
            })
        }),
{
    let id = H::id_of((ASSET_ID_OFFSET + i) as u32);
    let pair = AssetPair { internal: internal_asset::<H>(), external: id };
    assert forall|p: AssetPair| #[trigger] is_external::<H>(p, i + 1) == (is_external::<H>(p, i)
        || p == pair) by {
        if is_external::<H>(p, i + 1) && p != pair {
            let k = choose|k: int|
                0 <= k < i + 1 && p.external == #[trigger] H::id_of((ASSET_ID_OFFSET + k) as u32);
            assert(k < i);
        }
    }
    let more = with_externals::<H, V>(table, i + 1, skipped, value);
    let before = with_externals::<H, V>(table, i, skipped, value);
    if skipped(id) {
        assert(more =~= before);
    } else {
        assert(more =~= before.insert(pair, value(id)));
    }
}

/// No external asset maps none.
proof fn lemma_no_external<H: BenchmarkHelper, V>(
    table: Map<AssetPair, V>,
    skipped: spec_fn(AssetId) -> bool,
    value: spec_fn(AssetId) -> V,
)
    ensures
        with_externals::<H, V>(table, 0, skipped, value) == table,
{
    assert(with_externals::<H, V>(table, 0, skipped, value) =~= table);
}

/// Sets up the module and `n` approved external assets.
///
/// All but the last of the external assets are there to fill the tables: they
/// have a small ceiling weight and some debt. The last has a dominant weight
/// and no debt, so that it can take the whole amount that is swapped.
pub fn setup_assets<H: BenchmarkHelper>(state: &mut PsmState, n: u32, admin: AccountId) -> (r:
    SetUp)
    requires
        ASSET_ID_OFFSET + n <= u32::MAX,
    ensures
        r.internal_asset == internal_asset::<H>(),
        r.target_external == target_asset::<H>(n),
        r.created_internal == !old(state).assets@.contains_key(internal_asset::<H>()),
        r.created_psm == !old(state).psms@.contains_key(internal_asset::<H>()),
        r.created_target == !inserted_if_absent(
            old(state).assets@,
            internal_asset::<H>(),
            DECIMALS,
        ).contains_key(target_asset::<H>(n)),
        final(state).assets@ == inserted_if_absent(
            inserted_if_absent(old(state).assets@, internal_asset::<H>(), DECIMALS),
            target_asset::<H>(n),
            DECIMALS,
        ),
        ({
            let psms = inserted_if_absent(
                old(state).psms@,
                internal_asset::<H>(),
                initial_info(admin),
            );
            final(state).psms@ == psms.insert(
                internal_asset::<H>(),
                PsmInfo { external_count: n, ..psms[internal_asset::<H>()] },
            )
        }),
        final(state).external_assets@ == with_externals::<H, CircuitBreakerLevel>(
            old(state).external_assets@,
            n as int,
            |id: AssetId| false,
            |id: AssetId| CircuitBreakerLevel::AllEnabled,
        ),
        final(state).asset_ceiling_weight@ == with_externals::<H, Permill>(
            old(state).asset_ceiling_weight@,
            n as int,
            |id: AssetId| false,
            |id: AssetId|
                if id == target_asset::<H>(n) {
                    1_000_000u32
                } else {
                    10_000u32
                },
        ),
        final(state).psm_debt@ == with_externals::<H, Balance>(
            old(state).psm_debt@,
            n as int,
            |id: AssetId| id == target_asset::<H>(n),
            |id: AssetId| 1u64,
        ),
        final(state).external_decimals@ == old(state).external_decimals@.insert(
            AssetPair { internal: internal_asset::<H>(), external: target_asset::<H>(n) },
            DECIMALS,
        ),
{
    let internal: AssetId = H::get_asset_id(INTERNAL_ID_OFFSET);
    let created_internal = !state.assets.contains_key(internal);
    if created_internal {
        state.assets.insert(internal, DECIMALS);
    }
    let created_psm = !state.psms.contains_key(internal);
    if created_psm {
        let max_debt: Balance = price::saturating_product(0xffff_ffff, 1_000_000);
        assert(0xffff_ffff * 1_000_000 == initial_max_debt());
        state.psms.insert(
            internal,
            PsmInfo {
                fee_destination: admin,
                max_debt,
                internal_decimals: DECIMALS,
                external_count: 0,
            },
        );
    }
    let target: AssetId = H::get_asset_id(ASSET_ID_OFFSET + n - 1);
    let created_target = !state.assets.contains_key(target);
    if created_target {
        state.assets.insert(target, DECIMALS);
    }
    let ghost never = |id: AssetId| false;
    let ghost enabled = |id: AssetId| CircuitBreakerLevel::AllEnabled;
    let ghost weight_of = |id: AssetId|
        if id == target_asset::<H>(n) {
            1_000_000u32
        } else {
            10_000u32
        };
    let ghost is_target = |id: AssetId| id == target_asset::<H>(n);
    let ghost one = |id: AssetId| 1u64;
    proof {
        lemma_no_external::<H, CircuitBreakerLevel>(state.external_assets@, never, enabled);
        lemma_no_external::<H, Permill>(state.asset_ceiling_weight@, never, weight_of);
        lemma_no_external::<H, Balance>(state.psm_debt@, is_target, one);
    }
    let ghost entry = *state;
    let mut i: u32 = 0;
    while i < n
        invariant
            i <= n,
            ASSET_ID_OFFSET + n <= u32::MAX,
            internal == internal_asset::<H>(),
            target == target_asset::<H>(n),
            state.assets == entry.assets,
            state.psms == entry.psms,
            state.external_decimals == entry.external_decimals,
            never == (|id: AssetId| false),
            enabled == (|id: AssetId| CircuitBreakerLevel::AllEnabled),
            weight_of == (|id: AssetId|
                if id == target_asset::<H>(n) {
                    1_000_000u32
                } else {
                    10_000u32
                }),
            is_target == (|id: AssetId| id == target_asset::<H>(n)),
            one == (|id: AssetId| 1u64),
            state.external_assets@ == with_externals::<H, CircuitBreakerLevel>(
                entry.external_assets@,
                i as int,
                never,
                enabled,
            ),
            state.asset_ceiling_weight@ == with_externals::<H, Permill>(
                entry.asset_ceiling_weight@,
                i as int,
                never,
                weight_of,
            ),
            state.psm_debt@ == with_externals::<H, Balance>(
                entry.psm_debt@,
                i as int,
                is_target,
                one,
            ),
        decreases n - i,
    {
        let id: AssetId = H::get_asset_id(ASSET_ID_OFFSET + i);
        let pair = AssetPair { internal, external: id };
        proof {
            lemma_one_more_external::<H, CircuitBreakerLevel>(
                entry.external_assets@,
                i as int,
                never,
                enabled,
            );
            lemma_one_more_external::<H, Permill>(
                entry.asset_ceiling_weight@,
                i as int,
                never,
                weight_of,
            );
            lemma_one_more_external::<H, Balance>(entry.psm_debt@, i as int, is_target, one);
        }
        state.external_assets.insert(pair, CircuitBreakerLevel::AllEnabled);
        let weight: Permill = if id == target {
            from_percent(100)
        } else {
            from_percent(1)
        };
        state.asset_ceiling_weight.insert(pair, weight);
        if id != target {
            state.psm_debt.insert(pair, 1);
        }
        i += 1;
    }
    state.external_decimals.insert(AssetPair { internal, external: target }, DECIMALS);
    if let Some(info) = state.psms.get(internal) {
        state.psms.insert(internal, PsmInfo { external_count: n, ..info });
    }
    SetUp {
        internal_asset: internal,
        target_external: target,
        created_internal,
        created_psm,
        created_target,
    }
}

/// The tables hold no debt for the asset that is swapped but what they held before.
pub proof fn law_target_is_left_without_debt<H: BenchmarkHelper>(
    debt: Map<AssetPair, Balance>,
    n: u32,
)
    ensures
        ({
            let pair = AssetPair {
                internal: internal_asset::<H>(),
                external: target_asset::<H>(n),
            };
            let after = with_externals::<H, Balance>(
                debt,
                n as int,
                |id: AssetId| id == target_asset::<H>(n),
                |id: AssetId| 1u64,
            );
            &&& after.contains_key(pair) == debt.contains_key(pair)
            &&& debt.contains_key(pair) ==> after[pair] == debt[pair]
        }),
{
}

/// A step of a measurement.
#[derive(Clone, Copy, Debug, PartialEq, Eq)]
pub enum Step {
    /// Set up the module with this many external assets.
    SetUp { externals: u32 },
    /// Give the caller an amount of the external asset.
    Fund { amount: Balance },
    /// Swap an amount of the external asset for the internal one.
    Mint { amount: Balance },
    /// Swap an amount of the internal asset for the external one.
    Redeem { amount: Balance },
    /// Set the fee on minting.
    SetMintingFee { fee: Permill },
    /// Set the fee on redeeming.
    SetRedemptionFee { fee: Permill },
    /// Set the most that the module may owe.
    SetMaxDebt { amount: Balance },
    /// Switch swaps of the external asset off or on.
    SetAssetStatus { status: CircuitBreakerLevel },
    /// Set the part of the debt that the external asset may make up.
    SetAssetCeilingWeight { weight: Permill },
    /// Create the asset with a number.
    CreateAsset { number: u32, decimals: u8 },
    /// Approve the asset with a number.
    AddExternalAsset { number: u32 },
    /// Forget what is owed in the external asset.
    ClearDebt,
    /// Approve the external asset no longer.
    RemoveExternalAsset,
}

/// The amount that is minted: ten times the least that can be swapped.
pub open spec fn mint_amount(min_swap_amount: Balance) -> Balance {
    arithmetic::saturate(min_swap_amount * 10) as u64
}

/// What the caller is given: twice the amount that is minted.
pub open spec fn funding(min_swap_amount: Balance) -> Balance {
    arithmetic::saturate(mint_amount(min_swap_amount) * 2) as u64
}

/// How minting is measured: with `n` external assets, after the caller is funded.
pub open spec fn minting(n: u32, min_swap_amount: Balance) -> Seq<Step> {
    seq![
        Step::SetUp { externals: n },
        Step::Fund { amount: funding(min_swap_amount) },
        Step::Mint { amount: mint_amount(min_swap_amount) },
    ]
}

/// How redeeming is measured: with one external asset, after minting has made
/// a reserve of it.
pub open spec fn redeeming(min_swap_amount: Balance) -> Seq<Step> {
    minting(1, min_swap_amount).push(Step::Redeem { amount: min_swap_amount })
}

/// How minting is measured.
pub fn mint(n: u32, min_swap_amount: Balance) -> (r: Vec<Step>)
    ensures
        r@ == minting(n, min_swap_amount),
{
    let mint_amount: Balance = price::saturating_product(min_swap_amount, 10);
    let mut steps: Vec<Step> = Vec::new();
    steps.push(Step::SetUp { externals: n });
    steps.push(Step::Fund { amount: price::saturating_product(mint_amount, 2) });
    steps.push(Step::Mint { amount: mint_amount });
    assert(steps@ =~= minting(n, min_swap_amount));
    steps
}

/// How redeeming is measured.
pub fn redeem(min_swap_amount: Balance) -> (r: Vec<Step>)
    ensures
        r@ == redeeming(min_swap_amount),
{
    let setup_amount: Balance = price::saturating_product(min_swap_amount, 10);
    let redeem_amount: Balance = min_swap_amount;
    let mut steps: Vec<Step> = Vec::new();
    steps.push(Step::SetUp { externals: 1 });
    steps.push(Step::Fund { amount: price::saturating_product(setup_amount, 2) });
    steps.push(Step::Mint { amount: setup_amount });
    steps.push(Step::Redeem { amount: redeem_amount });
    assert(steps@ =~= redeeming(min_swap_amount));
    steps
}

/// A measurement of one step on a module with one external asset.
fn one_step(step: Step) -> (r: Vec<Step>)
    ensures
        r@ == seq![Step::SetUp { externals: 1 }, step],
{
    let mut steps: Vec<Step> = Vec::new();
    steps.push(Step::SetUp { externals: 1 });
    steps.push(step);
    assert(steps@ =~= seq![Step::SetUp { externals: 1 }, step]);
    steps
}

/// How setting the fee on minting is measured: to two hundredths.
pub fn set_minting_fee() -> (r: Vec<Step>)
    ensures
        r@ == seq![Step::SetUp { externals: 1 }, Step::SetMintingFee { fee: 20_000 }],
{
    one_step(Step::SetMintingFee { fee: from_percent(2) })
}

/// How setting the fee on redeeming is measured: to two hundredths.
pub fn set_redemption_fee() -> (r: Vec<Step>)
    ensures
        r@ == seq![Step::SetUp { externals: 1 }, Step::SetRedemptionFee { fee: 20_000 }],
{
    one_step(Step::SetRedemptionFee { fee: from_percent(2) })
}

/// How setting the most that the module may owe is measured.
pub fn set_max_debt() -> (r: Vec<Step>)
    ensures
        r@ == seq![Step::SetUp { externals: 1 }, Step::SetMaxDebt { amount: 123 }],
{
    one_step(Step::SetMaxDebt { amount: 123 })
}

/// How switching swaps off is measured.
pub fn set_asset_status() -> (r: Vec<Step>)
    ensures
        r@ == seq![
            Step::SetUp { externals: 1 },
            Step::SetAssetStatus { status: CircuitBreakerLevel::MintingDisabled },
        ],
{
    one_step(Step::SetAssetStatus { status: CircuitBreakerLevel::MintingDisabled })
}

/// How setting a ceiling weight is measured: to one half.
pub fn set_asset_ceiling_weight() -> (r: Vec<Step>)
    ensures
        r@ == seq![Step::SetUp { externals: 1 }, Step::SetAssetCeilingWeight { weight: 500_000 }],
{
    one_step(Step::SetAssetCeilingWeight { weight: from_percent(50) })
}

/// How approving an asset is measured: on a module without external assets.
pub fn add_external_asset() -> (r: Vec<Step>)
    ensures
        r@ == seq![
            Step::SetUp { externals: 0 },
            Step::CreateAsset { number: ASSET_ID_OFFSET, decimals: DECIMALS },
            Step::AddExternalAsset { number: ASSET_ID_OFFSET },
        ],
{
    let mut steps: Vec<Step> = Vec::new();
    steps.push(Step::SetUp { externals: 0 });
    steps.push(Step::CreateAsset { number: ASSET_ID_OFFSET, decimals: DECIMALS });
    steps.push(Step::AddExternalAsset { number: ASSET_ID_OFFSET });
    assert(steps@ =~= seq![
        Step::SetUp { externals: 0 },
        Step::CreateAsset { number: ASSET_ID_OFFSET, decimals: DECIMALS },
        Step::AddExternalAsset { number: ASSET_ID_OFFSET },
    ]);
    steps
}

/// How withdrawing an approval is measured: where nothing is owed in the asset.
pub fn remove_external_asset() -> (r: Vec<Step>)
    ensures
        r@ == seq![Step::SetUp { externals: 1 }, Step::ClearDebt, Step::RemoveExternalAsset],
{
    let mut steps: Vec<Step> = one_step(Step::ClearDebt);
    steps.push(Step::RemoveExternalAsset);
    assert(steps@ =~= seq![
        Step::SetUp { externals: 1 },
        Step::ClearDebt,
        Step::RemoveExternalAsset,
    ]);
    steps
}

/// Why a measurement stops where a step before the measured one fails.
pub fn failure(step: Step) -> (r: Option<&'static str>)
    ensures
        match step {
            Step::Fund { .. } => r matches Some(m) && m@ == "Failed to fund caller"@,
            Step::Mint { .. } => r matches Some(m) && m@ == "Failed to setup reserve via mint"@,
            _ => r is None,
        },
{
    match step {
        Step::Fund { .. } => Some("Failed to fund caller"),
        Step::Mint { .. } => Some("Failed to setup reserve via mint"),
        _ => None,
    }
}

/// What is read after the measured step.
#[derive(Clone, Copy, Debug, PartialEq, Eq, Structural)]
pub enum Reading {
    /// The reserve of the external asset, before the step and after it.
    Reserve { before: Balance, after: Balance },
    /// The fee on minting.
    MintingFee { fee: Permill },
    /// The fee on redeeming.
    RedemptionFee { fee: Permill },
    /// The most that the module may owe.
    MaxDebt { amount: Balance },
    /// Which swaps of the external asset are switched off, if it is approved.
    AssetStatus { status: Option<CircuitBreakerLevel> },
    /// The part of the debt that the external asset may make up.
    AssetCeilingWeight { weight: Permill },
    /// Whether the external asset is approved.
    Approved { approved: bool },
}

/// Whether the measured step did what it is for: minting adds to the reserve
/// of the external asset, redeeming takes from it, what is set is what is
/// stored, and an asset is approved once it is added and no longer once it is
/// removed. Other steps are not measured, and no reading shows what they did.
pub open spec fn shows_effect(step: Step, reading: Reading) -> bool {
    match step {
        Step::Mint { .. } => reading matches Reading::Reserve { before, after } && after > before,
        Step::Redeem { .. } => reading matches Reading::Reserve { before, after } && after < before,
        Step::SetMintingFee { fee } => reading == (Reading::MintingFee { fee }),
        Step::SetRedemptionFee { fee } => reading == (Reading::RedemptionFee { fee }),
        Step::SetMaxDebt { amount } => reading == (Reading::MaxDebt { amount }),
        Step::SetAssetStatus { status } => reading == (Reading::AssetStatus {
            status: Some(status),
        }),
        Step::SetAssetCeilingWeight { weight } => reading == (Reading::AssetCeilingWeight {
            weight,
        }),
        Step::AddExternalAsset { .. } => reading == (Reading::Approved { approved: true }),
        Step::RemoveExternalAsset => reading == (Reading::Approved { approved: false }),
        _ => false,
    }
}

/// Whether a reading shows that the measured step did what it is for.
pub fn took_effect(step: Step, reading: Reading) -> (r: bool)
    ensures
        r == shows_effect(step, reading),
{
    match step {
        Step::Mint { .. } => match reading {
            Reading::Reserve { before, after } => after > before,
            _ => false,
        },
        Step::Redeem { .. } => match reading {
            Reading::Reserve { before, after } => after < before,
            _ => false,
        },
        Step::SetMintingFee { fee } => reading == Reading::MintingFee { fee },
        Step::SetRedemptionFee { fee } => reading == Reading::RedemptionFee { fee },
        Step::SetMaxDebt { amount } => reading == Reading::MaxDebt { amount },
        Step::SetAssetStatus { status } => reading == Reading::AssetStatus { status: Some(status) },
        Step::SetAssetCeilingWeight { weight } => reading == Reading::AssetCeilingWeight { weight },
        Step::AddExternalAsset { .. } => reading == Reading::Approved { approved: true },
        Step::RemoveExternalAsset => reading == Reading::Approved { approved: false },
        _ => false,
    }
}

/// The caller is given enough to mint, and mints enough to redeem.
pub proof fn law_amounts_are_covered(min_swap_amount: Balance)
    ensures
        funding(min_swap_amount) >= mint_amount(min_swap_amount) >= min_swap_amount,
{
}

/// Which entries set-up makes in a table: one for each of the `n` external
/// assets that is not skipped, and none other.
pub proof fn law_set_up_fills_the_tables<H: BenchmarkHelper, V>(
    table: Map<AssetPair, V>,
    n: int,
    skipped: spec_fn(AssetId) -> bool,
    value: spec_fn(AssetId) -> V,
    pair: AssetPair,
)
    ensures
        ({
            let after = with_externals::<H, V>(table, n, skipped, value);
            let made = pair.internal == H::id_of(99) && !skipped(pair.external) && exists|i: int|
                0 <= i < n && pair.external == #[trigger] H::id_of((100 + i) as u32);
            &&& after.contains_key(pair) == (made || table.contains_key(pair))
            &&& made ==> after[pair] == value(pair.external)
            &&& !made && table.contains_key(pair) ==> after[pair] == table[pair]
        }),
{
    if pair.internal == H::id_of(99) && exists|i: int|
        0 <= i < n && pair.external == #[trigger] H::id_of((100 + i) as u32) {
        let i = choose|i: int|
            0 <= i < n && pair.external == #[trigger] H::id_of((100 + i) as u32);
        assert(pair.external == H::id_of((ASSET_ID_OFFSET + i) as u32));
        assert(is_external::<H>(pair, n));
    }
    if is_external::<H>(pair, n) {
        let i = choose|i: int|
            0 <= i < n && pair.external == #[trigger] H::id_of((ASSET_ID_OFFSET + i) as u32);
        assert(pair.external == H::id_of((100 + i) as u32));
    }
}

/// What a module is set up with: the asset that is swapped is the last of the
/// external ones, fees go to the administrator, and assets have six decimals.
pub proof fn law_modules_are_set_up<H: BenchmarkHelper>(n: u32, admin: AccountId)
    requires
        n <= 0xffff_ff00,
    ensures
        internal_asset::<H>() == H::id_of(99),
        target_asset::<H>(n) == H::id_of((99 + n) as u32),
        initial_info(admin).fee_destination == admin,
        initial_info(admin).max_debt == 0xffff_ffff * 1_000_000,
        initial_info(admin).internal_decimals == 6,
        initial_info(admin).external_count == 0,
{
    assert(ASSET_ID_OFFSET + n - 1 == 99 + n);
}

/// What is in a table already is not replaced, and what is not is put in.
pub proof fn law_absent_keys_are_inserted<K, V>(table: Map<K, V>, key: K, value: V, other: K)
    ensures
        ({
            let after = inserted_if_absent(table, key, value);
            &&& after.contains_key(key)
            &&& after[key] == (if table.contains_key(key) {
                table[key]
            } else {
                value
            })
            &&& other != key ==> after.contains_key(other) == table.contains_key(other)
            &&& other != key && table.contains_key(other) ==> after[other] == table[other]
        }),
{
}

/// The amounts and the steps of a measurement: ten times the least amount that
/// can be swapped is minted, by a caller that is given twice that, and redeeming
/// takes the least amount back. Amounts that do not fit are capped.
pub proof fn law_measurements_swap_multiples(n: u32, min_swap_amount: Balance)
    ensures
        ({
            let minted = if 10 * min_swap_amount > u64::MAX {
                u64::MAX
            } else {
                (10 * min_swap_amount) as u64
            };
            let given = if 20 * min_swap_amount > u64::MAX {
                u64::MAX
            } else {
                (20 * min_swap_amount) as u64
            };
            &&& mint_amount(min_swap_amount) == minted
            &&& funding(min_swap_amount) == given
            &&& minting(n, min_swap_amount) == seq![
                Step::SetUp { externals: n },
                Step::Fund { amount: given },
                Step::Mint { amount: minted },
            ]
            &&& redeeming(min_swap_amount) == seq![
                Step::SetUp { externals: 1 },
                Step::Fund { amount: given },
                Step::Mint { amount: minted },
                Step::Redeem { amount: min_swap_amount },
            ]
        }),
{
    let minted = mint_amount(min_swap_amount);
    let given = funding(min_swap_amount);
    assert(redeeming(min_swap_amount) =~= seq![
        Step::SetUp { externals: 1 },
        Step::Fund { amount: given },
        Step::Mint { amount: minted },
        Step::Redeem { amount: min_swap_amount },
    ]);
}

/// Which readings show that a step did what it is for.
pub proof fn law_readings_show_the_effect(
    x: Balance,
    y: Balance,
    amount: Balance,
    p: Permill,
    q: Permill,
    s: CircuitBreakerLevel,
    t: Option<CircuitBreakerLevel>,
    number: u32,
    approved: bool,
)
    ensures
        shows_effect(Step::Mint { amount }, Reading::Reserve { before: x, after: y }) == (x < y),
        shows_effect(Step::Redeem { amount }, Reading::Reserve { before: x, after: y }) == (y < x),
        shows_effect(Step::SetMintingFee { fee: p }, Reading::MintingFee { fee: q }) == (p == q),
        shows_effect(Step::SetRedemptionFee { fee: p }, Reading::RedemptionFee { fee: q }) == (p
            == q),
        shows_effect(Step::SetMaxDebt { amount: x }, Reading::MaxDebt { amount: y }) == (x == y),
        shows_effect(Step::SetAssetStatus { status: s }, Reading::AssetStatus { status: t }) == (
        Some(s) == t),
        shows_effect(
            Step::SetAssetCeilingWeight { weight: p },
            Reading::AssetCeilingWeight { weight: q },
        ) == (p == q),
        shows_effect(Step::AddExternalAsset { number }, Reading::Approved { approved })
            == approved,
        shows_effect(Step::RemoveExternalAsset, Reading::Approved { approved }) == !approved,
        !shows_effect(Step::SetMintingFee { fee: p }, Reading::RedemptionFee { fee: q }),
        !shows_effect(Step::SetRedemptionFee { fee: p }, Reading::MintingFee { fee: q }),
        !shows_effect(Step::ClearDebt, Reading::Approved { approved }),
{
}

} // verus!

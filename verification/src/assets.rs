//! The assets that fees can be paid in, and how their payment is measured.

use crate::xcm::{Asset, AssetView, Fungibility, Junction, Location, LocationView};
use vstd::prelude::*;

verus! {

/// The parachain that hosts the assets.
pub const ASSET_HUB_PARA_ID: u32 = 1000;

/// The pallet of the host that keeps the assets.
pub const ASSETS_PALLET: u8 = 50;

/// The number of pUSD on its host.
pub const PUSD_ASSET_ID: u128 = 50_000_342;

/// A unit of pUSD is made up of this many of the smallest amount.
pub const PUSD_UNITS: u128 = 1_000_000;

/// The place of the parachain that hosts the assets.
pub open spec fn hub_place() -> LocationView {
    LocationView { parents: 1, interior: seq![Junction::Parachain(ASSET_HUB_PARA_ID)] }
}

/// The place of an asset that the host keeps.
pub open spec fn asset_place(id: u128) -> LocationView {
    LocationView {
        parents: 1,
        interior: seq![
            Junction::Parachain(ASSET_HUB_PARA_ID),
            Junction::PalletInstance(ASSETS_PALLET),
            Junction::GeneralIndex(id),
        ],
    }
}

/// The place of the parachain that hosts the assets.
pub fn asset_hub_location() -> (r: Location)
    ensures
        r@ == hub_place(),
{
    let mut interior: Vec<Junction> = Vec::new();
    interior.push(Junction::Parachain(ASSET_HUB_PARA_ID));
    assert(interior@ =~= hub_place().interior);
    Location::new(1, interior)
}

/// The place of an asset that the host keeps.
pub fn asset_location(id: u128) -> (r: Location)
    ensures
        r@ == asset_place(id),
{
    let mut interior: Vec<Junction> = Vec::new();
    interior.push(Junction::Parachain(ASSET_HUB_PARA_ID));
    interior.push(Junction::PalletInstance(ASSETS_PALLET));
    interior.push(Junction::GeneralIndex(id));
    assert(interior@ =~= asset_place(id).interior);
    Location::new(1, interior)
}

/// The place of pUSD.
pub fn pusd_location() -> (r: Location)
    ensures
        r@ == asset_place(PUSD_ASSET_ID),
{
    asset_location(PUSD_ASSET_ID)
}

/// Ten units of pUSD.
pub fn pusd() -> (r: Asset)
    ensures
        r@ == (AssetView {
            id: asset_place(PUSD_ASSET_ID),
            fun: Fungibility::Fungible(10_000_000),
        }),
{
    Asset { id: pusd_location(), fun: Fungibility::Fungible(10 * PUSD_UNITS) }
}

/// A step of setting up an account that pays fees in an asset.
#[derive(Clone, Copy, Debug, PartialEq, Eq)]
pub enum SetupStep {
    /// Set how much of the native asset one of the asset is worth.
    CreateRate { rate: u32 },
    /// Create the asset for the account.
    CreateAsset { is_sufficient: bool, min_balance: u128 },
    /// Give the account an amount of the asset.
    MintAsset { amount: u128 },
    /// Give the account an amount of the native asset.
    MintNative { amount: u128 },
}

/// The steps of setting up an account. The asset is created unless it exists.
pub open spec fn setup_steps(asset_exists: bool, units: u128) -> Seq<SetupStep> {
    let amount = (10_000 * units) as u128;
    let rate = SetupStep::CreateRate { rate: 1 };
    let create = SetupStep::CreateAsset { is_sufficient: true, min_balance: 1 };
    let mint_asset = SetupStep::MintAsset { amount };
    let mint_native = SetupStep::MintNative { amount };
    if asset_exists {
        seq![rate, mint_asset, mint_native]
    } else {
        seq![rate, create, mint_asset, mint_native]
    }
}

/// Provides what fee payment in assets is measured with.
pub struct AssetTxPaymentBenchmarkHelper;

impl AssetTxPaymentBenchmarkHelper {
    /// The asset that is used, twice. There is just one, the first.
    pub fn create_asset_id_parameter(id: u32) -> (r: (Location, Location))
        requires
            id == 1,
        ensures
            r.0@ == asset_place(1337),
            r.1@ == asset_place(1337),
    {
        let l = asset_location(1337);
        (l.copied(), l)
    }

    /// The steps of setting up an account, where the native asset has `units`
    /// of the smallest amount in a unit.
    pub fn setup_balances_and_pool(asset_exists: bool, units: u128) -> (r: Vec<SetupStep>)
        requires
            10_000 * units <= u128::MAX,
        ensures
            r@ == setup_steps(asset_exists, units),
    {
        let mut steps: Vec<SetupStep> = Vec::new();
        steps.push(SetupStep::CreateRate { rate: 1 });
        if !asset_exists {
            steps.push(SetupStep::CreateAsset { is_sufficient: true, min_balance: 1 });
        }
        steps.push(SetupStep::MintAsset { amount: 10_000 * units });
        steps.push(SetupStep::MintNative { amount: 10_000 * units });
        assert(steps@ =~= setup_steps(asset_exists, units));
        steps
    }
}

/// Provides what exchange rates are measured with.
pub struct AssetRateBenchmarkHelper;

impl AssetRateBenchmarkHelper {
    /// The kind of asset that a seed stands for.
    pub fn create_asset_kind(seed: u32) -> (r: Location)
        ensures
            r@ == (LocationView {
                parents: 1,
                interior: seq![
                    Junction::Parachain(ASSET_HUB_PARA_ID),
                    Junction::GeneralIndex(seed as u128),
                ],
            }),
    {
        let mut interior: Vec<Junction> = Vec::new();
        interior.push(Junction::Parachain(ASSET_HUB_PARA_ID));
        interior.push(Junction::GeneralIndex(seed as u128));
        assert(interior@ =~= seq![
            Junction::Parachain(ASSET_HUB_PARA_ID),
            Junction::GeneralIndex(seed as u128),
        ]);
        Location::new(1, interior)
    }
}

/// The parachain that hosts the assets is the one numbered a thousand, next to
/// this one, and keeps them in its fiftieth pallet under their numbers.
pub proof fn law_assets_are_kept_on_the_hub(id: u128)
    ensures
        hub_place().parents == 1,
        hub_place().interior == seq![Junction::Parachain(1000)],
        asset_place(id).parents == 1,
        asset_place(id).interior == hub_place().interior.push(Junction::PalletInstance(50)).push(
            Junction::GeneralIndex(id),
        ),
{
    assert(asset_place(id).interior =~= hub_place().interior.push(
        Junction::PalletInstance(50),
    ).push(Junction::GeneralIndex(id)));
}

/// An account is set up with ten thousand units of the asset and as many of the
/// native one, after a rate of one is set and, unless it exists, the asset is
/// created.
pub proof fn law_accounts_are_set_up_in_steps(units: u128)
    requires
        10_000 * units <= u128::MAX,
    ensures
        setup_steps(true, units) == seq![
            SetupStep::CreateRate { rate: 1 },
            SetupStep::MintAsset { amount: (10_000 * units) as u128 },
            SetupStep::MintNative { amount: (10_000 * units) as u128 },
        ],
        setup_steps(false, units) == seq![
            SetupStep::CreateRate { rate: 1 },
            SetupStep::CreateAsset { is_sufficient: true, min_balance: 1 },
            SetupStep::MintAsset { amount: (10_000 * units) as u128 },
            SetupStep::MintNative { amount: (10_000 * units) as u128 },
        ],
{
}

} // verus!

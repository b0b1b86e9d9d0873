//! Services that keep what they are told.

use coretime_market::weight::Weight;
use coretime_market::xcm::{
    copied_assets, same_assets, Asset, AssetInstance, Bytes32, Fungibility, Junction, Location,
    LockedAssets, NetworkId, TestAssetExchanger, TestAssetLocker, TestAssetTrap, TestPalletsInfo,
    TestSubscriptionService, TestUniversalAliases,
};

fn place(n: u32) -> Location {
    Location::new(1, vec![Junction::Parachain(n), Junction::PalletInstance(3)])
}

fn asset(n: u32, amount: u128) -> Asset {
    Asset { id: place(n), fun: Fungibility::Fungible(amount) }
}

fn ticket(i: u128) -> Location {
    Location::new(0, vec![Junction::GeneralIndex(i)])
}

const WEIGHT: Weight = Weight { ref_time: 1, proof_size: 2 };

#[test]
fn places_and_assets_are_compared() {
    assert!(place(1).same(&place(1)));
    assert!(!place(1).same(&place(2)));
    assert!(!place(1).same(&Location::new(1, vec![Junction::Parachain(1)])));
    assert!(!Location::new(0, vec![]).same(&Location::new(1, vec![])));
    assert!(place(1).copied().same(&place(1)));
    assert!(asset(1, 5).same(&asset(1, 5)));
    assert!(!asset(1, 5).same(&asset(1, 6)));
    assert!(!asset(1, 5).same(&asset(2, 5)));
    let thing = Asset { id: place(1), fun: Fungibility::NonFungible(AssetInstance::Index(5)) };
    assert!(!asset(1, 5).same(&thing));
    let all = vec![asset(1, 5), asset(2, 6)];
    assert!(same_assets(&all, &copied_assets(&all)));
    assert!(!same_assets(&all, &vec![asset(1, 5)]));
    assert!(!same_assets(&all, &vec![asset(2, 6), asset(1, 5)]));
}

#[test]
fn subscriptions_start_and_stop() {
    let mut service = TestSubscriptionService::new();
    assert!(!service.is_subscribed(&place(1)));
    service.start(&place(1), 7, WEIGHT);
    service.start(&place(2), 8, WEIGHT);
    service.start(&place(1), 9, WEIGHT);
    assert!(service.is_subscribed(&place(1)));
    assert!(service.is_subscribed(&place(2)));
    assert!(!service.is_subscribed(&place(3)));
    assert_eq!(service.requests[0].1, Some((7, WEIGHT)));
    service.stop(&place(1));
    assert!(!service.is_subscribed(&place(1)));
    assert!(service.is_subscribed(&place(2)));
    assert_eq!(service.requests.len(), 2);
    assert!(service.requests[1].0.same(&place(1)));
    assert_eq!(service.requests[1].1, None);
}

#[test]
fn trapped_assets_are_claimed_once() {
    let mut trap = TestAssetTrap::new();
    let weight = trap.drop_assets(&place(1), vec![asset(1, 5)]);
    assert_eq!(weight, Weight { ref_time: 5, proof_size: 5 });
    trap.drop_assets(&place(2), vec![asset(2, 6)]);
    trap.drop_assets(&place(3), vec![asset(3, 7)]);
    assert!(!trap.claim_assets(&place(2), &ticket(0), &vec![asset(1, 5)]));
    assert!(!trap.claim_assets(&place(1), &ticket(0), &vec![asset(1, 6)]));
    assert!(!trap.claim_assets(&place(1), &ticket(1), &vec![asset(1, 5)]));
    assert!(!trap.claim_assets(&place(1), &ticket(3), &vec![asset(1, 5)]));
    assert!(!trap.claim_assets(&place(1), &place(0), &vec![asset(1, 5)]));
    let elsewhere = Location::new(1, vec![Junction::GeneralIndex(0)]);
    assert!(!trap.claim_assets(&place(1), &elsewhere, &vec![asset(1, 5)]));
    let child = Location::new(0, vec![Junction::OnlyChild]);
    assert!(!trap.claim_assets(&place(1), &child, &vec![asset(1, 5)]));
    assert_eq!(trap.trapped.len(), 3);
    assert!(trap.claim_assets(&place(1), &ticket(0), &vec![asset(1, 5)]));
    assert!(!trap.claim_assets(&place(1), &ticket(0), &vec![asset(1, 5)]));
    // The last has taken the place of what was claimed.
    assert!(trap.claim_assets(&place(3), &ticket(0), &vec![asset(3, 7)]));
    assert_eq!(trap.trapped.len(), 1);
}

#[test]
fn exchanges_give_what_is_wanted() {
    let want = vec![asset(1, 5), asset(2, 6)];
    assert!(same_assets(&TestAssetExchanger::exchange_asset(&want), &want));
}

#[test]
fn two_pallets_are_known() {
    let infos = TestPalletsInfo::infos();
    assert_eq!(infos.len(), TestPalletsInfo::count());
    assert_eq!(infos[0].name, "System");
    assert_eq!(infos[0].module_name, "pallet_system");
    assert_eq!(infos[1].name, "Balances");
    assert_eq!(infos[1].crate_version.patch, 69);
}

#[test]
fn one_alias_is_known() {
    let here = Location::new(0, vec![]);
    let genesis = |low| {
        Junction::GlobalConsensus(NetworkId::ByGenesis(Bytes32 { high: 0, low }))
    };
    assert!(TestUniversalAliases::contains(&here, genesis(0)));
    assert!(!TestUniversalAliases::contains(&here, genesis(1)));
    assert!(!TestUniversalAliases::contains(&place(1), genesis(0)));
    assert!(!TestUniversalAliases::contains(&here, Junction::GlobalConsensus(NetworkId::Kusama)));
}

#[test]
fn locks_are_made_and_undone() {
    let mut locked = LockedAssets::new();
    TestAssetLocker::prepare_lock(place(1), asset(1, 5)).enact(&mut locked);
    TestAssetLocker::prepare_lock(place(2), asset(1, 5)).enact(&mut locked);
    TestAssetLocker::prepare_lock(place(1), asset(1, 5)).enact(&mut locked);
    TestAssetLocker::prepare_reduce_unlockable().enact(&mut locked);
    assert_eq!(locked.locked.len(), 3);
    TestAssetLocker::prepare_unlock(place(1), asset(1, 6)).enact(&mut locked);
    assert_eq!(locked.locked.len(), 3);
    TestAssetLocker::prepare_unlock(place(1), asset(1, 5)).enact(&mut locked);
    assert_eq!(locked.locked.len(), 2);
    assert!(locked.locked[0].0.same(&place(2)));
    TestAssetLocker::prepare_unlock(place(1), asset(1, 5)).enact(&mut locked);
    TestAssetLocker::prepare_unlock(place(1), asset(1, 5)).enact(&mut locked);
    assert_eq!(locked.locked.len(), 1);
}

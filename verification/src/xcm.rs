//! Places in a consensus system, the assets that can be found there, and
//! services over them that keep what they are told.

use crate::weight::Weight;
use vstd::prelude::*;

verus! {

/// Thirty-two bytes, the first of them the most significant.
#[derive(Clone, Copy, Debug, PartialEq, Eq, Structural)]
pub struct Bytes32 {
    pub high: u128,
    pub low: u128,
}

/// Twenty bytes, the first of them the most significant.
#[derive(Clone, Copy, Debug, PartialEq, Eq, Structural)]
pub struct Bytes20 {
    pub high: u32,
    pub low: u128,
}

/// A consensus system.
#[derive(Clone, Copy, Debug, PartialEq, Eq, Structural)]
pub enum NetworkId {
    /// A network with the given genesis block.
    ByGenesis(Bytes32),
    /// A fork of a network.
    ByFork { block_number: u64, block_hash: Bytes32 },
    Polkadot,
    Kusama,
    Ethereum { chain_id: u64 },
    BitcoinCore,
    BitcoinCash,
    PolkadotBulletin,
}

/// A body of people or accounts.
#[derive(Clone, Copy, Debug, PartialEq, Eq, Structural)]
pub enum BodyId {
    Unit,
    /// Four bytes, the first of them the most significant.
    Moniker(u32),
    Index(u32),
    Executive,
    Technical,
    Legislative,
    Judicial,
    Defense,
    Administration,
    Treasury,
}

/// A part of a body.
#[derive(Clone, Copy, Debug, PartialEq, Eq, Structural)]
pub enum BodyPart {
    Voice,
    Members { count: u32 },
    Fraction { nom: u32, denom: u32 },
    AtLeastProportion { nom: u32, denom: u32 },
    MoreThanProportion { nom: u32, denom: u32 },
}

/// A step on the way to a place.
#[derive(Clone, Copy, Debug, PartialEq, Eq, Structural)]
pub enum Junction {
    Parachain(u32),
    AccountId32 { network: Option<NetworkId>, id: Bytes32 },
    AccountIndex64 { network: Option<NetworkId>, index: u64 },
    AccountKey20 { network: Option<NetworkId>, key: Bytes20 },
    PalletInstance(u8),
    GeneralIndex(u128),
    GeneralKey { length: u8, data: Bytes32 },
    OnlyChild,
    Plurality { body: BodyId, part: BodyPart },
    GlobalConsensus(NetworkId),
}

/// A place, as the way that leads to it: first up, then down.
#[derive(Debug)]
pub struct Location {
    /// The number of steps up.
    pub parents: u8,
    /// The steps down.
    pub interior: Vec<Junction>,
}

/// What a [`Location`] stands for.
#[verifier::ext_equal]
pub struct LocationView {
    pub parents: u8,
    pub interior: Seq<Junction>,
}

impl View for Location {
    type V = LocationView;

    open spec fn view(&self) -> LocationView {
        LocationView { parents: self.parents, interior: self.interior@ }
    }
}

/// The place that everything is seen from.
pub open spec fn here() -> LocationView {
    LocationView { parents: 0, interior: Seq::empty() }
}

impl Location {
    /// The place that `interior` leads to from `parents` steps up.
    pub fn new(parents: u8, interior: Vec<Junction>) -> (r: Location)
        ensures
            r@ == (LocationView { parents, interior: interior@ }),
    {
        Location { parents, interior }
    }

    /// Another record of the same place.
    pub fn copied(&self) -> (r: Location)
        ensures
            r@ == self@,
    {
        let mut interior: Vec<Junction> = Vec::new();
        let mut i: usize = 0;
        while i < self.interior.len()
            invariant
                i <= self.interior.len(),
                interior@ == self.interior@.take(i as int),
            decreases self.interior.len() - i,
        {
            interior.push(self.interior[i]);
            assert(interior@ =~= self.interior@.take(i + 1));
            i += 1;
        }
        assert(interior@ =~= self.interior@);
        Location { parents: self.parents, interior }
    }

    /// Whether two records are of the same place.
    pub fn same(&self, other: &Location) -> (r: bool)
        ensures
            r == (self@ == other@),
    {
        if self.parents != other.parents || self.interior.len() != other.interior.len() {
            return false;
        }
        let mut i: usize = 0;
        while i < self.interior.len()
            invariant
                i <= self.interior.len(),
                self.interior.len() == other.interior.len(),
                forall|k: int| 0 <= k < i ==> self.interior[k] == other.interior[k],
            decreases self.interior.len() - i,
        {
            if self.interior[i] != other.interior[i] {
                assert(self@.interior[i as int] != other@.interior[i as int]);
                return false;
            }
            i += 1;
        }
        assert(self@.interior =~= other@.interior);
        true
    }
}

/// Which of the things of a kind an asset is.
#[derive(Clone, Copy, Debug, PartialEq, Eq, Structural)]
pub enum AssetInstance {
    Undefined,
    Index(u128),
    /// Bytes, the first of them the most significant.
    Array4(u32),
    /// Bytes, the first of them the most significant.
    Array8(u64),
    /// Bytes, the first of them the most significant.
    Array16(u128),
    /// Bytes, the first of them the most significant.
    Array32(Bytes32),
}

/// How much there is of an asset, or which one it is.
#[derive(Clone, Copy, Debug, PartialEq, Eq, Structural)]
pub enum Fungibility {
    Fungible(u128),
    NonFungible(AssetInstance),
}

/// An asset.
#[derive(Debug)]
pub struct Asset {
    /// The place that identifies the kind of asset.
    pub id: Location,
    /// How much of it, or which one.
    pub fun: Fungibility,
}

/// What an [`Asset`] stands for.
#[verifier::ext_equal]
pub struct AssetView {
    pub id: LocationView,
    pub fun: Fungibility,
}

impl View for Asset {
    type V = AssetView;

    open spec fn view(&self) -> AssetView {
        AssetView { id: self.id@, fun: self.fun }
    }
}

impl Asset {
    /// Another record of the same asset.
    pub fn copied(&self) -> (r: Asset)
        ensures
            r@ == self@,
    {
        Asset { id: self.id.copied(), fun: self.fun }
    }

    /// Whether two records are of the same asset.
    pub fn same(&self, other: &Asset) -> (r: bool)
        ensures
            r == (self@ == other@),
    {
        self.fun == other.fun && self.id.same(&other.id)
    }
}

/// What a number of assets stand for.
pub open spec fn assets_view(assets: Seq<Asset>) -> Seq<AssetView> {
    Seq::new(assets.len(), |i: int| assets[i]@)
}

/// Another record of the same assets.
pub fn copied_assets(assets: &Vec<Asset>) -> (r: Vec<Asset>)
    ensures
        assets_view(r@) == assets_view(assets@),
{
    let mut copy: Vec<Asset> = Vec::new();
    let mut i: usize = 0;
    while i < assets.len()
        invariant
            i <= assets.len(),
            copy.len() == i,
            forall|k: int| 0 <= k < i ==> (#[trigger] copy[k])@ == assets[k]@,
        decreases assets.len() - i,
    {
        copy.push(assets[i].copied());
        i += 1;
    }
    assert(assets_view(copy@) =~= assets_view(assets@));
    copy
}

/// Whether two records are of the same assets in the same order.
pub fn same_assets(a: &Vec<Asset>, b: &Vec<Asset>) -> (r: bool)
    ensures
        r == (assets_view(a@) == assets_view(b@)),
{
    if a.len() != b.len() {
        assert(assets_view(a@).len() != assets_view(b@).len());
        return false;
    }
    let mut i: usize = 0;
    while i < a.len()
        invariant
            i <= a.len(),
            a.len() == b.len(),
            forall|k: int| 0 <= k < i ==> (#[trigger] a[k])@ == b[k]@,
        decreases a.len() - i,
    {
        if !a[i].same(&b[i]) {
            assert(assets_view(a@)[i as int] != assets_view(b@)[i as int]);
            return false;
        }
        i += 1;
    }
    assert(assets_view(a@) =~= assets_view(b@));
    true
}

// Subscriptions.

/// The identity of a query and the weight that its answer may take.
pub type Query = (u64, Weight);

/// A request on record: who made it, and the query that it asks for, if it does not end one.
pub type Request = (LocationView, Option<Query>);

/// The most assets that are held at once.
pub const MAX_ASSETS_INTO_HOLDING: u32 = 4;

/// Keeps the requests for subscriptions.
pub struct TestSubscriptionService {
    pub requests: Vec<(Location, Option<Query>)>,
}

/// Whether a request is of another place.
pub open spec fn of_another(location: LocationView) -> spec_fn(Request) -> bool {
    |r: Request| r.0 != location
}

/// The requests of all but one place.
pub open spec fn requests_of_others(requests: Seq<Request>, location: LocationView) -> Seq<Request> {
    requests.filter(of_another(location))
}

/// Whether a subscription of a place is on record.
pub open spec fn subscribed(requests: Seq<Request>, location: LocationView) -> bool {
    exists|i: int|
        0 <= i < requests.len() && (#[trigger] requests[i]).0 == location && requests[i].1 is Some
}

impl View for TestSubscriptionService {
    type V = Seq<Request>;

    open spec fn view(&self) -> Seq<Request> {
        Seq::new(self.requests@.len(), |i: int| (self.requests[i].0@, self.requests[i].1))
    }
}

impl TestSubscriptionService {
    /// A service that has no requests on record.
    pub fn new() -> (r: Self)
        ensures
            r@ == Seq::<Request>::empty(),
    {
        let r = TestSubscriptionService { requests: Vec::new() };
        assert(r@ =~= Seq::<Request>::empty());
        r
    }

    /// Records a subscription.
    pub fn start(&mut self, location: &Location, query_id: u64, max_weight: Weight)
        ensures
            final(self)@ == old(self)@.push((location@, Some((query_id, max_weight)))),
    {
        self.requests.push((location.copied(), Some((query_id, max_weight))));
        assert(self@ =~= old(self)@.push((location@, Some((query_id, max_weight)))));
    }

    /// Removes what is on record of a place, and records that it subscribes no longer.
    pub fn stop(&mut self, location: &Location)
        ensures
            final(self)@ == requests_of_others(old(self)@, location@).push((location@, None)),
    {
        let mut kept: Vec<(Location, Option<Query>)> = Vec::new();
        let ghost all = self@;
        let ghost kept_view = Seq::<Request>::empty();
        let mut i: usize = 0;
        assert(all.take(0) =~= Seq::<Request>::empty());
        proof {
            reveal(Seq::filter);
        }
        while i < self.requests.len()
            invariant
                i <= self.requests.len(),
                self@ == all,
                all.len() == self.requests.len(),
                kept_view == requests_of_others(all.take(i as int), location@),
                kept_view.len() == kept.len(),
                forall|k: int|
                    0 <= k < kept.len() ==> (#[trigger] kept_view[k]) == (kept[k].0@, kept[k].1),
            decreases self.requests.len() - i,
        {
            assert(all.take(i + 1) =~= all.take(i as int).push(all[i as int]));
            proof {
                all.take(i as int).lemma_filter_push(all[i as int], of_another(location@));
            }
            if !self.requests[i].0.same(location) {
                kept.push((self.requests[i].0.copied(), self.requests[i].1));
                proof {
                    kept_view = kept_view.push(all[i as int]);
                }
            }
            i += 1;
        }
        assert(all.take(all.len() as int) =~= all);
        kept.push((location.copied(), None));
        self.requests = kept;
        assert(self@ =~= requests_of_others(all, location@).push((location@, None)));
    }

    /// Whether a subscription of a place is on record.
    pub fn is_subscribed(&self, location: &Location) -> (r: bool)
        ensures
            r == subscribed(self@, location@),
    {
        let mut i: usize = 0;
        while i < self.requests.len()
            invariant
                i <= self.requests.len(),
                forall|k: int|
                    0 <= k < i ==> !((#[trigger] self@[k]).0 == location@ && self@[k].1 is Some),
            decreases self.requests.len() - i,
        {
            assert(self@[i as int] == (self.requests[i as int].0@, self.requests[i as int].1));
            if self.requests[i].1.is_some() && self.requests[i].0.same(location) {
                return true;
            }
            i += 1;
        }
        false
    }
}

/// What is started is on record, and what others have on record stays.
pub proof fn law_started_is_subscribed(
    requests: Seq<Request>,
    location: LocationView,
    query: Query,
    other: LocationView,
)
    ensures
        subscribed(requests.push((location, Some(query))), location),
        other != location ==> subscribed(requests.push((location, Some(query))), other)
            == subscribed(requests, other),
{
    let after = requests.push((location, Some(query)));
    assert(after[requests.len() as int] == (location, Some(query)));
    assert(forall|i: int| 0 <= i < requests.len() ==> after[i] == requests[i]);
}

/// What is stopped is on record no longer, and what others have on record stays.
pub proof fn law_stopped_is_not_subscribed(
    requests: Seq<Request>,
    location: LocationView,
    other: LocationView,
)
    ensures
        !subscribed(requests_of_others(requests, location).push((location, None)), location),
        other != location ==> subscribed(
            requests_of_others(requests, location).push((location, None)),
            other,
        ) == subscribed(requests, other),
{
    let rest = requests_of_others(requests, location);
    let after = rest.push((location, None));
    let keep = of_another(location);
    assert forall|i: int| 0 <= i < after.len() implies (#[trigger] after[i]) == (if i < rest.len() {
        rest[i]
    } else {
        (location, None)
    }) by {}
    assert forall|i: int| 0 <= i < rest.len() implies (#[trigger] rest[i]).0 != location by {
        requests.lemma_filter_pred(keep, i);
    }
    if other != location {
        if subscribed(requests, other) {
            let i = choose|i: int|
                0 <= i < requests.len() && (#[trigger] requests[i]).0 == other
                    && requests[i].1 is Some;
            requests.lemma_filter_contains(keep, i);
            let j = choose|j: int| 0 <= j < rest.len() && rest[j] == requests[i];
            assert(after[j] == requests[i]);
        }
        if subscribed(after, other) {
            let i = choose|i: int|
                0 <= i < after.len() && (#[trigger] after[i]).0 == other && after[i].1 is Some;
            assert(rest.contains(after[i]));
            requests.lemma_filter_contains_rev(keep, after[i]);
            let j = choose|j: int| 0 <= j < requests.len() && requests[j] == after[i];
            assert(requests[j].0 == other);
        }
    }
}

// Trapped assets.

/// Assets in the trap, and the place that left them.
pub type Trapped = (LocationView, Seq<AssetView>);

/// Keeps assets that were left behind until they are claimed.
pub struct TestAssetTrap {
    pub trapped: Vec<(Location, Vec<Asset>)>,
}

impl View for TestAssetTrap {
    type V = Seq<Trapped>;

    open spec fn view(&self) -> Seq<Trapped> {
        Seq::new(
            self.trapped@.len(),
            |i: int| (self.trapped[i].0@, assets_view(self.trapped[i].1@)),
        )
    }
}

/// The place in the trap that a ticket stands for: a ticket is an index that
/// is found where everything is seen from, cut to the width of an address.
pub open spec fn ticket_index(ticket: LocationView) -> Option<usize> {
    if ticket.parents == 0 && ticket.interior.len() == 1 {
        match ticket.interior[0] {
            Junction::GeneralIndex(i) => Some(
                #[verifier::truncate]
                (i as usize),
            ),
            _ => None,
        }
    } else {
        None
    }
}

/// Whether a claim is granted: the ticket stands for a place in the trap where
/// `origin` left just what is claimed.
pub open spec fn claim_is_good(
    trapped: Seq<Trapped>,
    origin: LocationView,
    ticket: LocationView,
    what: Seq<AssetView>,
) -> bool {
    match ticket_index(ticket) {
        Some(i) => i < trapped.len() && trapped[i as int] == (origin, what),
        None => false,
    }
}

/// The trap without what was in a place of it, which the last takes.
pub open spec fn released(trapped: Seq<Trapped>, i: int) -> Seq<Trapped> {
    trapped.update(i, trapped.last()).drop_last()
}

impl TestAssetTrap {
    /// An empty trap.
    pub fn new() -> (r: Self)
        ensures
            r@ == Seq::<Trapped>::empty(),
    {
        let r = TestAssetTrap { trapped: Vec::new() };
        assert(r@ =~= Seq::<Trapped>::empty());
        r
    }

    /// Takes assets that `origin` left behind, and returns what that takes.
    pub fn drop_assets(&mut self, origin: &Location, assets: Vec<Asset>) -> (r: Weight)
        ensures
            r == (Weight { ref_time: 5, proof_size: 5 }),
            final(self)@ == old(self)@.push((origin@, assets_view(assets@))),
    {
        self.trapped.push((origin.copied(), assets));
        assert(self@ =~= old(self)@.push((origin@, assets_view(assets@))));
        Weight { ref_time: 5, proof_size: 5 }
    }

    /// Gives assets back to `origin`, if the ticket stands for just what it claims.
    pub fn claim_assets(&mut self, origin: &Location, ticket: &Location, what: &Vec<Asset>) -> (r:
        bool)
        ensures
            r == claim_is_good(old(self)@, origin@, ticket@, assets_view(what@)),
            final(self)@ == (if r {
                released(old(self)@, ticket_index(ticket@)->0 as int)
            } else {
                old(self)@
            }),
    {
        if ticket.parents != 0 || ticket.interior.len() != 1 {
            return false;
        }
        match ticket.interior[0] {
            Junction::GeneralIndex(index) => {
                let i: usize = #[verifier::truncate]
                (index as usize);
                if i < self.trapped.len() {
                    assert(self@[i as int] == (
                        self.trapped[i as int].0@,
                        assets_view(self.trapped[i as int].1@),
                    ));
                    if self.trapped[i].0.same(origin) && same_assets(&self.trapped[i].1, what) {
                        self.trapped.swap_remove(i);
                        assert(self@ =~= released(old(self)@, i as int));
                        return true;
                    }
                }
                false
            },
            _ => false,
        }
    }
}

/// Assets that were left can be claimed with the ticket of their place, and
/// then the trap is as it was before.
pub proof fn law_trapped_assets_can_be_claimed(
    trapped: Seq<Trapped>,
    origin: LocationView,
    assets: Seq<AssetView>,
    ticket: LocationView,
)
    requires
        ticket_index(ticket) is Some,
        ticket_index(ticket)->0 == trapped.len(),
    ensures
        claim_is_good(trapped.push((origin, assets)), origin, ticket, assets),
        released(trapped.push((origin, assets)), trapped.len() as int) == trapped,
        !claim_is_good(trapped, origin, ticket, assets),
{
    let after = trapped.push((origin, assets));
    assert(released(after, trapped.len() as int) =~= trapped);
}

/// A claim takes out of the trap what is claimed, and nothing else.
pub proof fn law_claims_release_what_is_claimed(
    trapped: Seq<Trapped>,
    origin: LocationView,
    ticket: LocationView,
    what: Seq<AssetView>,
)
    requires
        claim_is_good(trapped, origin, ticket, what),
    ensures
        released(trapped, ticket_index(ticket)->0 as int).to_multiset()
            == trapped.to_multiset().remove((origin, what)),
{
    broadcast use vstd::seq_lib::to_multiset_update;

    let i = ticket_index(ticket)->0 as int;
    let moved = trapped.update(i, trapped.last());
    trapped.to_multiset_ensures();
    moved.to_multiset_ensures();
    assert(moved.drop_last() =~= moved.remove(moved.len() - 1));
    assert(trapped.contains(trapped[i]));
    assert(moved.to_multiset() =~= trapped.to_multiset().insert(trapped.last()).remove(trapped[i]));
    assert(moved.last() == trapped.last());
    assert(moved.to_multiset().remove(moved.last()) =~= trapped.to_multiset().remove(trapped[i]));
}

// Exchanges.

/// Exchanges any assets for those that are wanted.
pub struct TestAssetExchanger;

impl TestAssetExchanger {
    /// Gives what is wanted, whatever is given for it.
    pub fn exchange_asset(want: &Vec<Asset>) -> (r: Vec<Asset>)
        ensures
            assets_view(r@) == assets_view(want@),
    {
        copied_assets(want)
    }
}

// Pallets.

/// The version of a crate.
#[derive(Clone, Copy, Debug, PartialEq, Eq, Structural)]
pub struct CrateVersion {
    pub major: u16,
    pub minor: u8,
    pub patch: u8,
}

/// What is known of a pallet.
#[derive(Clone, Copy, Debug, PartialEq, Eq)]
pub struct PalletInfoData {
    pub index: usize,
    pub name: &'static str,
    pub module_name: &'static str,
    pub crate_version: CrateVersion,
}

/// Tells of two pallets.
pub struct TestPalletsInfo;

impl TestPalletsInfo {
    /// The number of pallets.
    pub fn count() -> (r: usize)
        ensures
            r == 2,
    {
        2
    }

    /// What is known of the pallets.
    pub fn infos() -> (r: Vec<PalletInfoData>)
        ensures
            r@.len() == 2,
            r@[0].index == 0,
            r@[0].name@ == "System"@,
            r@[0].module_name@ == "pallet_system"@,
            r@[0].crate_version == (CrateVersion { major: 1, minor: 10, patch: 1 }),
            r@[1].index == 1,
            r@[1].name@ == "Balances"@,
            r@[1].module_name@ == "pallet_balances"@,
            r@[1].crate_version == (CrateVersion { major: 1, minor: 42, patch: 69 }),
    {
        let mut infos: Vec<PalletInfoData> = Vec::new();
        infos.push(
            PalletInfoData {
                index: 0,
                name: "System",
                module_name: "pallet_system",
                crate_version: CrateVersion { major: 1, minor: 10, patch: 1 },
            },
        );
        infos.push(
            PalletInfoData {
                index: 1,
                name: "Balances",
                module_name: "pallet_balances",
                crate_version: CrateVersion { major: 1, minor: 42, patch: 69 },
            },
        );
        infos
    }
}

// Aliases.

/// Knows one place as an alias of a consensus system.
pub struct TestUniversalAliases;

impl TestUniversalAliases {
    /// Whether the place is the one that everything is seen from, and the
    /// consensus system that of the genesis block whose hash is zero.
    pub fn contains(location: &Location, junction: Junction) -> (r: bool)
        ensures
            r == (location@ == here() && junction == Junction::GlobalConsensus(
                NetworkId::ByGenesis(Bytes32 { high: 0, low: 0 }),
            )),
    {
        let genesis = NetworkId::ByGenesis(Bytes32 { high: 0, low: 0 });
        if location.parents == 0 && location.interior.len() == 0 {
            assert(location@ =~= here());
            junction == Junction::GlobalConsensus(genesis)
        } else {
            assert(location@.parents != 0 || location@.interior.len() != 0);
            false
        }
    }
}

// Locks.

/// An asset that is locked, and the place that can unlock it.
pub type Locked = (LocationView, AssetView);

/// The assets that are locked.
pub struct LockedAssets {
    pub locked: Vec<(Location, Asset)>,
}

impl View for LockedAssets {
    type V = Seq<Locked>;

    open spec fn view(&self) -> Seq<Locked> {
        Seq::new(self.locked@.len(), |i: int| (self.locked[i].0@, self.locked[i].1@))
    }
}

impl LockedAssets {
    /// No locked assets.
    pub fn new() -> (r: Self)
        ensures
            r@ == Seq::<Locked>::empty(),
    {
        let r = LockedAssets { locked: Vec::new() };
        assert(r@ =~= Seq::<Locked>::empty());
        r
    }
}

/// A lock to be made.
pub struct TestLockTicket(pub Location, pub Asset);

impl TestLockTicket {
    /// Locks the asset.
    pub fn enact(self, locked: &mut LockedAssets)
        ensures
            final(locked)@ == old(locked)@.push((self.0@, self.1@)),
    {
        let ghost entry = (self.0@, self.1@);
        locked.locked.push((self.0, self.1));
        assert(locked@ =~= old(locked)@.push(entry));
    }
}

/// The locks without the first of a kind.
pub open spec fn unlocked(locked: Seq<Locked>, entry: Locked) -> Seq<Locked> {
    match locked.index_of_first(entry) {
        Some(i) => locked.remove(i),
        None => locked,
    }
}

/// A lock to be undone.
pub struct TestUnlockTicket(pub Location, pub Asset);

impl TestUnlockTicket {
    /// Unlocks the asset, if it is locked.
    pub fn enact(self, locked: &mut LockedAssets)
        ensures
            final(locked)@ == unlocked(old(locked)@, (self.0@, self.1@)),
    {
        let ghost entry = (self.0@, self.1@);
        let ghost before = locked@;
        proof {
            before.index_of_first_ensures(entry);
        }
        let mut i: usize = 0;
        while i < locked.locked.len()
            invariant
                i <= locked.locked.len(),
                locked@ == before,
                before == old(locked)@,
                entry == (self.0@, self.1@),
                forall|k: int| 0 <= k < i ==> (#[trigger] before[k]) != entry,
                match before.index_of_first(entry) {
                    Some(f) => 0 <= f < before.len() && before[f] == entry && forall|j: int|
                        0 <= j < f < before.len() ==> before[j] != entry,
                    None => !before.contains(entry),
                },
            decreases locked.locked.len() - i,
        {
            assert(before[i as int] == (locked.locked[i as int].0@, locked.locked[i as int].1@));
            if locked.locked[i].0.same(&self.0) && locked.locked[i].1.same(&self.1) {
                assert(before.contains(before[i as int]));
                assert(before.index_of_first(entry) == Some(i as int));
                locked.locked.remove(i);
                assert(locked@ =~= before.remove(i as int));
                return;
            }
            i += 1;
        }
    }
}

/// A lock to be reduced.
pub struct TestReduceTicket;

impl TestReduceTicket {
    /// Leaves all locks as they are.
    pub fn enact(self, locked: &mut LockedAssets)
        ensures
            *final(locked) == *old(locked),
    {
    }
}

/// Prepares locks, whoever owns the assets.
pub struct TestAssetLocker;

impl TestAssetLocker {
    /// Prepares a lock.
    pub fn prepare_lock(unlocker: Location, asset: Asset) -> (r: TestLockTicket)
        ensures
            r.0 == unlocker,
            r.1 == asset,
    {
        TestLockTicket(unlocker, asset)
    }

    /// Prepares to undo a lock.
    pub fn prepare_unlock(unlocker: Location, asset: Asset) -> (r: TestUnlockTicket)
        ensures
            r.0 == unlocker,
            r.1 == asset,
    {
        TestUnlockTicket(unlocker, asset)
    }

    /// Prepares to reduce a lock.
    pub fn prepare_reduce_unlockable() -> (r: TestReduceTicket)
        ensures
            r == TestReduceTicket,
    {
        TestReduceTicket
    }
}

/// Undoing a lock right after it is made leaves as many locks of each kind as
/// there were, and just the locks that there were where there was none of its kind.
pub proof fn law_unlock_undoes_lock(locked: Seq<Locked>, entry: Locked)
    ensures
        unlocked(locked.push(entry), entry).to_multiset() == locked.to_multiset(),
        !locked.contains(entry) ==> unlocked(locked.push(entry), entry) == locked,
{
    let after = locked.push(entry);
    after.index_of_first_ensures(entry);
    assert(after[locked.len() as int] == entry);
    let f = after.index_of_first(entry)->0;
    after.to_multiset_ensures();
    locked.to_multiset_ensures();
    assert(after.to_multiset().remove(entry) =~= locked.to_multiset());
    if !locked.contains(entry) {
        if f < locked.len() {
            assert(locked[f] == entry);
        }
        assert(after.remove(f) =~= locked);
    }
}

/// A ticket stands for a place in the trap if and only if it is just an index,
/// seen from here, and then for the place with that number.
pub proof fn law_tickets_are_indices(ticket: LocationView, index: u128)
    ensures
        ticket == (LocationView { parents: 0, interior: seq![Junction::GeneralIndex(index)] })
            ==> ticket_index(ticket) == Some(index as usize),
        ticket.parents != 0 ==> ticket_index(ticket) is None,
        ticket.interior.len() != 1 ==> ticket_index(ticket) is None,
        ticket.interior.len() == 1 && !(ticket.interior[0] is GeneralIndex) ==> ticket_index(
            ticket,
        ) is None,
{
}

/// A claim is granted if and only if the claimant left just what it claims in
/// the place that the ticket stands for.
pub proof fn law_claims_are_granted_to_the_owner(
    trapped: Seq<Trapped>,
    origin: LocationView,
    ticket: LocationView,
    what: Seq<AssetView>,
)
    ensures
        claim_is_good(trapped, origin, ticket, what) <==> {
            &&& ticket_index(ticket) is Some
            &&& ticket_index(ticket)->0 < trapped.len()
            &&& trapped[ticket_index(ticket)->0 as int].0 == origin
            &&& trapped[ticket_index(ticket)->0 as int].1 == what
        },
{
}

/// What is released from the trap leaves its place to the last, and all else
/// stays where it is.
pub proof fn law_the_last_takes_the_place_released(trapped: Seq<Trapped>, i: int, k: int)
    requires
        0 <= i < trapped.len(),
        0 <= k < trapped.len() - 1,
    ensures
        released(trapped, i).len() == trapped.len() - 1,
        released(trapped, i)[k] == (if k == i {
            trapped[trapped.len() - 1]
        } else {
            trapped[k]
        }),
{
}

/// A subscription of a place is on record if and only if one of its requests
/// asks for a query.
pub proof fn law_subscriptions_are_requests(requests: Seq<Request>, location: LocationView)
    ensures
        (exists|query: Query| #[trigger] requests.contains((location, Some(query)))) <==> subscribed(
            requests,
            location,
        ),
{
    if subscribed(requests, location) {
        let i = choose|i: int|
            0 <= i < requests.len() && (#[trigger] requests[i]).0 == location
                && requests[i].1 is Some;
        let query = requests[i].1->0;
        assert(requests[i] == (location, Some(query)));
        assert(requests.contains((location, Some(query))));
    }
    if exists|query: Query| #[trigger] requests.contains((location, Some(query))) {
        let query = choose|query: Query| #[trigger] requests.contains((location, Some(query)));
        let i = choose|i: int| 0 <= i < requests.len() && requests[i] == (location, Some(query));
        assert(requests[i].0 == location);
    }
}

/// The requests of others are kept in their order, each as often as it was made.
pub proof fn law_requests_of_others_are_kept(requests: Seq<Request>, request: Request)
    ensures
        requests_of_others(requests.push(request), request.0) == requests_of_others(
            requests,
            request.0,
        ),
        forall|location: LocationView|
            location != request.0 ==> #[trigger] requests_of_others(
                requests.push(request),
                location,
            ) == requests_of_others(requests, location).push(request),
        forall|location: LocationView| #[trigger]
            requests_of_others(Seq::<Request>::empty(), location) == Seq::<Request>::empty(),
{
    requests.lemma_filter_push(request, of_another(request.0));
    assert forall|location: LocationView|
        location != request.0 implies #[trigger] requests_of_others(
        requests.push(request),
        location,
    ) == requests_of_others(requests, location).push(request) by {
        requests.lemma_filter_push(request, of_another(location));
    }
    reveal(Seq::filter);
}

/// A lock that is undone is the first of its kind: all before it and all behind
/// it stay in their order. Where there is none of its kind, all stay.
pub proof fn law_the_first_lock_of_a_kind_is_undone(locked: Seq<Locked>, entry: Locked, i: int)
    ensures
        !locked.contains(entry) ==> unlocked(locked, entry) == locked,
        0 <= i < locked.len() && locked[i] == entry && !locked.take(i).contains(entry) ==> unlocked(
            locked,
            entry,
        ) == locked.take(i) + locked.skip(i + 1),
{
    locked.index_of_first_ensures(entry);
    if 0 <= i < locked.len() && locked[i] == entry && !locked.take(i).contains(entry) {
        let f = locked.index_of_first(entry)->0;
        assert(locked.contains(locked[i]));
        if f < i {
            assert(locked.take(i)[f] == entry);
        } else if i < f {
            assert(locked[i] != entry);
        }
        assert(locked.remove(i) =~= locked.take(i) + locked.skip(i + 1));
    }
}

/// The place that everything is seen from is no step up and no step down.
pub proof fn law_here_is_no_step_away(place: LocationView)
    ensures
        place == here() <==> place.parents == 0 && place.interior.len() == 0,
{
    if place.parents == 0 && place.interior.len() == 0 {
        assert(place =~= here());
    }
}

} // verus!

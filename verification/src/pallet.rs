//! A market that sells bulk coretime by descending auctions with a uniform clearing price.
//!
//! Each sale goes through three phases. In the Market phase bids are placed at
//! or below a descending price; they are binding and can only be raised. In
//! the Renewal phase tenants exercise their renewal rights and may displace
//! winners of the auction. In the Settlement phase the next sale is awaited.

use crate::arithmetic::Perbill;
use crate::auction;
use crate::auction::{Action, Allocation, Bid};
use crate::market::{
    CloseBidResult, CoreCountProvider, DisplacedBid, Market, MarketError, MarketState, OrderResult,
    RenewalOrderResult, RenewalRightsProvider, SalesStarted, TickAction,
};
use crate::model;
use crate::model::{Event, MarketModel};
use crate::price;
use crate::primitives::{CoreIndex, PotentialRenewalId, RegionId, StatusRecord, Timeslice};
use crate::records::{
    AccountId, Balance, BidId, BidRecord, BlockNumber, ConfigRecord, ConfigRecordOf,
    SaleInfoRecordOf, SalePhase,
};
use crate::renewal;
use crate::renewal::RenewalDecision;
use crate::storage;
use crate::weight::{Weight, WeightMeter};
use vstd::prelude::*;

verus! {

/// How much of a block the operations of a market take.
pub trait WeightInfo {
    /// What it takes to settle an auction.
    spec fn settlement() -> Weight;

    /// What it takes to conclude a sale.
    spec fn conclusion() -> Weight;

    /// What it takes to begin the next sale.
    spec fn rotation() -> Weight;

    fn place_order() -> Weight;

    fn raise_bid() -> Weight;

    fn place_renewal_order_market() -> Weight;

    fn place_renewal_order_renewal() -> Weight;

    fn place_renewal_order_displacement() -> Weight;

    fn settle_auction() -> (r: Weight)
        ensures
            r == Self::settlement(),
    ;

    fn finalize_sale() -> (r: Weight)
        ensures
            r == Self::conclusion(),
    ;

    fn rotate_sale() -> (r: Weight)
        ensures
            r == Self::rotation(),
    ;
}

/// Operations that take nothing.
impl WeightInfo for () {
    open spec fn settlement() -> Weight {
        Weight { ref_time: 0, proof_size: 0 }
    }

    open spec fn conclusion() -> Weight {
        Weight { ref_time: 0, proof_size: 0 }
    }

    open spec fn rotation() -> Weight {
        Weight { ref_time: 0, proof_size: 0 }
    }

    fn place_order() -> (r: Weight)
        ensures
            r == (Weight { ref_time: 0, proof_size: 0 }),
    {
        Weight::zero()
    }

    fn raise_bid() -> (r: Weight)
        ensures
            r == (Weight { ref_time: 0, proof_size: 0 }),
    {
        Weight::zero()
    }

    fn place_renewal_order_market() -> (r: Weight)
        ensures
            r == (Weight { ref_time: 0, proof_size: 0 }),
    {
        Weight::zero()
    }

    fn place_renewal_order_renewal() -> (r: Weight)
        ensures
            r == (Weight { ref_time: 0, proof_size: 0 }),
    {
        Weight::zero()
    }

    fn place_renewal_order_displacement() -> (r: Weight)
        ensures
            r == (Weight { ref_time: 0, proof_size: 0 }),
    {
        Weight::zero()
    }

    fn settle_auction() -> (r: Weight) {
        Weight::zero()
    }

    fn finalize_sale() -> (r: Weight) {
        Weight::zero()
    }

    fn rotate_sale() -> (r: Weight) {
        Weight::zero()
    }
}

/// What a market is set up with.
pub trait Config {
    /// How much of a block the operations take.
    type WeightInfo: WeightInfo;

    /// Provides the number of reserved cores.
    type CoreCountProvider: CoreCountProvider;

    /// Tells who holds renewal rights.
    type RenewalRights: RenewalRightsProvider<AccountId>;

    /// The number of relay-chain blocks in a timeslice.
    spec fn period() -> BlockNumber;

    /// The most bids that can be placed in a sale.
    spec fn bid_limit() -> u32;

    /// Returns the number of relay-chain blocks in a timeslice.
    fn timeslice_period() -> (r: BlockNumber)
        ensures
            r == Self::period(),
    ;

    /// Returns the most bids that can be placed in a sale.
    fn max_bids() -> (r: u32)
        ensures
            r == Self::bid_limit(),
    ;
}

/// The market.
pub struct Pallet<T: Config> {
    /// Provides the number of reserved cores.
    pub core_count_provider: T::CoreCountProvider,
    /// Tells who holds renewal rights.
    pub renewal_rights: T::RenewalRights,
    /// The hash of the parent block, the source of randomness.
    pub parent_hash: Vec<u8>,
    /// The parameters of the market.
    pub configuration: Option<ConfigRecordOf>,
    /// The status of the system, as the broker keeps it.
    pub status: Option<StatusRecord>,
    /// The current sale.
    pub sale_info: Option<SaleInfoRecordOf>,
    /// The phase of the sale; none before sales are started.
    pub current_phase: Option<SalePhase>,
    /// The bids of the Market phase, in the order in which they were placed.
    /// When the auction is settled they are walked in the order of their
    /// storage keys, and bids of one price are ranked in that order.
    pub bids: Vec<Bid>,
    /// The identity of the next bid, and the number of bids placed in the sale.
    pub next_bid_id: BidId,
    /// What the winners of the auction have been allotted.
    pub allocations: Vec<Allocation>,
    /// The accounts that won in the auction of the sale, displaced later or not.
    pub winners: Vec<AccountId>,
    /// The price from the last settlement.
    pub auction_clearing_price: Option<Balance>,
    /// The number of renewals in the current Renewal phase.
    pub renewal_count: u32,
    /// What the market has reported.
    pub events: Vec<Event>,
}

impl<T: Config> View for Pallet<T> {
    type V = MarketModel;

    open spec fn view(&self) -> MarketModel {
        MarketModel {
            configuration: self.configuration,
            status: self.status,
            sale_info: self.sale_info,
            current_phase: self.current_phase,
            bids: self.bids@,
            next_bid_id: self.next_bid_id,
            allocations: self.allocations@,
            winners: self.winners@,
            auction_clearing_price: self.auction_clearing_price,
            renewal_count: self.renewal_count,
            events: self.events@,
        }
    }
}

impl<T: Config> Pallet<T> {
    /// Whether `self` is set up as `other` is.
    pub open spec fn same_setup(self, other: Self) -> bool {
        &&& self.core_count_provider == other.core_count_provider
        &&& self.renewal_rights == other.renewal_rights
        &&& self.parent_hash == other.parent_hash
    }

    /// A market that nothing has been told yet.
    pub fn new(
        core_count_provider: T::CoreCountProvider,
        renewal_rights: T::RenewalRights,
        parent_hash: Vec<u8>,
    ) -> (r: Self)
        ensures
            r.core_count_provider == core_count_provider,
            r.renewal_rights == renewal_rights,
            r.parent_hash == parent_hash,
            r@ == MarketModel::blank(),
            r@.wf(),
    {
        let r = Pallet {
            core_count_provider,
            renewal_rights,
            parent_hash,
            configuration: None,
            status: None,
            sale_info: None,
            current_phase: None,
            bids: Vec::new(),
            next_bid_id: 0,
            allocations: Vec::new(),
            winners: Vec::new(),
            auction_clearing_price: None,
            renewal_count: 0,
            events: Vec::new(),
        };
        assert(r@.bids =~= Seq::empty());
        assert(r@.allocations =~= Seq::empty());
        assert(r@.winners =~= Seq::empty());
        assert(r@.events =~= Seq::empty());
        r
    }

    /// Reports that a new sale has been initialized.
    fn report_sale(&mut self, sale: &SaleInfoRecordOf, config: &ConfigRecordOf)
        ensures
            final(self)@ == (MarketModel {
                events: old(self)@.events.push(model::sale_initialized(*sale, *config)),
                ..old(self)@
            }),
            final(self).same_setup(*old(self)),
    {
        self.events.push(
            Event::SaleInitialized {
                sale_start: sale.sale_start,
                market_period: config.market_period,
                start_price: sale.opening_price,
                reserve_price: sale.reserve_price,
                region_begin: sale.region_begin,
                region_end: sale.region_end,
                ideal_cores_sold: sale.ideal_cores_sold,
                cores_offered: sale.cores_offered,
            },
        );
    }

    /// The place of the bid with the given identity.
    fn find_bid(&self, id: BidId) -> (r: Option<usize>)
        requires
            self@.wf(),
        ensures
            match r {
                Some(i) => i < self.bids.len() && self.bids[i as int].0 == id && model::has_bid(
                    self.bids@,
                    id,
                ) && model::bid_of(self.bids@, id) == self.bids[i as int].1,
                None => !model::has_bid(self.bids@, id),
            },
    {
        let mut i: usize = 0;
        while i < self.bids.len()
            invariant
                i <= self.bids.len(),
                self@.wf(),
                forall|k: int| 0 <= k < i ==> (#[trigger] self.bids[k]).0 != id,
            decreases self.bids.len() - i,
        {
            if self.bids[i].0 == id {
                proof {
                    let c = choose|c: int|
                        0 <= c < self.bids@.len() && (#[trigger] self.bids@[c]).0 == id;
                    assert(self@.bids[c].0 == self@.bids[i as int].0);
                }
                return Some(i);
            }
            i += 1;
        }
        None
    }

    /// Whether an account won in the auction of the sale.
    fn has_won(&self, who: AccountId) -> (r: bool)
        ensures
            r == self@.won(who),
    {
        let mut i: usize = 0;
        while i < self.winners.len()
            invariant
                i <= self.winners.len(),
                forall|k: int| 0 <= k < i ==> (#[trigger] self.winners[k]) != who,
            decreases self.winners.len() - i,
        {
            if self.winners[i] == who {
                assert(self@.winners[i as int] == who);
                return true;
            }
            i += 1;
        }
        false
    }

    /// What the end of the current phase takes of a block.
    pub open spec fn phase_weight(self) -> Weight {
        match self.current_phase {
            Some(SalePhase::Market) => T::WeightInfo::settlement(),
            Some(SalePhase::Renewal) => T::WeightInfo::conclusion(),
            _ => T::WeightInfo::rotation(),
        }
    }

    /// Whether the cores that are allotted, if a renewal counts them, can be counted.
    pub open spec fn can_count(self) -> bool {
        self.current_phase == Some(SalePhase::Renewal) && self.configuration is Some
            && self.sale_info is Some ==> renewal::allotted(
            self.allocations@,
            self.renewal_count,
        ) <= u16::MAX
    }

    /// Whether the next sale, if it is due, ends on a timeslice.
    pub open spec fn can_advance(self, last_committed_timeslice: Timeslice) -> bool {
        self.current_phase == Some(SalePhase::Settlement) && self.configuration is Some
            && self.sale_info is Some && last_committed_timeslice >= self.sale_info->0.region_begin
            ==> {
            &&& self.core_count_provider.countable()
            &&& self.sale_info->0.region_end + self.configuration->0.region_length <= u32::MAX
        }
    }

    /// Sells a renewal where `core_count` cores can be sold.
    pub fn renew(&mut self, who: &AccountId, core_count: CoreIndex) -> (r: Result<
        RenewalOrderResult<Balance, BidId, AccountId>,
        MarketError,
    >)
        requires
            old(self)@.wf(),
            old(self).can_count(),
        ensures
            match old(self)@.renewal_refusal(core_count) {
                Some(e) => r == Err::<RenewalOrderResult<Balance, BidId, AccountId>, MarketError>(
                    e,
                ) && final(self)@ == old(self)@,
                None => r == Ok::<RenewalOrderResult<Balance, BidId, AccountId>, MarketError>(
                    old(self)@.renewal_result(*who, core_count),
                ) && final(self)@ == old(self)@.after_renewal(*who, core_count),
            },
            final(self)@.wf(),
            final(self).same_setup(*old(self)),
    {
        let config = match self.configuration {
            Some(c) => c,
            None => {
                return Err(MarketError::Uninitialized);
            },
        };
        let sale = match self.sale_info {
            Some(s) => s,
            None => {
                return Err(MarketError::NoSales);
            },
        };
        match self.current_phase {
            None => {
                return Err(MarketError::Uninitialized);
            },
            Some(SalePhase::Market) | Some(SalePhase::Settlement) => {
                return Err(MarketError::WrongPhase);
            },
            Some(SalePhase::Renewal) => {},
        }
        let clearing: Balance = match self.auction_clearing_price {
            Some(p) => p,
            None => sale.reserve_price,
        };
        let won = self.has_won(*who);
        let price: Balance = renewal::renewal_price(&sale, &config, clearing, won);
        let decision = renewal::decide_renewal(
            &sale,
            config.limit_cores_offered,
            &self.allocations,
            self.renewal_count,
            core_count,
        );
        proof {
            let chosen = self@.renewal_decision(core_count);
            renewal::law_decision_is_unique(
                chosen,
                decision,
                sale,
                config.limit_cores_offered,
                self@.allocations,
                self@.renewal_count,
                core_count,
            );
        }
        let ghost before = self@;
        match decision {
            RenewalDecision::Unallotted(core) => {
                let region_id: RegionId = renewal::sale_region(&sale, core);
                self.renewal_count = self.renewal_count + 1;
                self.events.push(Event::RenewalExercised { who: *who, price, region_id });
                Ok(
                    RenewalOrderResult::Sold {
                        price,
                        next_renewal_price: price,
                        region_id,
                        effective_to: sale.region_end,
                        displaced: None,
                    },
                )
            },
            RenewalDecision::Displace(i) => {
                let displaced: Allocation = self.allocations.remove(i);
                let region_id: RegionId = renewal::sale_region(&sale, displaced.core);
                let refund: Balance = match sale.clearing_price {
                    Some(p) => p,
                    None => 0,
                };
                self.events.push(
                    Event::BidDisplaced { who: displaced.who, bid_id: displaced.bid_id, refund },
                );
                self.renewal_count = self.renewal_count + 1;
                self.events.push(Event::RenewalExercised { who: *who, price, region_id });
                Ok(
                    RenewalOrderResult::Sold {
                        price,
                        next_renewal_price: price,
                        region_id,
                        effective_to: sale.region_end,
                        displaced: Some(
                            DisplacedBid { who: displaced.who, refund, bid_id: displaced.bid_id },
                        ),
                    },
                )
            },
            RenewalDecision::Unavailable => Err(MarketError::Unavailable),
        }
    }

    /// Ends the Market phase: settles the auction.
    fn end_market(&mut self, sale: &SaleInfoRecordOf) -> (r: Vec<Action>)
        requires
            old(self)@.wf(),
            old(self)@.sale_info == Some(*sale),
        ensures
            final(self)@ == old(self)@.after_settlement(
                old(self).parent_hash@,
                old(self).renewal_rights,
                T::bid_limit(),
            ),
            r@ == old(self)@.refunds(old(self).parent_hash@).push(TickAction::ProcessRenewals),
            final(self)@.wf(),
            final(self).same_setup(*old(self)),
    {
        let walked: Vec<Bid> = storage::walk_bids(&self.bids);
        let settlement = auction::settle_auction(
            sale,
            &walked,
            &self.parent_hash,
            &self.renewal_rights,
            T::max_bids(),
        );
        self.bids = Vec::new();
        self.auction_clearing_price = Some(settlement.clearing_price);
        self.allocations = settlement.allocations;
        self.winners = settlement.accounts;
        self.sale_info = Some(settlement.sale);
        self.events.push(
            Event::AuctionSettled {
                clearing_price: settlement.clearing_price,
                winners: settlement.winners,
            },
        );
        self.current_phase = Some(SalePhase::Renewal);
        self.events.push(
            Event::PhaseTransitioned { from: SalePhase::Market, to: SalePhase::Renewal },
        );
        let mut actions: Vec<Action> = settlement.actions;
        actions.push(TickAction::ProcessRenewals);
        assert(self@.bids =~= Seq::empty());
        actions
    }

    /// Ends the Renewal phase: concludes the sale.
    fn end_renewal(&mut self, sale: &SaleInfoRecordOf) -> (r: Vec<Action>)
        requires
            old(self)@.wf(),
            old(self)@.current_phase == Some(SalePhase::Renewal),
            old(self)@.sale_info == Some(*sale),
        ensures
            final(self)@ == old(self)@.after_conclusion(),
            r@ == renewal::region_sales(*sale, old(self)@.allocations),
            final(self)@.wf(),
            final(self).same_setup(*old(self)),
    {
        let (actions, concluded) = renewal::finalize_sale(
            sale,
            &self.allocations,
            self.renewal_count,
        );
        let count: u32 = self.allocations.len() as u32;
        self.allocations = Vec::new();
        self.winners = Vec::new();
        self.sale_info = Some(concluded);
        self.events.push(Event::SaleFinalized { regions_issued: count });
        self.current_phase = Some(SalePhase::Settlement);
        self.renewal_count = 0;
        self.events.push(
            Event::PhaseTransitioned { from: SalePhase::Renewal, to: SalePhase::Settlement },
        );
        assert(self@.allocations =~= Seq::empty());
        assert(self@.winners =~= Seq::empty());
        actions
    }

    /// Ends the Settlement phase: begins the next sale.
    fn end_settlement(
        &mut self,
        now: BlockNumber,
        core_count: CoreIndex,
        config: &ConfigRecordOf,
        sale: &SaleInfoRecordOf,
    ) -> (r: Vec<Action>)
        requires
            old(self)@.wf(),
            old(self)@.current_phase == Some(SalePhase::Settlement),
            old(self)@.configuration == Some(*config),
            old(self)@.sale_info == Some(*sale),
            old(self).core_count_provider.countable(),
            sale.region_end + config.region_length <= u32::MAX,
        ensures
            final(self)@ == old(self)@.after_rotation(
                now,
                core_count,
                old(self).core_count_provider.reserved(),
            ),
            r@ == old(self)@.phase_actions(
                now,
                core_count,
                old(self).core_count_provider.reserved(),
                old(self).parent_hash@,
            ),
            final(self)@.wf(),
            final(self).same_setup(*old(self)),
    {
        let reserved_cores: CoreIndex = self.core_count_provider.reserved_core_count();
        let (new_prices, new_sale) = price::rotate_sale(
            sale,
            config,
            core_count,
            reserved_cores,
            now,
        );
        let start_price: Balance = new_sale.opening_price;
        self.sale_info = Some(new_sale);
        self.current_phase = Some(SalePhase::Market);
        self.next_bid_id = 0;
        self.auction_clearing_price = None;
        self.events.push(
            Event::PhaseTransitioned { from: SalePhase::Settlement, to: SalePhase::Market },
        );
        self.report_sale(&new_sale, config);
        let mut actions: Vec<Action> = Vec::new();
        actions.push(
            TickAction::SaleRotated { old_sale: *sale, new_sale, new_prices, start_price },
        );
        actions
    }

    /// Ends the current phase if it is over and the meter has room for what that takes.
    pub fn advance(
        &mut self,
        now: BlockNumber,
        core_count: CoreIndex,
        last_committed_timeslice: Timeslice,
        weight_meter: &mut WeightMeter,
    ) -> (r: Vec<Action>)
        requires
            old(self)@.wf(),
            old(weight_meter).has(old(self).phase_weight()) ==> old(self).can_advance(
                last_committed_timeslice,
            ),
        ensures
            if old(self)@.phase_is_over(now, last_committed_timeslice) && old(weight_meter).has(
                old(self).phase_weight(),
            ) {
                &&& r@ == old(self)@.phase_actions(
                    now,
                    core_count,
                    old(self).core_count_provider.reserved(),
                    old(self).parent_hash@,
                )
                &&& final(self)@ == old(self)@.after_phase(
                    now,
                    core_count,
                    old(self).core_count_provider.reserved(),
                    old(self).parent_hash@,
                    old(self).renewal_rights,
                    T::bid_limit(),
                )
                &&& *final(weight_meter) == old(weight_meter).after(old(self).phase_weight())
            } else {
                &&& r@ == Seq::<Action>::empty()
                &&& final(self)@ == old(self)@
                &&& *final(weight_meter) == *old(weight_meter)
            },
            final(self)@.wf(),
            final(self).same_setup(*old(self)),
    {
        let config = match self.configuration {
            Some(c) => c,
            None => {
                return Vec::new();
            },
        };
        let sale = match self.sale_info {
            Some(s) => s,
            None => {
                return Vec::new();
            },
        };
        let phase = match self.current_phase {
            Some(p) => p,
            None => {
                return Vec::new();
            },
        };
        match phase {
            SalePhase::Market => {
                let market_end: BlockNumber = sale.sale_start.saturating_add(config.market_period);
                if now >= market_end {
                    let weight = T::WeightInfo::settle_auction();
                    if !weight_meter.can_consume(weight) {
                        return Vec::new();
                    }
                    weight_meter.consume(weight);
                    return self.end_market(&sale);
                }
            },
            SalePhase::Renewal => {
                let market_end: BlockNumber = sale.sale_start.saturating_add(config.market_period);
                let renewal_end: BlockNumber = market_end.saturating_add(config.renewal_period);
                if now >= renewal_end {
                    let weight = T::WeightInfo::finalize_sale();
                    if !weight_meter.can_consume(weight) {
                        return Vec::new();
                    }
                    weight_meter.consume(weight);
                    return self.end_renewal(&sale);
                }
            },
            SalePhase::Settlement => {
                if last_committed_timeslice >= sale.region_begin {
                    let weight = T::WeightInfo::rotate_sale();
                    if !weight_meter.can_consume(weight) {
                        return Vec::new();
                    }
                    weight_meter.consume(weight);
                    return self.end_settlement(now, core_count, &config, &sale);
                }
            },
        }
        Vec::new()
    }
}

impl<T: Config> Market for Pallet<T> {
    type AccountId = AccountId;

    type Balance = Balance;

    type BlockNumber = BlockNumber;

    type Error = MarketError;

    type BidId = BidId;

    type CoreCount = T::CoreCountProvider;

    open spec fn can_start(&self, block_number: BlockNumber) -> bool {
        &&& self@.wf()
        &&& self.configuration is Some ==> {
            &&& T::period() > 0
            &&& self.core_count_provider.countable()
            &&& self@.bootstrap_sale(block_number, 0, T::period()).region_end
                + self.configuration->0.region_length <= u32::MAX
        }
    }

    open spec fn can_order(&self, block_number: BlockNumber) -> bool {
        self@.wf()
    }

    open spec fn can_raise(&self, block_number: BlockNumber) -> bool {
        self@.wf()
    }

    open spec fn can_renew(&self, block_number: BlockNumber, recorded_price: Balance) -> bool {
        &&& self@.wf()
        &&& self.status is Some ==> self.can_count()
    }

    open spec fn can_tick(&self, now: BlockNumber, weight_meter: WeightMeter) -> bool {
        &&& self@.wf()
        &&& self.status is Some && weight_meter.has(self.phase_weight()) ==> self.can_advance(
            self.status->0.last_committed_timeslice,
        )
    }

    fn start_sales(
        &mut self,
        block_number: BlockNumber,
        reserve_price: Balance,
        core_count: CoreIndex,
    ) -> (r: Result<SalesStarted<Balance, BlockNumber>, MarketError>)
        ensures
            match old(self).configuration {
                None => r == Err::<SalesStarted<Balance, BlockNumber>, MarketError>(
                    MarketError::Uninitialized,
                ) && final(self)@ == old(self)@,
                Some(config) => {
                    let old_sale = old(self)@.bootstrap_sale(
                        block_number,
                        reserve_price,
                        T::period(),
                    );
                    let new_sale = old(self)@.first_sale(
                        block_number,
                        reserve_price,
                        core_count,
                        old(self).core_count_provider.reserved(),
                        T::period(),
                    );
                    &&& r == Ok::<SalesStarted<Balance, BlockNumber>, MarketError>(
                        SalesStarted {
                            old_sale,
                            new_sale,
                            new_prices: price::next_prices(old_sale, config),
                            start_price: new_sale.opening_price,
                        },
                    )
                    &&& final(self)@ == old(self)@.after_start(
                        block_number,
                        reserve_price,
                        core_count,
                        old(self).core_count_provider.reserved(),
                        T::period(),
                    )
                },
            },
            final(self)@.wf(),
            final(self).same_setup(*old(self)),
    {
        let config = match self.configuration {
            Some(c) => c,
            None => {
                return Err(MarketError::Uninitialized);
            },
        };
        let period: BlockNumber = T::timeslice_period();
        let old_sale = price::sale_before_first(
            block_number,
            reserve_price,
            config.advance_notice,
            config.region_length,
            period,
        );
        let reserved_cores: CoreIndex = self.core_count_provider.reserved_core_count();
        let (new_prices, new_sale) = price::rotate_sale(
            &old_sale,
            &config,
            core_count,
            reserved_cores,
            block_number,
        );
        let start_price: Balance = new_sale.opening_price;
        self.status = Some(
            price::status_at_start(block_number, core_count, config.advance_notice, period),
        );
        self.sale_info = Some(new_sale);
        self.current_phase = Some(SalePhase::Market);
        self.report_sale(&new_sale, &config);
        Ok(SalesStarted { old_sale, new_sale, new_prices, start_price })
    }

    fn place_order(&mut self, block_number: BlockNumber, who: &AccountId, price_limit: Balance) -> (r:
        Result<OrderResult<Balance, BidId>, MarketError>)
        ensures
            match old(self)@.order_refusal(block_number, T::bid_limit()) {
                Some(e) => r == Err::<OrderResult<Balance, BidId>, MarketError>(e)
                    && final(self)@ == old(self)@,
                None => {
                    let bid_price = old(self)@.bid_price(block_number, price_limit);
                    &&& r == Ok::<OrderResult<Balance, BidId>, MarketError>(
                        OrderResult::BidPlaced { id: old(self)@.next_bid_id, bid_price },
                    )
                    &&& final(self)@ == old(self)@.after_order(*who, bid_price)
                },
            },
            final(self)@.wf(),
            final(self).same_setup(*old(self)),
    {
        if self.current_phase != Some(SalePhase::Market) {
            return Err(MarketError::WrongPhase);
        }
        let sale = match self.sale_info {
            Some(s) => s,
            None => {
                return Err(MarketError::NoSales);
            },
        };
        if block_number < sale.sale_start {
            return Err(MarketError::TooEarly);
        }
        let bid_id: BidId = self.next_bid_id;
        if bid_id >= T::max_bids() {
            return Err(MarketError::SoldOut);
        }
        let current_price: Balance = price::descending_price(
            block_number,
            &sale,
            &self.configuration,
        );
        let bid_price: Balance = if price_limit <= current_price {
            price_limit
        } else {
            current_price
        };
        self.next_bid_id = bid_id + 1;
        self.bids.push((bid_id, BidRecord { who: *who, price: bid_price }));
        self.events.push(Event::BidPlaced { who: *who, bid_id, amount: bid_price });
        Ok(OrderResult::BidPlaced { id: bid_id, bid_price })
    }

    fn place_renewal_order(
        &mut self,
        block_number: BlockNumber,
        who: &AccountId,
        renewal: PotentialRenewalId,
        recorded_price: Balance,
    ) -> (r: Result<RenewalOrderResult<Balance, BidId, AccountId>, MarketError>)
        ensures
            match (if old(self).status is Some {
                old(self)@.renewal_refusal(old(self).status->0.core_count)
            } else if old(self).configuration is Some && old(self).sale_info is None {
                Some(MarketError::NoSales)
            } else {
                Some(MarketError::Uninitialized)
            }) {
                Some(e) => r == Err::<RenewalOrderResult<Balance, BidId, AccountId>, MarketError>(
                    e,
                ) && final(self)@ == old(self)@,
                None => {
                    let core_count = old(self).status->0.core_count;
                    &&& r == Ok::<RenewalOrderResult<Balance, BidId, AccountId>, MarketError>(
                        old(self)@.renewal_result(*who, core_count),
                    )
                    &&& final(self)@ == old(self)@.after_renewal(*who, core_count)
                },
            },
            final(self)@.wf(),
            final(self).same_setup(*old(self)),
    {
        match self.status {
            Some(status) => self.renew(who, status.core_count),
            None => {
                if self.configuration.is_some() && self.sale_info.is_none() {
                    Err(MarketError::NoSales)
                } else {
                    Err(MarketError::Uninitialized)
                }
            },
        }
    }

    fn raise_bid(
        &mut self,
        block_number: BlockNumber,
        id: BidId,
        who: &AccountId,
        new_price: Balance,
    ) -> (r: Result<Balance, MarketError>)
        ensures
            match old(self)@.raise_refusal(block_number, id, *who, new_price) {
                Some(e) => r == Err::<Balance, MarketError>(e) && final(self)@ == old(self)@,
                None => {
                    &&& r == Ok::<Balance, MarketError>(
                        (new_price - model::bid_of(old(self)@.bids, id).price) as u64,
                    )
                    &&& final(self)@ == old(self)@.after_raise(id, *who, new_price)
                },
            },
            final(self)@.wf(),
            final(self).same_setup(*old(self)),
    {
        if self.current_phase != Some(SalePhase::Market) {
            return Err(MarketError::WrongPhase);
        }
        let sale = match self.sale_info {
            Some(s) => s,
            None => {
                return Err(MarketError::NoSales);
            },
        };
        let i: usize = match self.find_bid(id) {
            Some(i) => i,
            None => {
                return Err(MarketError::BidNotExist);
            },
        };
        let bid = self.bids[i].1;
        if bid.who != *who {
            return Err(MarketError::BidNotExist);
        }
        if new_price <= bid.price {
            return Err(MarketError::Overpriced);
        }
        let current_price: Balance = price::descending_price(
            block_number,
            &sale,
            &self.configuration,
        );
        if new_price > current_price {
            return Err(MarketError::BidTooHigh);
        }
        let additional: Balance = new_price - bid.price;
        self.bids.set(i, (id, BidRecord { who: bid.who, price: new_price }));
        self.events.push(Event::BidRaised { who: *who, bid_id: id, new_price, additional });
        assert(self@.bids =~= model::repriced(old(self)@.bids, id, new_price)) by {
            assert forall|k: int| 0 <= k < self@.bids.len() && k != i implies (
            #[trigger] old(self)@.bids[k]).0 != id by {}
        }
        Ok(additional)
    }

    fn close_bid(&mut self, id: BidId, maybe_check_owner: Option<AccountId>) -> (r: Result<
        CloseBidResult<AccountId, Balance>,
        MarketError,
    >)
        ensures
            r == Err::<CloseBidResult<AccountId, Balance>, MarketError>(
                MarketError::BidNotCancellable,
            ),
            *final(self) == *old(self),
    {
        Err(MarketError::BidNotCancellable)
    }

    fn tick(&mut self, now: BlockNumber, weight_meter: &mut WeightMeter) -> (r: Vec<Action>)
        ensures
            if old(self).status is Some && old(self)@.phase_is_over(
                now,
                old(self).status->0.last_committed_timeslice,
            ) && old(weight_meter).has(old(self).phase_weight()) {
                let core_count = old(self).status->0.core_count;
                &&& r@ == old(self)@.phase_actions(
                    now,
                    core_count,
                    old(self).core_count_provider.reserved(),
                    old(self).parent_hash@,
                )
                &&& final(self)@ == old(self)@.after_phase(
                    now,
                    core_count,
                    old(self).core_count_provider.reserved(),
                    old(self).parent_hash@,
                    old(self).renewal_rights,
                    T::bid_limit(),
                )
                &&& *final(weight_meter) == old(weight_meter).after(old(self).phase_weight())
            } else {
                &&& r@ == Seq::<Action>::empty()
                &&& final(self)@ == old(self)@
                &&& *final(weight_meter) == *old(weight_meter)
            },
            final(self)@.wf(),
            final(self).same_setup(*old(self)),
    {
        match self.status {
            Some(status) => self.advance(
                now,
                status.core_count,
                status.last_committed_timeslice,
                weight_meter,
            ),
            None => Vec::new(),
        }
    }
}

impl<T: Config> MarketState for Pallet<T> {
    type Config = ConfigRecordOf;

    open spec fn can_quote(&self, block_number: BlockNumber) -> bool {
        true
    }

    fn configuration(&self) -> (r: Option<ConfigRecordOf>)
        ensures
            r == self@.configuration,
    {
        self.configuration
    }

    fn set_configuration(&mut self, config: ConfigRecordOf)
        ensures
            final(self)@ == old(self)@.with_configuration(config),
            final(self).same_setup(*old(self)),
    {
        self.configuration = Some(config);
    }

    fn status(&self) -> (r: Option<StatusRecord>)
        ensures
            r == self@.status,
    {
        self.status
    }

    fn set_status(&mut self, status: StatusRecord)
        ensures
            final(self)@ == old(self)@.with_status(status),
            final(self).same_setup(*old(self)),
    {
        self.status = Some(status);
    }

    fn sale_info(&self) -> (r: Option<SaleInfoRecordOf>)
        ensures
            r == self@.sale_info,
    {
        self.sale_info
    }

    fn set_sale_info(&mut self, sale_info: SaleInfoRecordOf)
        ensures
            final(self)@ == old(self)@.with_sale_info(sale_info),
            final(self).same_setup(*old(self)),
    {
        self.sale_info = Some(sale_info);
    }

    fn current_price(&self, block_number: BlockNumber) -> (r: Option<Balance>)
        ensures
            r == (match (self@.sale_info, self@.current_phase) {
                (Some(sale), Some(SalePhase::Market)) => Some(
                    self@.auction_price(block_number) as u64,
                ),
                (Some(_), Some(_)) => self@.auction_clearing_price,
                _ => None,
            }),
    {
        let sale = match self.sale_info {
            Some(s) => s,
            None => {
                return None;
            },
        };
        match self.current_phase {
            Some(SalePhase::Market) => Some(
                price::descending_price(block_number, &sale, &self.configuration),
            ),
            Some(_) => self.auction_clearing_price,
            None => None,
        }
    }

    fn current_phase(&self) -> (r: Option<SalePhase>)
        ensures
            r == self@.current_phase,
    {
        self.current_phase
    }
}

/// The end of each phase takes what is set for it: that of the Market phase what
/// a settlement takes, that of the Renewal phase what a conclusion takes, and
/// that of the Settlement phase what a rotation takes.
pub proof fn law_phases_have_their_weights<T: Config>(market: Pallet<T>)
    ensures
        market.current_phase == Some(SalePhase::Market) ==> market.phase_weight()
            == T::WeightInfo::settlement(),
        market.current_phase == Some(SalePhase::Renewal) ==> market.phase_weight()
            == T::WeightInfo::conclusion(),
        market.current_phase == Some(SalePhase::Settlement) ==> market.phase_weight()
            == T::WeightInfo::rotation(),
{
}

/// Parameters for measuring the operations of the market.
pub fn benchmark_config() -> (r: ConfigRecordOf)
    ensures
        r == (ConfigRecord {
            advance_notice: 2u64,
            market_period: 1u64,
            renewal_period: 1u64,
            region_length: 3u32,
            ideal_bulk_proportion: (Perbill { parts: 0 }),
            limit_cores_offered: None::<CoreIndex>,
            penalty: (Perbill { parts: 100_000_000 }),
            contribution_timeout: 5u32,
            price_multiplier: 2u32,
            min_opening_price: 10u64,
            target_consumption_rate: (Perbill { parts: 900_000_000 }),
            sensitivity_millis: 2500u32,
            min_reserve_price: 1u64,
            min_increment: 100u64,
        }),
{
    ConfigRecord {
        advance_notice: 2,
        market_period: 1,
        renewal_period: 1,
        region_length: 3,
        ideal_bulk_proportion: Perbill { parts: 0 },
        limit_cores_offered: None,
        penalty: Perbill { parts: 100_000_000 },
        contribution_timeout: 5,
        price_multiplier: 2,
        min_opening_price: 10,
        target_consumption_rate: Perbill { parts: 900_000_000 },
        sensitivity_millis: 2500,
        min_reserve_price: 1,
        min_increment: 100,
    }
}

} // verus!

//! The state of a market and how each operation changes it.

use crate::arithmetic;
use crate::auction;
use crate::auction::{Action, Allocation, Bid};
use crate::market::{
    DisplacedBid, MarketError, RenewalOrderResult, RenewalRightsProvider, TickAction,
};
use crate::price;
use crate::primitives::{CoreIndex, RegionId, StatusRecord, Timeslice};
use crate::records::{
    AccountId, Balance, BidId, BidRecord, BlockNumber, ConfigRecordOf, SaleInfoRecordOf, SalePhase,
};
use crate::renewal;
use crate::renewal::RenewalDecision;
use crate::storage;
use vstd::prelude::*;

verus! {

/// What a market reports.
#[derive(Clone, Copy, Debug, PartialEq, Eq)]
pub enum Event {
    /// A new bid was placed.
    BidPlaced {
        /// The bidder.
        who: AccountId,
        /// The identity of the bid.
        bid_id: BidId,
        /// The amount locked from the bidder.
        amount: Balance,
    },
    /// A bid was raised.
    BidRaised {
        /// The bidder.
        who: AccountId,
        /// The identity of the bid.
        bid_id: BidId,
        /// The new price.
        new_price: Balance,
        /// The amount that has to be locked in addition.
        additional: Balance,
    },
    /// The auction was settled.
    AuctionSettled {
        /// The price that all winners pay.
        clearing_price: Balance,
        /// The number of winners.
        winners: u32,
    },
    /// Regions were issued to the winners of the auction.
    SaleFinalized {
        /// The number of regions issued.
        regions_issued: u32,
    },
    /// A renewal right was exercised.
    RenewalExercised {
        /// The renewing account.
        who: AccountId,
        /// The price paid.
        price: Balance,
        /// The region assigned.
        region_id: RegionId,
    },
    /// A winner of the auction was displaced by a renewal.
    BidDisplaced {
        /// The displaced winner.
        who: AccountId,
        /// The displaced bid.
        bid_id: BidId,
        /// The amount to be refunded.
        refund: Balance,
    },
    /// The phase of the sale changed.
    PhaseTransitioned {
        /// The previous phase.
        from: SalePhase,
        /// The new phase.
        to: SalePhase,
    },
    /// A new sale was initialized.
    SaleInitialized {
        /// The relay-chain block at which the sale starts.
        sale_start: BlockNumber,
        /// The length in blocks of the Market phase.
        market_period: BlockNumber,
        /// The price at the beginning of the Market phase.
        start_price: Balance,
        /// The floor of the descending auction.
        reserve_price: Balance,
        /// The first timeslice of the regions being sold.
        region_begin: Timeslice,
        /// The timeslice on which the regions being sold expire.
        region_end: Timeslice,
        /// The number of cores that the market would like to sell.
        ideal_cores_sold: CoreIndex,
        /// Number of cores offered for sale.
        cores_offered: CoreIndex,
    },
}

/// The state of a market.
#[verifier::ext_equal]
pub struct MarketModel {
    /// The parameters of the market.
    pub configuration: Option<ConfigRecordOf>,
    /// The status of the system, as the broker keeps it.
    pub status: Option<StatusRecord>,
    /// The current sale.
    pub sale_info: Option<SaleInfoRecordOf>,
    /// The phase of the sale; none before sales are started.
    pub current_phase: Option<SalePhase>,
    /// The bids of the Market phase, in the order in which they were placed.
    pub bids: Seq<Bid>,
    /// The identity of the next bid, and the number of bids placed in the sale.
    pub next_bid_id: BidId,
    /// What the winners of the auction have been allotted.
    pub allocations: Seq<Allocation>,
    /// The accounts that won in the auction of the sale, displaced later or not.
    pub winners: Seq<AccountId>,
    /// The price from the last settlement.
    pub auction_clearing_price: Option<Balance>,
    /// The number of renewals in the current Renewal phase.
    pub renewal_count: u32,
    /// What the market has reported.
    pub events: Seq<Event>,
}

/// Whether a bid has the given identity.
pub open spec fn has_bid(bids: Seq<Bid>, id: BidId) -> bool {
    exists|i: int| 0 <= i < bids.len() && (#[trigger] bids[i]).0 == id
}

/// The bid with the given identity.
pub open spec fn bid_of(bids: Seq<Bid>, id: BidId) -> BidRecord<AccountId, Balance> {
    bids[choose|i: int| 0 <= i < bids.len() && (#[trigger] bids[i]).0 == id].1
}

/// `bids` with the price of the bid with the given identity replaced.
pub open spec fn repriced(bids: Seq<Bid>, id: BidId, price: Balance) -> Seq<Bid> {
    bids.map_values(
        |b: Bid|
            if b.0 == id {
                (b.0, BidRecord { who: b.1.who, price })
            } else {
                b
            },
    )
}

/// The report on a new sale.
pub open spec fn sale_initialized(sale: SaleInfoRecordOf, config: ConfigRecordOf) -> Event {
    Event::SaleInitialized {
        sale_start: sale.sale_start,
        market_period: config.market_period,
        start_price: sale.opening_price,
        reserve_price: sale.reserve_price,
        region_begin: sale.region_begin,
        region_end: sale.region_end,
        ideal_cores_sold: sale.ideal_cores_sold,
        cores_offered: sale.cores_offered,
    }
}

impl MarketModel {
    /// A market that nothing has been told yet.
    pub open spec fn blank() -> MarketModel {
        MarketModel {
            configuration: None,
            status: None,
            sale_info: None,
            current_phase: None,
            bids: Seq::empty(),
            next_bid_id: 0,
            allocations: Seq::empty(),
            winners: Seq::empty(),
            auction_clearing_price: None,
            renewal_count: 0,
            events: Seq::empty(),
        }
    }

    /// What holds of a market at all times: each bid has an identity of its
    /// own that has been given out, there are bids in the Market phase only,
    /// and what is allotted or renewed can be counted in cores.
    pub open spec fn wf(self) -> bool {
        &&& forall|i: int| 0 <= i < self.bids.len() ==> (#[trigger] self.bids[i]).0 < self.next_bid_id
        &&& forall|i: int, j: int|
            0 <= i < j < self.bids.len() ==> (#[trigger] self.bids[i]).0 != (
            #[trigger] self.bids[j]).0
        &&& self.current_phase == Some(SalePhase::Renewal) || self.current_phase == Some(
            SalePhase::Settlement,
        ) ==> self.bids.len() == 0
        &&& self.allocations.len() <= u16::MAX
        &&& self.renewal_count <= u16::MAX
    }

    /// The price at which a bid can be placed at block `now`.
    pub open spec fn auction_price(self, now: BlockNumber) -> int {
        price::price_at(now, self.sale_info->0, self.configuration)
    }

    // Settings.

    /// The market with other parameters.
    pub open spec fn with_configuration(self, config: ConfigRecordOf) -> MarketModel {
        MarketModel { configuration: Some(config), ..self }
    }

    /// The market with another status of the system.
    pub open spec fn with_status(self, status: StatusRecord) -> MarketModel {
        MarketModel { status: Some(status), ..self }
    }

    /// The market with another sale.
    pub open spec fn with_sale_info(self, sale_info: SaleInfoRecordOf) -> MarketModel {
        MarketModel { sale_info: Some(sale_info), ..self }
    }

    // Starting sales.

    /// The sale that precedes the first one.
    pub open spec fn bootstrap_sale(
        self,
        block_number: BlockNumber,
        reserve_price: Balance,
        timeslice_period: BlockNumber,
    ) -> SaleInfoRecordOf {
        let config = self.configuration->0;
        price::bootstrap_sale(
            block_number,
            reserve_price,
            config.advance_notice,
            config.region_length,
            timeslice_period,
        )
    }

    /// The first sale.
    pub open spec fn first_sale(
        self,
        block_number: BlockNumber,
        reserve_price: Balance,
        core_count: CoreIndex,
        reserved_cores: CoreIndex,
        timeslice_period: BlockNumber,
    ) -> SaleInfoRecordOf {
        price::next_sale(
            self.bootstrap_sale(block_number, reserve_price, timeslice_period),
            self.configuration->0,
            core_count,
            reserved_cores,
            block_number,
        )
    }

    /// The status of the system when sales start.
    pub open spec fn first_status(
        self,
        block_number: BlockNumber,
        core_count: CoreIndex,
        timeslice_period: BlockNumber,
    ) -> StatusRecord {
        price::initial_status(
            block_number,
            core_count,
            self.configuration->0.advance_notice,
            timeslice_period,
        )
    }

    /// The market once sales are started.
    pub open spec fn after_start(
        self,
        block_number: BlockNumber,
        reserve_price: Balance,
        core_count: CoreIndex,
        reserved_cores: CoreIndex,
        timeslice_period: BlockNumber,
    ) -> MarketModel {
        let sale = self.first_sale(
            block_number,
            reserve_price,
            core_count,
            reserved_cores,
            timeslice_period,
        );
        MarketModel {
            status: Some(self.first_status(block_number, core_count, timeslice_period)),
            sale_info: Some(sale),
            current_phase: Some(SalePhase::Market),
            events: self.events.push(sale_initialized(sale, self.configuration->0)),
            ..self
        }
    }

    // Bidding.

    /// Why an order is refused, if it is.
    pub open spec fn order_refusal(self, now: BlockNumber, max_bids: u32) -> Option<MarketError> {
        if self.current_phase != Some(SalePhase::Market) {
            Some(MarketError::WrongPhase)
        } else if self.sale_info is None {
            Some(MarketError::NoSales)
        } else if now < self.sale_info->0.sale_start {
            Some(MarketError::TooEarly)
        } else if self.next_bid_id >= max_bids {
            Some(MarketError::SoldOut)
        } else {
            None
        }
    }

    /// The price of a new bid: the limit, or the current price where that is lower.
    pub open spec fn bid_price(self, now: BlockNumber, price_limit: Balance) -> Balance {
        arithmetic::smaller(price_limit as int, self.auction_price(now)) as u64
    }

    /// The market once a bid is placed.
    pub open spec fn after_order(self, who: AccountId, price: Balance) -> MarketModel {
        MarketModel {
            bids: self.bids.push((self.next_bid_id, BidRecord { who, price })),
            next_bid_id: (self.next_bid_id + 1) as u32,
            events: self.events.push(
                Event::BidPlaced { who, bid_id: self.next_bid_id, amount: price },
            ),
            ..self
        }
    }

    /// Why a raise is refused, if it is.
    pub open spec fn raise_refusal(
        self,
        now: BlockNumber,
        id: BidId,
        who: AccountId,
        new_price: Balance,
    ) -> Option<MarketError> {
        if self.current_phase != Some(SalePhase::Market) {
            Some(MarketError::WrongPhase)
        } else if self.sale_info is None {
            Some(MarketError::NoSales)
        } else if !has_bid(self.bids, id) || bid_of(self.bids, id).who != who {
            Some(MarketError::BidNotExist)
        } else if new_price <= bid_of(self.bids, id).price {
            Some(MarketError::Overpriced)
        } else if new_price > self.auction_price(now) {
            Some(MarketError::BidTooHigh)
        } else {
            None
        }
    }

    /// The market once a bid is raised.
    pub open spec fn after_raise(self, id: BidId, who: AccountId, new_price: Balance) -> MarketModel {
        MarketModel {
            bids: repriced(self.bids, id, new_price),
            events: self.events.push(
                Event::BidRaised {
                    who,
                    bid_id: id,
                    new_price,
                    additional: (new_price - bid_of(self.bids, id).price) as u64,
                },
            ),
            ..self
        }
    }

    // Renewals.

    /// The clearing price that renewals are based on.
    pub open spec fn renewal_base(self) -> Balance {
        match self.auction_clearing_price {
            Some(p) => p,
            None => self.sale_info->0.reserve_price,
        }
    }

    /// Whether an account won in the auction of the sale.
    pub open spec fn won(self, who: AccountId) -> bool {
        self.winners.contains(who)
    }

    /// What a renewal costs an account.
    pub open spec fn renewal_price(self, who: AccountId) -> Balance {
        renewal::renewal_price_of(
            self.sale_info->0,
            self.configuration->0,
            self.renewal_base(),
            self.won(who),
        ) as u64
    }

    /// What becomes of an order for a renewal.
    pub open spec fn renewal_decision(self, core_count: CoreIndex) -> RenewalDecision {
        choose|d: RenewalDecision|
            renewal::decision_is(
                d,
                self.sale_info->0,
                self.configuration->0.limit_cores_offered,
                self.allocations,
                self.renewal_count,
                core_count,
            )
    }

    /// Why an order for a renewal is refused, if it is.
    pub open spec fn renewal_refusal(self, core_count: CoreIndex) -> Option<MarketError> {
        if self.configuration is None {
            Some(MarketError::Uninitialized)
        } else if self.sale_info is None {
            Some(MarketError::NoSales)
        } else if self.current_phase is None {
            Some(MarketError::Uninitialized)
        } else if self.current_phase != Some(SalePhase::Renewal) {
            Some(MarketError::WrongPhase)
        } else if self.renewal_decision(core_count) is Unavailable {
            Some(MarketError::Unavailable)
        } else {
            None
        }
    }

    /// What a displaced winner is refunded: the clearing price; what was bid
    /// above it has been refunded already.
    pub open spec fn displacement_refund(self) -> Balance {
        match self.sale_info->0.clearing_price {
            Some(p) => p,
            None => 0,
        }
    }

    /// The region that a renewal gets.
    pub open spec fn renewal_region(self, core_count: CoreIndex) -> RegionId {
        match self.renewal_decision(core_count) {
            RenewalDecision::Unallotted(core) => renewal::region_on(self.sale_info->0, core),
            RenewalDecision::Displace(i) => renewal::region_on(
                self.sale_info->0,
                self.allocations[i as int].core,
            ),
            RenewalDecision::Unavailable => arbitrary(),
        }
    }

    /// The winner that a renewal displaces, if any.
    pub open spec fn renewal_displaces(self, core_count: CoreIndex) -> Option<
        DisplacedBid<AccountId, Balance, BidId>,
    > {
        match self.renewal_decision(core_count) {
            RenewalDecision::Displace(i) => Some(
                DisplacedBid {
                    who: self.allocations[i as int].who,
                    refund: self.displacement_refund(),
                    bid_id: self.allocations[i as int].bid_id,
                },
            ),
            _ => None,
        }
    }

    /// What a renewal returns.
    pub open spec fn renewal_result(
        self,
        who: AccountId,
        core_count: CoreIndex,
    ) -> RenewalOrderResult<Balance, BidId, AccountId> {
        RenewalOrderResult::Sold {
            price: self.renewal_price(who),
            next_renewal_price: self.renewal_price(who),
            region_id: self.renewal_region(core_count),
            effective_to: self.sale_info->0.region_end,
            displaced: self.renewal_displaces(core_count),
        }
    }

    /// The market once a renewal is sold.
    pub open spec fn after_renewal(self, who: AccountId, core_count: CoreIndex) -> MarketModel {
        let exercised = Event::RenewalExercised {
            who,
            price: self.renewal_price(who),
            region_id: self.renewal_region(core_count),
        };
        let counted = (self.renewal_count + 1) as u32;
        match self.renewal_decision(core_count) {
            RenewalDecision::Displace(i) => {
                let displaced = self.allocations[i as int];
                MarketModel {
                    allocations: self.allocations.remove(i as int),
                    renewal_count: counted,
                    events: self.events.push(
                        Event::BidDisplaced {
                            who: displaced.who,
                            bid_id: displaced.bid_id,
                            refund: self.displacement_refund(),
                        },
                    ).push(exercised),
                    ..self
                }
            },
            _ => MarketModel {
                renewal_count: counted,
                events: self.events.push(exercised),
                ..self
            },
        }
    }

    // Ticks.

    /// The block at which the Market phase ends.
    pub open spec fn market_end(self) -> int {
        arithmetic::saturate(self.sale_info->0.sale_start + self.configuration->0.market_period)
    }

    /// The block at which the Renewal phase ends.
    pub open spec fn renewal_end(self) -> int {
        arithmetic::saturate(self.market_end() + self.configuration->0.renewal_period)
    }

    /// Whether the current phase is over.
    pub open spec fn phase_is_over(
        self,
        now: BlockNumber,
        last_committed_timeslice: Timeslice,
    ) -> bool {
        &&& self.configuration is Some
        &&& self.sale_info is Some
        &&& match self.current_phase {
            None => false,
            Some(SalePhase::Market) => now >= self.market_end(),
            Some(SalePhase::Renewal) => now >= self.renewal_end(),
            Some(SalePhase::Settlement) => last_committed_timeslice
                >= self.sale_info->0.region_begin,
        }
    }

    /// The bids in the order in which they are walked when the auction is settled.
    pub open spec fn walked(self) -> Seq<Bid> {
        storage::walked(self.bids)
    }

    /// The bids in the order in which they are served.
    pub open spec fn serving_order(self, seed: Seq<u8>) -> Seq<Bid> {
        auction::serving_order(self.walked(), self.sale_info->0, seed)
    }

    /// The clearing price of the current bids.
    pub open spec fn clearing_price(self) -> Balance {
        auction::clearing_of(self.walked(), self.sale_info->0)
    }

    /// What the winners among the current bids are allotted.
    pub open spec fn allotments<R: RenewalRightsProvider<AccountId>>(
        self,
        seed: Seq<u8>,
        rights: R,
    ) -> Seq<Allocation> {
        auction::allotments(
            self.serving_order(seed),
            self.walked().len(),
            self.sale_info->0,
            self.clearing_price(),
            rights,
        )
    }

    /// The refunds of the auction.
    pub open spec fn refunds(self, seed: Seq<u8>) -> Seq<Action> {
        auction::refunds(
            self.serving_order(seed),
            self.walked().len(),
            self.sale_info->0.cores_offered,
            self.clearing_price(),
        )
    }

    /// The market once the auction is settled.
    pub open spec fn after_settlement<R: RenewalRightsProvider<AccountId>>(
        self,
        seed: Seq<u8>,
        rights: R,
        max_bids: u32,
    ) -> MarketModel {
        let winners = self.allotments(seed, rights);
        MarketModel {
            sale_info: Some(
                auction::settled_sale(
                    self.sale_info->0,
                    winners.len() as int,
                    self.clearing_price(),
                ),
            ),
            current_phase: Some(SalePhase::Renewal),
            bids: Seq::empty(),
            allocations: auction::kept(winners, max_bids as int),
            winners: auction::holders(winners),
            auction_clearing_price: Some(self.clearing_price()),
            events: self.events.push(
                Event::AuctionSettled {
                    clearing_price: self.clearing_price(),
                    winners: winners.len() as u32,
                },
            ).push(
                Event::PhaseTransitioned { from: SalePhase::Market, to: SalePhase::Renewal },
            ),
            ..self
        }
    }

    /// The market once the sale is concluded.
    pub open spec fn after_conclusion(self) -> MarketModel {
        MarketModel {
            sale_info: Some(renewal::concluded_sale(self.sale_info->0, self.renewal_count)),
            current_phase: Some(SalePhase::Settlement),
            allocations: Seq::empty(),
            winners: Seq::empty(),
            renewal_count: 0,
            events: self.events.push(
                Event::SaleFinalized { regions_issued: self.allocations.len() as u32 },
            ).push(
                Event::PhaseTransitioned { from: SalePhase::Renewal, to: SalePhase::Settlement },
            ),
            ..self
        }
    }

    /// The next sale.
    pub open spec fn rotated_sale(
        self,
        now: BlockNumber,
        core_count: CoreIndex,
        reserved_cores: CoreIndex,
    ) -> SaleInfoRecordOf {
        price::next_sale(
            self.sale_info->0,
            self.configuration->0,
            core_count,
            reserved_cores,
            now,
        )
    }

    /// The market once the next sale has begun.
    pub open spec fn after_rotation(
        self,
        now: BlockNumber,
        core_count: CoreIndex,
        reserved_cores: CoreIndex,
    ) -> MarketModel {
        let sale = self.rotated_sale(now, core_count, reserved_cores);
        MarketModel {
            sale_info: Some(sale),
            current_phase: Some(SalePhase::Market),
            next_bid_id: 0,
            auction_clearing_price: None,
            events: self.events.push(
                Event::PhaseTransitioned { from: SalePhase::Settlement, to: SalePhase::Market },
            ).push(sale_initialized(sale, self.configuration->0)),
            ..self
        }
    }

    /// The market after the tick that ends the current phase.
    pub open spec fn after_phase<R: RenewalRightsProvider<AccountId>>(
        self,
        now: BlockNumber,
        core_count: CoreIndex,
        reserved_cores: CoreIndex,
        seed: Seq<u8>,
        rights: R,
        max_bids: u32,
    ) -> MarketModel {
        match self.current_phase {
            Some(SalePhase::Market) => self.after_settlement(seed, rights, max_bids),
            Some(SalePhase::Renewal) => self.after_conclusion(),
            Some(SalePhase::Settlement) => self.after_rotation(now, core_count, reserved_cores),
            None => self,
        }
    }

    /// What the broker has to do after the tick that ends the current phase.
    pub open spec fn phase_actions(
        self,
        now: BlockNumber,
        core_count: CoreIndex,
        reserved_cores: CoreIndex,
        seed: Seq<u8>,
    ) -> Seq<Action> {
        match self.current_phase {
            Some(SalePhase::Market) => self.refunds(seed).push(TickAction::ProcessRenewals),
            Some(SalePhase::Renewal) => renewal::region_sales(
                self.sale_info->0,
                self.allocations,
            ),
            Some(SalePhase::Settlement) => {
                let sale = self.rotated_sale(now, core_count, reserved_cores);
                seq![
                    TickAction::SaleRotated {
                        old_sale: self.sale_info->0,
                        new_sale: sale,
                        new_prices: price::next_prices(self.sale_info->0, self.configuration->0),
                        start_price: sale.opening_price,
                    },
                ]
            },
            None => Seq::empty(),
        }
    }
}

} // verus!

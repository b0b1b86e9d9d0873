//! What a market for coretime offers to the broker that runs it.

use crate::primitives::{CoreIndex, PotentialRenewalId, RegionId, StatusRecord, Timeslice};
use crate::records::{AdaptedPrices, SaleInfoRecord, SalePhase};
use crate::weight::WeightMeter;
use vstd::prelude::*;

verus! {

/// Provides the number of reserved cores.
pub trait CoreCountProvider {
    /// Whether the number of reserved cores is that of a core index.
    spec fn countable(&self) -> bool;

    /// The number of reserved cores: reservations and leases.
    spec fn reserved(&self) -> CoreIndex;

    /// Returns the number of reserved cores: reservations and leases.
    fn reserved_core_count(&self) -> (r: CoreIndex)
        requires
            self.countable(),
        ensures
            r == self.reserved(),
    ;
}

/// Tells who holds renewal rights.
///
/// Winners of the auction who do cannot be displaced by renewals.
pub trait RenewalRightsProvider<AccountId> {
    /// The number of renewal rights that `who` holds for the timeslice `when`.
    spec fn rights(&self, who: AccountId, when: Timeslice) -> u32;

    /// Returns the number of renewal rights that `who` holds for the timeslice `when`.
    fn renewal_rights_count(&self, who: &AccountId, when: Timeslice) -> (r: u32)
        ensures
            r == self.rights(*who, when),
    ;
}

/// What a market refuses an operation with.
#[derive(Clone, Copy, Debug, PartialEq, Eq, Structural)]
pub enum MarketError {
    NoSales,
    Overpriced,
    BidNotExist,
    Uninitialized,
    TooEarly,
    Unavailable,
    SoldOut,
    /// The operation is not allowed in the current phase of the sale.
    WrongPhase,
    /// The bid is above the current descending price.
    BidTooHigh,
    /// Bids cannot be lowered or cancelled.
    BidNotCancellable,
}

impl MarketError {
    /// The name under which the error is reported.
    pub open spec fn label(self) -> Seq<char> {
        match self {
            MarketError::NoSales => "NoSales"@,
            MarketError::Overpriced => "Overpriced"@,
            MarketError::BidNotExist => "BidNotExist"@,
            MarketError::Uninitialized => "Uninitialized"@,
            MarketError::TooEarly => "TooEarly"@,
            MarketError::Unavailable => "Unavailable"@,
            MarketError::SoldOut => "SoldOut"@,
            MarketError::WrongPhase => "WrongPhase"@,
            MarketError::BidTooHigh => "BidTooHigh"@,
            MarketError::BidNotCancellable => "BidNotCancellable"@,
        }
    }

    /// The name under which the error is reported.
    pub fn name(self) -> (r: &'static str)
        ensures
            r@ == self.label(),
    {
        match self {
            MarketError::NoSales => "NoSales",
            MarketError::Overpriced => "Overpriced",
            MarketError::BidNotExist => "BidNotExist",
            MarketError::Uninitialized => "Uninitialized",
            MarketError::TooEarly => "TooEarly",
            MarketError::Unavailable => "Unavailable",
            MarketError::SoldOut => "SoldOut",
            MarketError::WrongPhase => "WrongPhase",
            MarketError::BidTooHigh => "BidTooHigh",
            MarketError::BidNotCancellable => "BidNotCancellable",
        }
    }
}

/// Result of placing a purchase order.
#[derive(Clone, Copy, Debug, PartialEq, Eq)]
pub enum OrderResult<Balance, BidId> {
    BidPlaced { id: BidId, bid_price: Balance },
    Sold { price: Balance, region_id: RegionId, region_end: Timeslice },
}

/// A bid that was displaced by a renewal.
#[derive(Clone, Copy, Debug, PartialEq, Eq)]
pub struct DisplacedBid<AccountId, Balance, BidId> {
    /// The account whose allocation was displaced.
    pub who: AccountId,
    /// The amount to refund.
    pub refund: Balance,
    /// The bid that was displaced.
    pub bid_id: BidId,
}

/// Result of placing a renewal order.
#[derive(Clone, Copy, Debug, PartialEq, Eq)]
pub enum RenewalOrderResult<Balance, BidId, AccountId> {
    BidPlaced { id: BidId, bid_price: Balance },
    Sold {
        price: Balance,
        next_renewal_price: Balance,
        region_id: RegionId,
        effective_to: Timeslice,
        /// The winner of the auction that the renewal displaced, if any, who is to be refunded.
        displaced: Option<DisplacedBid<AccountId, Balance, BidId>>,
    },
}

/// Result of closing a bid.
#[derive(Clone, Copy, Debug, PartialEq, Eq)]
pub struct CloseBidResult<AccountId, Balance> {
    pub owner: AccountId,
    pub refund: Balance,
}

/// What the broker has to do after a tick.
#[derive(Clone, Copy, Debug, PartialEq, Eq)]
pub enum TickAction<Balance, BlockNumber, AccountId, BidId> {
    SellRegion {
        owner: AccountId,
        /// How much was paid for the region in all.
        paid: Balance,
        region_id: RegionId,
        region_end: Timeslice,
    },
    RenewRegion { owner: AccountId, renewal_id: PotentialRenewalId },
    Refund { amount: Balance, who: AccountId },
    BidClosed { id: BidId, owner: AccountId },
    /// Renewals against the current sale are to be processed.
    ProcessRenewals,
    SaleRotated {
        old_sale: SaleInfoRecord<Balance, BlockNumber>,
        new_sale: SaleInfoRecord<Balance, BlockNumber>,
        new_prices: AdaptedPrices<Balance>,
        start_price: Balance,
    },
}

/// What is known once sales are started.
#[derive(Clone, Copy, Debug, PartialEq, Eq)]
pub struct SalesStarted<Balance, BlockNumber> {
    pub old_sale: SaleInfoRecord<Balance, BlockNumber>,
    pub new_sale: SaleInfoRecord<Balance, BlockNumber>,
    pub new_prices: AdaptedPrices<Balance>,
    pub start_price: Balance,
}

/// What a broker reads of the record of a sale.
pub trait MarketSaleInfo {
    type Balance;

    type BlockNumber;

    fn sale_start(&self) -> Self::BlockNumber;

    fn region_begin(&self) -> Timeslice;

    fn region_end(&self) -> Timeslice;

    fn ideal_cores_sold(&self) -> CoreIndex;

    fn cores_offered(&self) -> CoreIndex;

    fn first_core(&self) -> CoreIndex;

    fn cores_sold(&self) -> CoreIndex;
}

/// What a broker reads of the parameters of a market.
pub trait MarketConfig {
    type BlockNumber;

    fn advance_notice(&self) -> Self::BlockNumber;

    fn region_length(&self) -> Timeslice;

    fn contribution_timeout(&self) -> Timeslice;

    fn validate(&self) -> Result<(), ()>;
}

/// A market for coretime.
///
/// Every order either creates a bid or is resolved at once. There are orders
/// for the purchase and orders for the renewal of bulk coretime. Regions are
/// fungible.
pub trait Market {
    type AccountId;

    type Balance;

    type BlockNumber;

    type Error;

    /// Identifies a bid.
    type BidId;

    /// Provides the number of reserved cores.
    type CoreCount: CoreCountProvider;

    /// Whether the first sale can be laid out without leaving the range of timeslices.
    spec fn can_start(&self, block_number: Self::BlockNumber) -> bool;

    /// Whether an order that is not refused can be priced.
    spec fn can_order(&self, block_number: Self::BlockNumber) -> bool;

    /// Whether a raise that is not refused can be priced.
    spec fn can_raise(&self, block_number: Self::BlockNumber) -> bool;

    /// Whether a renewal at the recorded price can be priced and counted.
    spec fn can_renew(&self, block_number: Self::BlockNumber, recorded_price: Self::Balance) -> bool;

    /// Whether the next sale, if it is due and the meter has room for it, can
    /// be laid out without leaving the range of timeslices.
    spec fn can_tick(&self, now: Self::BlockNumber, weight_meter: WeightMeter) -> bool;

    /// Starts the first sale.
    fn start_sales(
        &mut self,
        block_number: Self::BlockNumber,
        reserve_price: Self::Balance,
        core_count: CoreIndex,
    ) -> Result<SalesStarted<Self::Balance, Self::BlockNumber>, Self::Error>
        requires
            old(self).can_start(block_number),
    ;

    /// Places an order for one region, for which at most `price_limit` is paid.
    fn place_order(
        &mut self,
        block_number: Self::BlockNumber,
        who: &Self::AccountId,
        price_limit: Self::Balance,
    ) -> Result<OrderResult<Self::Balance, Self::BidId>, Self::Error>
        requires
            old(self).can_order(block_number),
    ;

    /// Places an order for the renewal of a region.
    fn place_renewal_order(
        &mut self,
        block_number: Self::BlockNumber,
        who: &Self::AccountId,
        renewal: PotentialRenewalId,
        recorded_price: Self::Balance,
    ) -> Result<RenewalOrderResult<Self::Balance, Self::BidId, Self::AccountId>, Self::Error>
        requires
            old(self).can_renew(block_number, recorded_price),
    ;

    /// Raises a bid, and returns the amount that has to be locked in addition.
    fn raise_bid(
        &mut self,
        block_number: Self::BlockNumber,
        id: Self::BidId,
        who: &Self::AccountId,
        new_price: Self::Balance,
    ) -> Result<Self::Balance, Self::Error>
        requires
            old(self).can_raise(block_number),
    ;

    /// Closes a bid.
    fn close_bid(
        &mut self,
        id: Self::BidId,
        maybe_check_owner: Option<Self::AccountId>,
    ) -> Result<CloseBidResult<Self::AccountId, Self::Balance>, Self::Error>;

    /// Does what is due at block `now`, and returns what is left for the broker to do.
    fn tick(
        &mut self,
        now: Self::BlockNumber,
        weight_meter: &mut WeightMeter,
    ) -> Vec<TickAction<Self::Balance, Self::BlockNumber, Self::AccountId, Self::BidId>>
        requires
            old(self).can_tick(now, *old(weight_meter)),
    ;
}

/// The lasting state of a market that a broker reads and writes.
pub trait MarketState: Market {
    /// The parameters of the market.
    type Config;

    /// Whether the current price, if there is one, can be computed.
    spec fn can_quote(&self, block_number: Self::BlockNumber) -> bool;

    fn configuration(&self) -> Option<Self::Config>;

    fn set_configuration(&mut self, config: Self::Config);

    fn status(&self) -> Option<StatusRecord>;

    fn set_status(&mut self, status: StatusRecord);

    fn sale_info(&self) -> Option<SaleInfoRecord<Self::Balance, Self::BlockNumber>>;

    fn set_sale_info(&mut self, sale_info: SaleInfoRecord<Self::Balance, Self::BlockNumber>);

    fn current_price(&self, block_number: Self::BlockNumber) -> Option<Self::Balance>
        requires
            self.can_quote(block_number),
    ;

    fn current_phase(&self) -> Option<SalePhase>;
}

/// Each error is reported under its own name.
pub proof fn law_errors_have_their_names()
    ensures
        MarketError::NoSales.label() == "NoSales"@,
        MarketError::Overpriced.label() == "Overpriced"@,
        MarketError::BidNotExist.label() == "BidNotExist"@,
        MarketError::Uninitialized.label() == "Uninitialized"@,
        MarketError::TooEarly.label() == "TooEarly"@,
        MarketError::Unavailable.label() == "Unavailable"@,
        MarketError::SoldOut.label() == "SoldOut"@,
        MarketError::WrongPhase.label() == "WrongPhase"@,
        MarketError::BidTooHigh.label() == "BidTooHigh"@,
        MarketError::BidNotCancellable.label() == "BidNotCancellable"@,
{
}

} // verus!

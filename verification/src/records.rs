//! The records that a market keeps of its sales.

use crate::arithmetic::Perbill;
use crate::market::{MarketConfig, MarketSaleInfo};
use crate::primitives::{CoreIndex, Timeslice};
use vstd::prelude::*;

verus! {

/// An account.
pub type AccountId = u64;

/// An amount of funds.
pub type Balance = u64;

/// A relay-chain block number.
pub type BlockNumber = u64;

/// The identity of a bid in a sale.
pub type BidId = u32;

/// The record of a sale, in the units of this crate.
pub type SaleInfoRecordOf = SaleInfoRecord<Balance, BlockNumber>;

/// The parameters of a market, in the units of this crate.
pub type ConfigRecordOf = ConfigRecord<BlockNumber, Balance>;

/// The status of a sale of bulk coretime.
#[derive(Clone, Copy, Debug, PartialEq, Eq)]
pub struct SaleInfoRecord<Balance, BlockNumber> {
    /// The relay-chain block at which the sale starts.
    pub sale_start: BlockNumber,
    /// The opening price of the descending auction.
    pub opening_price: Balance,
    /// The reserve price: the floor of the descending auction.
    pub reserve_price: Balance,
    /// The uniform price that all winners pay, once the auction is settled.
    pub clearing_price: Option<Balance>,
    /// The first timeslice of the regions which are being sold.
    pub region_begin: Timeslice,
    /// The timeslice on which the regions being sold expire.
    pub region_end: Timeslice,
    /// The number of cores that the market would like to sell.
    pub ideal_cores_sold: CoreIndex,
    /// Number of cores offered for sale.
    pub cores_offered: CoreIndex,
    /// The index of the first core for sale.
    pub first_core: CoreIndex,
    /// Number of cores which have been sold; never more than are offered.
    pub cores_sold: CoreIndex,
}

impl<Balance: Copy, BlockNumber: Copy> MarketSaleInfo for SaleInfoRecord<Balance, BlockNumber> {
    type Balance = Balance;

    type BlockNumber = BlockNumber;

    fn sale_start(&self) -> (r: BlockNumber)
        ensures
            r == self.sale_start,
    {
        self.sale_start
    }

    fn region_begin(&self) -> (r: Timeslice)
        ensures
            r == self.region_begin,
    {
        self.region_begin
    }

    fn region_end(&self) -> (r: Timeslice)
        ensures
            r == self.region_end,
    {
        self.region_end
    }

    fn ideal_cores_sold(&self) -> (r: CoreIndex)
        ensures
            r == self.ideal_cores_sold,
    {
        self.ideal_cores_sold
    }

    fn cores_offered(&self) -> (r: CoreIndex)
        ensures
            r == self.cores_offered,
    {
        self.cores_offered
    }

    fn first_core(&self) -> (r: CoreIndex)
        ensures
            r == self.first_core,
    {
        self.first_core
    }

    fn cores_sold(&self) -> (r: CoreIndex)
        ensures
            r == self.cores_sold,
    {
        self.cores_sold
    }
}

/// The reserve price and the target price that a sale starts from.
#[derive(Clone, Copy, Debug, PartialEq, Eq)]
pub struct AdaptedPrices<Balance> {
    /// The reserve price.
    pub reserve_price: Balance,
    /// The price that the market aims at.
    pub target_price: Balance,
}

/// The parameters of the market, which can be replaced at any time.
#[derive(Clone, Copy, Debug, PartialEq, Eq)]
pub struct ConfigRecord<BlockNumber, Balance> {
    /// The number of relay-chain blocks by which scheduling is fixed in advance.
    pub advance_notice: BlockNumber,
    /// The length in blocks of the Market phase.
    pub market_period: BlockNumber,
    /// The length in blocks of the Renewal phase.
    pub renewal_period: BlockNumber,
    /// The length in timeslices of the regions of forthcoming sales.
    pub region_length: Timeslice,
    /// The proportion of the cores on offer which should be sold.
    pub ideal_bulk_proportion: Perbill,
    /// If set, no more cores than this are offered.
    pub limit_cores_offered: Option<CoreIndex>,
    /// What a renewal costs above the clearing price where the auction sold
    /// out, for tenants that did not win in it.
    pub penalty: Perbill,
    /// The time within which rewards for contributions to the pool must be collected.
    pub contribution_timeout: Timeslice,
    /// The multiple of the reserve price at which the auction opens.
    pub price_multiplier: u32,
    /// The least opening price.
    pub min_opening_price: Balance,
    /// The part of the offered cores whose sale leaves the reserve price as it is.
    pub target_consumption_rate: Perbill,
    /// How strongly the reserve price follows consumption, in thousandths.
    pub sensitivity_millis: u32,
    /// The least reserve price.
    pub min_reserve_price: Balance,
    /// The least increase of the reserve price after a sale of all cores.
    pub min_increment: Balance,
}

impl<Balance> ConfigRecord<BlockNumber, Balance> {
    /// Checks the basic constraints on the parameters.
    pub fn validate(&self) -> (r: Result<(), ()>)
        ensures
            r == (if self.market_period == 0 {
                Err::<(), ()>(())
            } else {
                Ok::<(), ()>(())
            }),
    {
        if self.market_period == 0 {
            return Err(());
        }
        Ok(())
    }
}

impl<Balance> MarketConfig for ConfigRecord<BlockNumber, Balance> {
    type BlockNumber = BlockNumber;

    fn advance_notice(&self) -> (r: BlockNumber)
        ensures
            r == self.advance_notice,
    {
        self.advance_notice
    }

    fn region_length(&self) -> (r: Timeslice)
        ensures
            r == self.region_length,
    {
        self.region_length
    }

    fn contribution_timeout(&self) -> (r: Timeslice)
        ensures
            r == self.contribution_timeout,
    {
        self.contribution_timeout
    }

    fn validate(&self) -> (r: Result<(), ()>)
        ensures
            r is Err <==> self.market_period == 0,
    {
        ConfigRecord::validate(self)
    }
}

/// The phase of a sale.
#[derive(Clone, Copy, Debug, PartialEq, Eq, Structural)]
pub enum SalePhase {
    /// A descending auction, in which bids are accepted.
    Market,
    /// Tenants can exercise their renewal rights.
    Renewal,
    /// No sales; the next sale is awaited.
    Settlement,
}

/// A bid in the descending auction.
#[derive(Clone, Copy, Debug, PartialEq, Eq)]
pub struct BidRecord<AccountId, Balance> {
    /// The bidder.
    pub who: AccountId,
    /// The price bid, which is locked from the bidder.
    pub price: Balance,
}

/// What a winner of the auction has been allotted.
#[derive(Clone, Copy, Debug, PartialEq, Eq)]
pub struct AllocationRecord<AccountId, Balance> {
    /// The winning bidder.
    pub who: AccountId,
    /// The price bid; the lowest is displaced first.
    pub bid_price: Balance,
    /// The price that the winner pays.
    pub clearing_price: Balance,
    /// The identity of the bid.
    pub bid_id: BidId,
    /// The core allotted.
    pub core: CoreIndex,
    /// Whether the winner held renewal rights when the auction was settled.
    pub has_renewal_rights: bool,
}

} // verus!

//! A market that sells bulk coretime at once, at a price that comes down over the sale.
//!
//! There are no bids: every order is resolved immediately, at the price of the
//! moment. The prices of the next sale follow from those of the last.

use crate::arithmetic;
use crate::arithmetic::{FixedU64, Perbill, BILLION};
use crate::core_mask::CoreMask;
use crate::market::{
    CloseBidResult, CoreCountProvider, Market, MarketError, MarketState, OrderResult,
    RenewalOrderResult, SalesStarted, TickAction,
};
use crate::price;
use crate::price_laws;
use crate::primitives::{CoreIndex, PotentialRenewalId, RegionId, StatusRecord, Timeslice};
use crate::records::{
    AccountId, AdaptedPrices, Balance, BlockNumber, SaleInfoRecordOf, SalePhase,
};
use crate::renewal;
use crate::weight::WeightMeter;
use vstd::prelude::*;

verus! {

/// What the broker has to do, where bids have no identities.
pub type LegacyAction = TickAction<Balance, BlockNumber, AccountId, ()>;

/// The outcome of a renewal, where bids have no identities.
pub type LegacyRenewal = RenewalOrderResult<Balance, (), AccountId>;

/// The parameters of the market.
#[derive(Clone, Copy, Debug, PartialEq, Eq)]
pub struct LegacyConfigRecord {
    /// The number of relay-chain blocks by which scheduling is fixed in advance.
    pub advance_notice: BlockNumber,
    /// The length in blocks of the period over which the price comes down.
    pub market_period: BlockNumber,
    /// The length in blocks of the period for renewals.
    pub renewal_period: BlockNumber,
    /// The length in timeslices of the regions of forthcoming sales.
    pub region_length: Timeslice,
    /// The proportion of the cores on offer which should be sold.
    pub ideal_bulk_proportion: Perbill,
    /// If set, no more cores than this are offered.
    pub limit_cores_offered: Option<CoreIndex>,
    /// By how much the price of a renewal rises at most, from sale to sale.
    pub penalty: Perbill,
    /// The time within which rewards for contributions to the pool must be collected.
    pub contribution_timeout: Timeslice,
}

/// Counts the reserved cores from the reservations and the leases.
#[derive(Clone, Copy, Debug, PartialEq, Eq)]
pub struct BrokerCoreCountProvider {
    /// The number of reservations, if there are any on record.
    pub reservations: Option<usize>,
    /// The number of leases, if there are any on record.
    pub leases: Option<usize>,
}

/// A number of records as a number of cores, of which sixteen bits are kept.
pub open spec fn cores_on_record(n: Option<usize>) -> int {
    match n {
        Some(n) => n as int % 0x1_0000,
        None => 0,
    }
}

/// A number of records as a number of cores, of which sixteen bits are kept.
fn core_number(n: Option<usize>) -> (r: CoreIndex)
    ensures
        r == cores_on_record(n),
{
    match n {
        Some(n) => (n % 0x1_0000) as u16,
        None => 0,
    }
}

impl CoreCountProvider for BrokerCoreCountProvider {
    open spec fn countable(&self) -> bool {
        cores_on_record(self.reservations) + cores_on_record(self.leases) <= u16::MAX
    }

    open spec fn reserved(&self) -> CoreIndex {
        (cores_on_record(self.reservations) + cores_on_record(self.leases)) as u16
    }

    fn reserved_core_count(&self) -> (r: CoreIndex) {
        core_number(self.reservations) + core_number(self.leases)
    }
}

/// Tells how the prices of a sale follow from the sale before it.
pub trait AdaptPrice {
    /// The prices of the sale after `old_sale`.
    spec fn adapted(old_sale: SaleInfoRecordOf) -> AdaptedPrices<Balance>;

    /// Returns the prices of the sale after `old_sale`.
    fn adapt_price(old_sale: &SaleInfoRecordOf) -> (r: AdaptedPrices<Balance>)
        ensures
            r == Self::adapted(*old_sale),
    ;
}

/// What the market is set up with.
pub trait LegacyConfig {
    /// How prices follow from sale to sale.
    type PriceAdapter: AdaptPrice;

    /// The number of relay-chain blocks in a timeslice.
    spec fn period() -> BlockNumber;

    /// Returns the number of relay-chain blocks in a timeslice.
    fn timeslice_period() -> (r: BlockNumber)
        ensures
            r == Self::period(),
    ;
}

/// The factor on the reserve price at the point `when` of a sale, both in
/// billionths: from a hundred to ten over the first half, from ten to one over the second.
pub open spec fn leadin(when: int) -> int {
    if when <= 500_000_000 {
        arithmetic::monus(100 * BILLION, arithmetic::saturate(when * 180))
    } else {
        arithmetic::monus(19 * BILLION, arithmetic::saturate(when * 18))
    }
}

/// The factor on the reserve price at the point `when` of a sale.
pub fn leadin_factor_at(when: FixedU64) -> (r: FixedU64)
    ensures
        r.inner == leadin(when.inner as int),
{
    let half = FixedU64::from_rational(1, 2);
    if when.inner <= half.inner {
        let product = when.saturating_mul(FixedU64::saturating_from_integer(180));
        proof {
            lemma_scaled_product(when.inner as int, 180);
        }
        FixedU64::saturating_from_integer(100).saturating_sub(product)
    } else {
        let product = when.saturating_mul(FixedU64::saturating_from_integer(18));
        proof {
            lemma_scaled_product(when.inner as int, 18);
        }
        FixedU64::saturating_from_integer(19).saturating_sub(product)
    }
}

/// Multiplying by `n` in billionths is multiplying by `n`.
proof fn lemma_scaled_product(a: int, n: int)
    requires
        0 <= a,
        0 <= n <= 180,
    ensures
        (a * (n * BILLION)) / BILLION as int == a * n,
        arithmetic::saturate(n * BILLION) == n * BILLION,
{
    assert(a * (n * BILLION) == (a * n) * BILLION) by (nonlinear_arith);
    assert(((a * n) * BILLION) / BILLION as int == a * n) by (nonlinear_arith)
        requires
            BILLION == 1_000_000_000,
    ;
}

/// The price at block `now`: the reserve price times the factor of the moment.
pub open spec fn sale_price(now: BlockNumber, sale: SaleInfoRecordOf, period: BlockNumber) -> int {
    arithmetic::saturate(
        (leadin(price::progress(price::elapsed(now, sale, period), period as int))
            * sale.reserve_price) / BILLION as int,
    )
}

/// The price at block `now`.
pub fn sell_price(now: BlockNumber, sale: &SaleInfoRecordOf, config: &LegacyConfigRecord) -> (r:
    Balance)
    requires
        config.market_period > 0,
    ensures
        r == sale_price(now, *sale, config.market_period),
{
    let since_start: BlockNumber = now.saturating_sub(sale.sale_start);
    let num: BlockNumber = if since_start <= config.market_period {
        since_start
    } else {
        config.market_period
    };
    proof {
        price::lemma_progress_bounds(num as int, config.market_period as int);
    }
    let through = FixedU64::from_rational(num, config.market_period);
    leadin_factor_at(through).saturating_mul_int(sale.reserve_price)
}

/// The record of a sale once a core is sold at a price. The price is the
/// clearing price as long as no more cores are sold than the market would like to.
pub open spec fn sale_with_core_sold(sale: SaleInfoRecordOf, price: Balance) -> SaleInfoRecordOf {
    let sold = arithmetic::smaller(sale.cores_sold + 1, u16::MAX as int) as u16;
    SaleInfoRecordOf {
        cores_sold: sold,
        clearing_price: if sold <= sale.ideal_cores_sold || sale.clearing_price is None {
            Some(price)
        } else {
            sale.clearing_price
        },
        ..sale
    }
}

/// The core that is sold next.
pub open spec fn next_core(sale: SaleInfoRecordOf) -> CoreIndex {
    arithmetic::smaller(sale.first_core + sale.cores_sold, u16::MAX as int) as u16
}

/// Sells a core at a price, and returns its index.
pub fn purchase_core(price: Balance, sale: &mut SaleInfoRecordOf) -> (r: CoreIndex)
    ensures
        r == next_core(*old(sale)),
        *final(sale) == sale_with_core_sold(*old(sale), price),
{
    let core: CoreIndex = sale.first_core.saturating_add(sale.cores_sold);
    sale.cores_sold = sale.cores_sold.saturating_add(1);
    if sale.cores_sold <= sale.ideal_cores_sold || sale.clearing_price.is_none() {
        sale.clearing_price = Some(price);
    }
    core
}

/// The timeslice that is to be committed next, if one is due.
pub open spec fn due_timeslice(
    now: BlockNumber,
    config: LegacyConfigRecord,
    status: StatusRecord,
    timeslice_period: BlockNumber,
) -> Option<Timeslice> {
    if status.last_committed_timeslice < price::ready_timeslice(
        now,
        config.advance_notice,
        timeslice_period,
    ) {
        Some((status.last_committed_timeslice + 1) as u32)
    } else {
        None
    }
}

/// The timeslice that is to be committed next, if one is due.
pub fn next_timeslice_to_commit(
    now: BlockNumber,
    config: &LegacyConfigRecord,
    status: &StatusRecord,
    timeslice_period: BlockNumber,
) -> (r: Option<Timeslice>)
    requires
        timeslice_period > 0,
    ensures
        r == due_timeslice(now, *config, *status, timeslice_period),
{
    let ready: Timeslice = price::latest_timeslice_ready_to_commit(
        now,
        config.advance_notice,
        timeslice_period,
    );
    if status.last_committed_timeslice < ready {
        Some(status.last_committed_timeslice + 1)
    } else {
        None
    }
}

/// The sale after one whose prices lead to `prices`.
pub open spec fn sale_after(
    old_sale: SaleInfoRecordOf,
    prices: AdaptedPrices<Balance>,
    config: LegacyConfigRecord,
    core_count: CoreIndex,
    reserved_cores: CoreIndex,
    now: BlockNumber,
) -> SaleInfoRecordOf {
    let cores_offered = price::offered(core_count, reserved_cores, config.limit_cores_offered);
    SaleInfoRecordOf {
        sale_start: now,
        opening_price: arithmetic::saturate(100 * prices.reserve_price) as u64,
        reserve_price: prices.reserve_price,
        clearing_price: if cores_offered > 0 {
            Some(prices.reserve_price)
        } else {
            None
        },
        region_begin: old_sale.region_end,
        region_end: (old_sale.region_end + config.region_length) as u32,
        first_core: reserved_cores,
        ideal_cores_sold: arithmetic::part_of(config.ideal_bulk_proportion, cores_offered) as u16,
        cores_offered: cores_offered as u16,
        cores_sold: 0,
    }
}

/// The sale after `old_sale`, and the prices that it starts from.
pub fn rotate_sale<A: AdaptPrice>(
    old_sale: &SaleInfoRecordOf,
    config: &LegacyConfigRecord,
    status: &StatusRecord,
    reserved_cores: CoreIndex,
    now: BlockNumber,
) -> (r: (AdaptedPrices<Balance>, SaleInfoRecordOf))
    requires
        old_sale.region_end + config.region_length <= u32::MAX,
    ensures
        r.0 == A::adapted(*old_sale),
        r.1 == sale_after(
            *old_sale,
            A::adapted(*old_sale),
            *config,
            status.core_count,
            reserved_cores,
            now,
        ),
{
    let new_prices = A::adapt_price(old_sale);
    let cores_offered: CoreIndex = price::cores_on_offer(
        status.core_count,
        reserved_cores,
        config.limit_cores_offered,
    );
    let ideal_cores_sold: CoreIndex = price::part_of_cores(
        config.ideal_bulk_proportion,
        cores_offered,
    );
    let opening_price: Balance = leadin_factor_at(FixedU64 { inner: 0 }).saturating_mul_int(
        new_prices.reserve_price,
    );
    proof {
        let reserve = new_prices.reserve_price;
        assert(((100 * BILLION) * reserve) / BILLION as int == 100 * reserve) by (nonlinear_arith)
            requires
                BILLION == 1_000_000_000,
        ;
    }
    let clearing_price: Option<Balance> = if cores_offered > 0 {
        Some(new_prices.reserve_price)
    } else {
        None
    };
    let region_begin: Timeslice = old_sale.region_end;
    let region_end: Timeslice = region_begin + config.region_length;
    let new_sale = SaleInfoRecordOf {
        sale_start: now,
        opening_price,
        reserve_price: new_prices.reserve_price,
        clearing_price,
        region_begin,
        region_end,
        first_core: reserved_cores,
        ideal_cores_sold,
        cores_offered,
        cores_sold: 0,
    };
    (new_prices, new_sale)
}

/// The market.
pub struct LegacyMarket<T: LegacyConfig> {
    /// Provides the number of reserved cores.
    pub core_count_provider: BrokerCoreCountProvider,
    /// The parameters of the market.
    pub configuration: Option<LegacyConfigRecord>,
    /// The current sale.
    pub sale_info: Option<SaleInfoRecordOf>,
    /// The status of the system.
    pub status: Option<StatusRecord>,
    /// What the market is set up with.
    pub setup: core::marker::PhantomData<T>,
}

impl<T: LegacyConfig> LegacyMarket<T> {
    /// A market that nothing has been told yet.
    pub fn new(core_count_provider: BrokerCoreCountProvider) -> (r: Self)
        ensures
            r.core_count_provider == core_count_provider,
            r.configuration is None,
            r.sale_info is None,
            r.status is None,
    {
        LegacyMarket {
            core_count_provider,
            configuration: None,
            sale_info: None,
            status: None,
            setup: core::marker::PhantomData,
        }
    }

    /// The imaginary sale that precedes the first.
    pub open spec fn bootstrap_sale(
        self,
        block_number: BlockNumber,
        reserve_price: Balance,
    ) -> SaleInfoRecordOf {
        let config = self.configuration->0;
        price::bootstrap_sale(
            block_number,
            reserve_price,
            config.advance_notice,
            config.region_length,
            T::period(),
        )
    }

    /// The status of the system when sales start.
    pub open spec fn first_status(
        self,
        block_number: BlockNumber,
        core_count: CoreIndex,
    ) -> StatusRecord {
        price::initial_status(
            block_number,
            core_count,
            self.configuration->0.advance_notice,
            T::period(),
        )
    }

    /// The sale after `old_sale`.
    pub open spec fn following_sale(
        self,
        old_sale: SaleInfoRecordOf,
        core_count: CoreIndex,
        now: BlockNumber,
    ) -> SaleInfoRecordOf {
        sale_after(
            old_sale,
            T::PriceAdapter::adapted(old_sale),
            self.configuration->0,
            core_count,
            self.core_count_provider.reserved(),
            now,
        )
    }

    /// Whether no core can be sold: none is assignable, or all on offer are sold.
    pub open spec fn sale_refusal(self) -> Option<MarketError> {
        if self.sale_info->0.first_core >= self.status->0.core_count {
            Some(MarketError::Unavailable)
        } else if self.sale_info->0.cores_sold >= self.sale_info->0.cores_offered {
            Some(MarketError::SoldOut)
        } else {
            None
        }
    }

    /// Why an order is refused, if it is.
    pub open spec fn order_refusal(self, now: BlockNumber) -> Option<MarketError> {
        if self.configuration is None {
            Some(MarketError::Uninitialized)
        } else if self.sale_info is None {
            Some(MarketError::NoSales)
        } else if self.status is None {
            Some(MarketError::Uninitialized)
        } else if self.sale_refusal() is Some {
            self.sale_refusal()
        } else if now <= self.sale_info->0.sale_start {
            Some(MarketError::TooEarly)
        } else {
            None
        }
    }

    /// Why an order for a renewal is refused, if it is.
    pub open spec fn renewal_refusal(self) -> Option<MarketError> {
        if self.configuration is None || self.status is None {
            Some(MarketError::Uninitialized)
        } else if self.sale_info is None {
            Some(MarketError::NoSales)
        } else {
            self.sale_refusal()
        }
    }

    /// The price at block `now`.
    pub open spec fn price_now(self, now: BlockNumber) -> int {
        sale_price(now, self.sale_info->0, self.configuration->0.market_period)
    }

    /// The most that the next renewal can cost, as long as the price of the moment is not lower:
    /// the recorded price with the penalty on it, but no less than the reserve price.
    pub open spec fn renewal_cap(self, recorded_price: Balance) -> int {
        arithmetic::larger(
            recorded_price + arithmetic::part_of(
                self.configuration->0.penalty,
                recorded_price as int,
            ),
            self.sale_info->0.reserve_price as int,
        )
    }

    /// The outcome of a renewal at the recorded price.
    pub open spec fn renewal_result(
        self,
        now: BlockNumber,
        recorded_price: Balance,
    ) -> LegacyRenewal {
        RenewalOrderResult::Sold {
            price: recorded_price,
            next_renewal_price: arithmetic::smaller(
                self.price_now(now),
                self.renewal_cap(recorded_price),
            ) as u64,
            region_id: renewal::region_on(self.sale_info->0, next_core(self.sale_info->0)),
            effective_to: self.sale_info->0.region_end,
            displaced: None,
        }
    }

    /// Whether the current sale is over once the timeslice that is due is committed.
    pub open spec fn rotation_is_due(self, now: BlockNumber) -> bool {
        &&& self.configuration is Some
        &&& self.status is Some
        &&& self.sale_info is Some
        &&& due_timeslice(now, self.configuration->0, self.status->0, T::period()) matches Some(
            commit,
        )
        &&& commit >= self.sale_info->0.region_begin
    }

    /// The status of the system after a tick: the timeslice that is due, if any,
    /// is committed, and the last timeslice moves on by one towards the current one.
    pub open spec fn status_after(self, now: BlockNumber) -> StatusRecord {
        let status = self.status->0;
        StatusRecord {
            last_committed_timeslice: match due_timeslice(
                now,
                self.configuration->0,
                status,
                T::period(),
            ) {
                Some(commit) => commit,
                None => status.last_committed_timeslice,
            },
            last_timeslice: if status.last_timeslice < price::as_timeslice(
                now as int / T::period() as int,
            ) {
                (status.last_timeslice + 1) as u32
            } else {
                status.last_timeslice
            },
            ..status
        }
    }

    /// What the broker has to do after a tick that ends a sale.
    pub open spec fn rotation_actions(self, now: BlockNumber) -> Seq<LegacyAction> {
        let old_sale = self.sale_info->0;
        let new_sale = self.following_sale(old_sale, self.status->0.core_count, now);
        seq![
            TickAction::ProcessRenewals,
            TickAction::SaleRotated {
                old_sale,
                new_sale,
                new_prices: T::PriceAdapter::adapted(old_sale),
                start_price: sale_price(
                    now,
                    new_sale,
                    self.configuration->0.market_period,
                ) as u64,
            },
        ]
    }

    /// Begins the sale after `sale`.
    fn sale_rotated(
        &mut self,
        sale: SaleInfoRecordOf,
        config: &LegacyConfigRecord,
        status: &StatusRecord,
        block_number: BlockNumber,
        actions: &mut Vec<LegacyAction>,
    )
        requires
            old(self).configuration == Some(*config),
            old(self).core_count_provider.countable(),
            sale.region_end + config.region_length <= u32::MAX,
            config.market_period > 0,
        ensures
            final(self).sale_info == Some(
                old(self).following_sale(sale, status.core_count, block_number),
            ),
            final(self).configuration == old(self).configuration,
            final(self).status == old(self).status,
            final(self).core_count_provider == old(self).core_count_provider,
            final(actions)@ == old(actions)@.push(
                TickAction::SaleRotated {
                    old_sale: sale,
                    new_sale: old(self).following_sale(sale, status.core_count, block_number),
                    new_prices: T::PriceAdapter::adapted(sale),
                    start_price: sale_price(
                        block_number,
                        old(self).following_sale(sale, status.core_count, block_number),
                        config.market_period,
                    ) as u64,
                },
            ),
    {
        let reserved_cores: CoreIndex = self.core_count_provider.reserved_core_count();
        let (new_prices, new_sale) = rotate_sale::<T::PriceAdapter>(
            &sale,
            config,
            status,
            reserved_cores,
            block_number,
        );
        self.sale_info = Some(new_sale);
        let start_price: Balance = sell_price(block_number, &new_sale, config);
        actions.push(
            TickAction::SaleRotated { old_sale: sale, new_sale, new_prices, start_price },
        );
    }
}

impl<T: LegacyConfig> Market for LegacyMarket<T> {
    type AccountId = AccountId;

    type Balance = Balance;

    type BlockNumber = BlockNumber;

    type Error = MarketError;

    type BidId = ();

    type CoreCount = BrokerCoreCountProvider;

    open spec fn can_start(&self, block_number: BlockNumber) -> bool {
        self.configuration is Some ==> {
            &&& T::period() > 0
            &&& self.configuration->0.market_period > 0
            &&& self.core_count_provider.countable()
            &&& self.bootstrap_sale(block_number, 0).region_end
                + self.configuration->0.region_length <= u32::MAX
        }
    }

    open spec fn can_order(&self, block_number: BlockNumber) -> bool {
        self.order_refusal(block_number) is None ==> self.configuration->0.market_period > 0
    }

    open spec fn can_raise(&self, block_number: BlockNumber) -> bool {
        true
    }

    open spec fn can_renew(&self, block_number: BlockNumber, recorded_price: Balance) -> bool {
        self.renewal_refusal() is None ==> {
            &&& self.configuration->0.market_period > 0
            &&& recorded_price + arithmetic::part_of(
                self.configuration->0.penalty,
                recorded_price as int,
            ) <= u64::MAX
        }
    }

    open spec fn can_tick(&self, now: BlockNumber, weight_meter: WeightMeter) -> bool {
        &&& self.configuration is Some && self.status is Some ==> T::period() > 0
        &&& self.rotation_is_due(now) ==> {
            &&& self.configuration->0.market_period > 0
            &&& self.core_count_provider.countable()
            &&& self.sale_info->0.region_end + self.configuration->0.region_length <= u32::MAX
        }
    }

    fn start_sales(
        &mut self,
        block_number: BlockNumber,
        reserve_price: Balance,
        core_count: CoreIndex,
    ) -> (r: Result<SalesStarted<Balance, BlockNumber>, MarketError>)
        ensures
            match old(self).configuration {
                None => {
                    &&& r == Err::<SalesStarted<Balance, BlockNumber>, MarketError>(
                        MarketError::Uninitialized,
                    )
                    &&& final(self).sale_info == old(self).sale_info
                    &&& final(self).status == old(self).status
                },
                Some(config) => {
                    let old_sale = old(self).bootstrap_sale(block_number, reserve_price);
                    let new_sale = old(self).following_sale(old_sale, core_count, block_number);
                    &&& r == Ok::<SalesStarted<Balance, BlockNumber>, MarketError>(
                        SalesStarted {
                            old_sale,
                            new_sale,
                            new_prices: T::PriceAdapter::adapted(old_sale),
                            start_price: sale_price(
                                block_number,
                                new_sale,
                                config.market_period,
                            ) as u64,
                        },
                    )
                    &&& final(self).sale_info == Some(new_sale)
                    &&& final(self).status == Some(
                        old(self).first_status(block_number, core_count),
                    )
                },
            },
            final(self).configuration == old(self).configuration,
            final(self).core_count_provider == old(self).core_count_provider,
    {
        let config = match self.configuration {
            Some(c) => c,
            None => {
                return Err(MarketError::Uninitialized);
            },
        };
        let period: BlockNumber = T::timeslice_period();
        let status = price::status_at_start(
            block_number,
            core_count,
            config.advance_notice,
            period,
        );
        let old_sale = price::sale_before_first(
            block_number,
            reserve_price,
            config.advance_notice,
            config.region_length,
            period,
        );
        let reserved_cores: CoreIndex = self.core_count_provider.reserved_core_count();
        let (new_prices, new_sale) = rotate_sale::<T::PriceAdapter>(
            &old_sale,
            &config,
            &status,
            reserved_cores,
            block_number,
        );
        self.sale_info = Some(new_sale);
        self.status = Some(status);
        let start_price: Balance = sell_price(block_number, &new_sale, &config);
        Ok(SalesStarted { old_sale, new_sale, new_prices, start_price })
    }

    fn place_order(&mut self, block_number: BlockNumber, who: &AccountId, price_limit: Balance) -> (r:
        Result<OrderResult<Balance, ()>, MarketError>)
        ensures
            match old(self).order_refusal(block_number) {
                Some(e) => r == Err::<OrderResult<Balance, ()>, MarketError>(e)
                    && final(self).sale_info == old(self).sale_info,
                None => {
                    let sale = old(self).sale_info->0;
                    let price = arithmetic::smaller(
                        price_limit as int,
                        old(self).price_now(block_number),
                    ) as u64;
                    &&& r == Ok::<OrderResult<Balance, ()>, MarketError>(
                        OrderResult::Sold {
                            price,
                            region_id: renewal::region_on(sale, next_core(sale)),
                            region_end: sale.region_end,
                        },
                    )
                    &&& final(self).sale_info == Some(sale_with_core_sold(sale, price))
                },
            },
            final(self).configuration == old(self).configuration,
            final(self).status == old(self).status,
            final(self).core_count_provider == old(self).core_count_provider,
    {
        let config = match self.configuration {
            Some(c) => c,
            None => {
                return Err(MarketError::Uninitialized);
            },
        };
        let mut sale = match self.sale_info {
            Some(s) => s,
            None => {
                return Err(MarketError::NoSales);
            },
        };
        let status = match self.status {
            Some(s) => s,
            None => {
                return Err(MarketError::Uninitialized);
            },
        };
        if sale.first_core >= status.core_count {
            return Err(MarketError::Unavailable);
        }
        if sale.cores_sold >= sale.cores_offered {
            return Err(MarketError::SoldOut);
        }
        if block_number <= sale.sale_start {
            return Err(MarketError::TooEarly);
        }
        let current_price: Balance = sell_price(block_number, &sale, &config);
        let bid_price: Balance = if price_limit <= current_price {
            price_limit
        } else {
            current_price
        };
        let core: CoreIndex = purchase_core(bid_price, &mut sale);
        self.sale_info = Some(sale);
        let region_id = RegionId { begin: sale.region_begin, core, mask: CoreMask::complete() };
        Ok(OrderResult::Sold { price: bid_price, region_id, region_end: sale.region_end })
    }

    fn place_renewal_order(
        &mut self,
        block_number: BlockNumber,
        who: &AccountId,
        renewal: PotentialRenewalId,
        recorded_price: Balance,
    ) -> (r: Result<LegacyRenewal, MarketError>)
        ensures
            match old(self).renewal_refusal() {
                Some(e) => r == Err::<LegacyRenewal, MarketError>(e) && final(self).sale_info
                    == old(self).sale_info,
                None => {
                    &&& r == Ok::<LegacyRenewal, MarketError>(
                        old(self).renewal_result(block_number, recorded_price),
                    )
                    &&& final(self).sale_info == Some(
                        sale_with_core_sold(old(self).sale_info->0, recorded_price),
                    )
                },
            },
            final(self).configuration == old(self).configuration,
            final(self).status == old(self).status,
            final(self).core_count_provider == old(self).core_count_provider,
    {
        let config = match self.configuration {
            Some(c) => c,
            None => {
                return Err(MarketError::Uninitialized);
            },
        };
        let status = match self.status {
            Some(s) => s,
            None => {
                return Err(MarketError::Uninitialized);
            },
        };
        let mut sale = match self.sale_info {
            Some(s) => s,
            None => {
                return Err(MarketError::NoSales);
            },
        };
        if sale.first_core >= status.core_count {
            return Err(MarketError::Unavailable);
        }
        if sale.cores_sold >= sale.cores_offered {
            return Err(MarketError::SoldOut);
        }
        let raised: Balance = recorded_price + config.penalty.of(recorded_price);
        let price_cap: Balance = if raised >= sale.reserve_price {
            raised
        } else {
            sale.reserve_price
        };
        let current_price: Balance = sell_price(block_number, &sale, &config);
        let next_renewal_price: Balance = if current_price <= price_cap {
            current_price
        } else {
            price_cap
        };
        let core: CoreIndex = purchase_core(recorded_price, &mut sale);
        self.sale_info = Some(sale);
        let region_id = RegionId { core, begin: sale.region_begin, mask: CoreMask::complete() };
        Ok(
            RenewalOrderResult::Sold {
                price: recorded_price,
                next_renewal_price,
                region_id,
                effective_to: sale.region_end,
                displaced: None,
            },
        )
    }

    fn raise_bid(&mut self, block_number: BlockNumber, id: (), who: &AccountId, new_price: Balance) -> (r:
        Result<Balance, MarketError>)
        ensures
            r == Err::<Balance, MarketError>(MarketError::BidNotExist),
            *final(self) == *old(self),
    {
        Err(MarketError::BidNotExist)
    }

    fn close_bid(&mut self, id: (), maybe_check_owner: Option<AccountId>) -> (r: Result<
        CloseBidResult<AccountId, Balance>,
        MarketError,
    >)
        ensures
            r == Err::<CloseBidResult<AccountId, Balance>, MarketError>(MarketError::BidNotExist),
            *final(self) == *old(self),
    {
        Err(MarketError::BidNotExist)
    }

    fn tick(&mut self, now: BlockNumber, weight_meter: &mut WeightMeter) -> (r: Vec<LegacyAction>)
        ensures
            r@ == (if old(self).rotation_is_due(now) {
                old(self).rotation_actions(now)
            } else {
                Seq::empty()
            }),
            final(self).sale_info == (if old(self).rotation_is_due(now) {
                Some(
                    old(self).following_sale(
                        old(self).sale_info->0,
                        old(self).status->0.core_count,
                        now,
                    ),
                )
            } else {
                old(self).sale_info
            }),
            final(self).status == (if old(self).configuration is Some && old(self).status is Some {
                Some(old(self).status_after(now))
            } else {
                old(self).status
            }),
            final(self).configuration == old(self).configuration,
            final(self).core_count_provider == old(self).core_count_provider,
            *final(weight_meter) == *old(weight_meter),
    {
        let mut actions: Vec<LegacyAction> = Vec::new();
        let (config, mut status) = match (self.configuration, self.status) {
            (Some(c), Some(s)) => (c, s),
            _ => {
                return actions;
            },
        };
        if let Some(commit_timeslice) = next_timeslice_to_commit(
            now,
            &config,
            &status,
            T::timeslice_period(),
        ) {
            status.last_committed_timeslice = commit_timeslice;
            if let Some(sale) = self.sale_info {
                if commit_timeslice >= sale.region_begin {
                    actions.push(TickAction::ProcessRenewals);
                    self.sale_rotated(sale, &config, &status, now, &mut actions);
                }
            }
        }
        let current_timeslice: Timeslice = price::current_timeslice(now, T::timeslice_period());
        if status.last_timeslice < current_timeslice {
            status.last_timeslice = status.last_timeslice + 1;
        }
        self.status = Some(status);
        assert(actions@ =~= (if old(self).rotation_is_due(now) {
            old(self).rotation_actions(now)
        } else {
            Seq::empty()
        }));
        actions
    }
}

impl<T: LegacyConfig> MarketState for LegacyMarket<T> {
    type Config = LegacyConfigRecord;

    open spec fn can_quote(&self, block_number: BlockNumber) -> bool {
        self.configuration is Some && self.sale_info is Some ==> self.configuration->0.market_period
            > 0
    }

    fn configuration(&self) -> (r: Option<LegacyConfigRecord>)
        ensures
            r == self.configuration,
    {
        self.configuration
    }

    fn set_configuration(&mut self, config: LegacyConfigRecord)
        ensures
            *final(self) == (LegacyMarket { configuration: Some(config), ..*old(self) }),
    {
        self.configuration = Some(config);
    }

    fn status(&self) -> (r: Option<StatusRecord>)
        ensures
            r == self.status,
    {
        self.status
    }

    fn set_status(&mut self, status: StatusRecord)
        ensures
            *final(self) == (LegacyMarket { status: Some(status), ..*old(self) }),
    {
        self.status = Some(status);
    }

    fn sale_info(&self) -> (r: Option<SaleInfoRecordOf>)
        ensures
            r == self.sale_info,
    {
        self.sale_info
    }

    fn set_sale_info(&mut self, sale_info: SaleInfoRecordOf)
        ensures
            *final(self) == (LegacyMarket { sale_info: Some(sale_info), ..*old(self) }),
    {
        self.sale_info = Some(sale_info);
    }

    fn current_price(&self, block_number: BlockNumber) -> (r: Option<Balance>)
        ensures
            r == (if self.configuration is Some && self.sale_info is Some {
                Some(self.price_now(block_number) as u64)
            } else {
                None
            }),
    {
        let config = match self.configuration {
            Some(c) => c,
            None => {
                return None;
            },
        };
        let sale = match self.sale_info {
            Some(s) => s,
            None => {
                return None;
            },
        };
        Some(sell_price(block_number, &sale, &config))
    }

    /// A sale of this market is not divided into phases.
    fn current_phase(&self) -> (r: Option<SalePhase>)
        ensures
            r is None,
    {
        None
    }
}

/// Parameters for measuring the operations of the market.
pub fn benchmark_config() -> (r: LegacyConfigRecord)
    ensures
        r == (LegacyConfigRecord {
            advance_notice: 2,
            market_period: 1,
            renewal_period: 1,
            region_length: 3,
            ideal_bulk_proportion: (Perbill { parts: 0 }),
            limit_cores_offered: None,
            penalty: (Perbill { parts: 100_000_000 }),
            contribution_timeout: 5,
        }),
{
    LegacyConfigRecord {
        advance_notice: 2,
        market_period: 1,
        renewal_period: 1,
        region_length: 3,
        ideal_bulk_proportion: Perbill { parts: 0 },
        limit_cores_offered: None,
        penalty: Perbill { parts: 100_000_000 },
        contribution_timeout: 5,
    }
}

// What holds of every sale.

/// Over a sale the factor does not rise, and it is one or more.
pub proof fn law_leadin_descends(a: int, b: int)
    requires
        0 <= a <= b <= BILLION,
    ensures
        leadin(a) >= leadin(b) >= BILLION,
{
}

/// Over a sale the price does not rise, and it is the reserve price or more.
pub proof fn law_sale_price_descends(
    now: BlockNumber,
    later: BlockNumber,
    sale: SaleInfoRecordOf,
    period: BlockNumber,
)
    requires
        period > 0,
        now <= later,
    ensures
        sale_price(now, sale, period) >= sale_price(later, sale, period) >= sale.reserve_price,
{
    let e = price::elapsed(now, sale, period);
    let f = price::elapsed(later, sale, period);
    let p = price::progress(e, period as int);
    let q = price::progress(f, period as int);
    price::lemma_progress_bounds(e, period as int);
    price::lemma_progress_bounds(f, period as int);
    arithmetic::lemma_nearest_monotone(e * BILLION, f * BILLION, period as int);
    law_leadin_descends(p, q);
    let x = leadin(p);
    let y = leadin(q);
    let reserve = sale.reserve_price as int;
    assert(x * reserve >= y * reserve >= BILLION * reserve) by (nonlinear_arith)
        requires
            x >= y >= BILLION,
            reserve >= 0,
    ;
}

/// A sale starts at a hundred times the reserve price, which is its opening
/// price, and from its end on the price is the reserve price.
pub proof fn law_sale_price_milestones(
    now: BlockNumber,
    sale: SaleInfoRecordOf,
    period: BlockNumber,
)
    requires
        period > 0,
    ensures
        now <= sale.sale_start ==> sale_price(now, sale, period) == arithmetic::saturate(
            100 * sale.reserve_price,
        ),
        now >= sale.sale_start + period ==> sale_price(now, sale, period) == sale.reserve_price,
{
    price::lemma_progress_bounds(0, period as int);
    let reserve = sale.reserve_price as int;
    assert(((100 * BILLION) * reserve) / BILLION as int == 100 * reserve) by (nonlinear_arith)
        requires
            BILLION == 1_000_000_000,
    ;
    assert((BILLION * reserve) / BILLION as int == reserve) by (nonlinear_arith)
        requires
            BILLION == 1_000_000_000,
    ;
}

/// Two cores that a sale sells one after the other are not the same, as long
/// as both have an index, and no sale sells more cores than it offers.
pub proof fn law_sold_cores_differ(sale: SaleInfoRecordOf, price: Balance)
    requires
        sale.cores_sold < sale.cores_offered,
        sale.first_core + sale.cores_offered <= u16::MAX,
    ensures
        next_core(sale_with_core_sold(sale, price)) == next_core(sale) + 1,
        sale_with_core_sold(sale, price).cores_sold <= sale.cores_offered,
{
}

/// The clearing price is that of the last core sold within the number that the
/// market would like to sell; cores sold beyond leave it as it is.
pub proof fn law_clearing_price_follows_sales(sale: SaleInfoRecordOf, price: Balance)
    requires
        sale.cores_sold < u16::MAX,
        sale.clearing_price is Some,
    ensures
        sale.cores_sold < sale.ideal_cores_sold ==> sale_with_core_sold(sale, price).clearing_price
            == Some(price),
        sale.cores_sold >= sale.ideal_cores_sold ==> sale_with_core_sold(sale, price).clearing_price
            == sale.clearing_price,
{
}

/// A tick moves the status on by one timeslice at most.
pub proof fn law_ticks_take_one_step<T: LegacyConfig>(market: LegacyMarket<T>, now: BlockNumber)
    requires
        market.configuration is Some,
        market.status is Some,
    ensures
        ({
            let before = market.status->0;
            let after = market.status_after(now);
            &&& before.last_committed_timeslice <= after.last_committed_timeslice
                <= before.last_committed_timeslice + 1
            &&& before.last_timeslice <= after.last_timeslice <= before.last_timeslice + 1
            &&& after.core_count == before.core_count
        }),
{
}

/// Each sale sells the regions that begin where those of the sale before it
/// end, and they have the length that is set.
pub proof fn law_regions_are_contiguous(
    old_sale: SaleInfoRecordOf,
    prices: AdaptedPrices<Balance>,
    config: LegacyConfigRecord,
    core_count: CoreIndex,
    reserved_cores: CoreIndex,
    now: BlockNumber,
)
    requires
        old_sale.region_end + config.region_length <= u32::MAX,
    ensures
        ({
            let sale = sale_after(old_sale, prices, config, core_count, reserved_cores, now);
            &&& sale.region_begin == old_sale.region_end
            &&& sale.region_end - sale.region_begin == config.region_length
        }),
{
}

/// The price of a renewal rises by the penalty at most, or to the reserve
/// price where that is more, and never above the price of the moment.
pub proof fn law_renewal_price_is_capped<T: LegacyConfig>(
    market: LegacyMarket<T>,
    now: BlockNumber,
    recorded_price: Balance,
)
    requires
        market.renewal_refusal() is None,
        market.can_renew(now, recorded_price),
    ensures
        market.renewal_result(now, recorded_price) matches RenewalOrderResult::Sold {
            price,
            next_renewal_price,
            ..
        } && price == recorded_price && next_renewal_price <= market.price_now(now)
            && next_renewal_price <= market.renewal_cap(recorded_price),
{
    law_sale_price_descends(
        now,
        now,
        market.sale_info->0,
        market.configuration->0.market_period,
    );
    arithmetic::lemma_part_of_bound(market.configuration->0.penalty, recorded_price as int);
}

/// The factor on the reserve price falls from a hundred at the beginning of a
/// sale to ten at half of it, and from there to one at its end, along a straight
/// line each. Behind the end it falls on, to zero at most.
pub proof fn law_leadin_falls_along_two_lines(point: int)
    requires
        point >= 0,
    ensures
        point <= 500_000_000 ==> leadin(point) == 100_000_000_000 - 180 * point,
        point > 500_000_000 && 18 * point <= 19_000_000_000 ==> leadin(point) == 19_000_000_000 - 18
            * point,
        18 * point > 19_000_000_000 ==> leadin(point) == 0,
{
}

/// The price of the moment is the reserve price times the factor at the point of
/// the sale that is reached: the part of the period that has passed, to the
/// nearest billionth.
pub proof fn law_sale_price_is_the_factor_times_the_reserve_price(
    now: BlockNumber,
    sale: SaleInfoRecordOf,
    period: BlockNumber,
    point: int,
)
    requires
        period > 0,
        ({
            let since = if now > sale.sale_start {
                now - sale.sale_start
            } else {
                0
            };
            let passed = if since < period {
                since
            } else {
                period as int
            };
            &&& 2 * (point * period - passed * 1_000_000_000) < period
            &&& 2 * (passed * 1_000_000_000 - point * period) <= period
        }),
    ensures
        ({
            let factor = if point <= 500_000_000 {
                100_000_000_000 - 180 * point
            } else {
                19_000_000_000 - 18 * point
            };
            let price = (factor * sale.reserve_price) / 1_000_000_000;
            &&& 0 <= point <= 1_000_000_000
            &&& sale_price(now, sale, period) == (if price > u64::MAX {
                u64::MAX as int
            } else {
                price
            })
        }),
{
    let e = price::elapsed(now, sale, period);
    let t = period as int;
    let p = price::progress(e, t);
    price::lemma_progress_bounds(e, t);
    assert(0 <= e * BILLION) by (nonlinear_arith)
        requires
            e >= 0,
    ;
    price_laws::lemma_nearest_is_near(e * BILLION, t);
    let n = e * BILLION;
    let d = point - p;
    assert(point * t - p * t == d * t) by (nonlinear_arith)
        requires
            d == point - p,
    ;
    assert(d == 0) by (nonlinear_arith)
        requires
            -t < d * t < t,
            t > 0,
    ;
}

/// What selling a core does to the record of a sale: one core more is sold, the
/// one behind those that are, and the price is the clearing price unless more
/// are sold by now than the market would like to. Where cores cannot be counted
/// any farther, the last index and the largest number stay.
pub proof fn law_selling_a_core_is_recorded(sale: SaleInfoRecordOf, price: Balance)
    ensures
        ({
            let after = sale_with_core_sold(sale, price);
            &&& next_core(sale) == (if sale.first_core + sale.cores_sold < u16::MAX {
                sale.first_core + sale.cores_sold
            } else {
                u16::MAX as int
            })
            &&& after.cores_sold == (if sale.cores_sold < u16::MAX {
                sale.cores_sold + 1
            } else {
                u16::MAX as int
            })
            &&& after.clearing_price == (if sale.clearing_price is None || after.cores_sold
                <= sale.ideal_cores_sold {
                Some(price)
            } else {
                sale.clearing_price
            })
            &&& after == (SaleInfoRecordOf {
                cores_sold: after.cores_sold,
                clearing_price: after.clearing_price,
                ..sale
            })
        }),
{
}

/// When an order and when an order for a renewal is refused, and with what.
pub proof fn law_orders_are_refused_with_a_reason<T: LegacyConfig>(
    market: LegacyMarket<T>,
    now: BlockNumber,
)
    ensures
        ({
            let sale = market.sale_info->0;
            let unsold = if sale.first_core >= market.status->0.core_count {
                Some(MarketError::Unavailable)
            } else if sale.cores_sold >= sale.cores_offered {
                Some(MarketError::SoldOut)
            } else {
                None
            };
            &&& market.configuration is None ==> market.order_refusal(now) == Some(
                MarketError::Uninitialized,
            )
            &&& market.configuration is Some && market.sale_info is None ==> market.order_refusal(
                now,
            ) == Some(MarketError::NoSales)
            &&& market.configuration is Some && market.sale_info is Some && market.status is None
                ==> market.order_refusal(now) == Some(MarketError::Uninitialized)
            &&& market.configuration is Some && market.sale_info is Some && market.status is Some
                ==> market.order_refusal(now) == (if unsold is None && now <= sale.sale_start {
                Some(MarketError::TooEarly)
            } else {
                unsold
            })
            &&& market.configuration is None || market.status is None ==> market.renewal_refusal()
                == Some(MarketError::Uninitialized)
            &&& market.configuration is Some && market.status is Some && market.sale_info is None
                ==> market.renewal_refusal() == Some(MarketError::NoSales)
            &&& market.configuration is Some && market.status is Some && market.sale_info is Some
                ==> market.renewal_refusal() == unsold
        }),
{
}

/// What a renewal costs, now and the next time: the recorded price now; the next
/// time the price of the moment, but no more than the recorded price with the
/// penalty on it, rounded to the nearest unit, or the reserve price, whichever is
/// more.
pub proof fn law_renewals_are_sold_at_the_recorded_price<T: LegacyConfig>(
    market: LegacyMarket<T>,
    now: BlockNumber,
    recorded_price: Balance,
    penalty: int,
)
    requires
        market.renewal_refusal() is None,
        market.configuration->0.market_period > 0,
        ({
            let parts = market.configuration->0.penalty.parts as int;
            let share = if parts > 1_000_000_000 {
                1_000_000_000 * recorded_price
            } else {
                parts * recorded_price
            };
            &&& 2 * (1_000_000_000 * penalty - share) < 1_000_000_000
            &&& 2 * (share - 1_000_000_000 * penalty) <= 1_000_000_000
        }),
        recorded_price + penalty <= u64::MAX,
    ensures
        ({
            let sale = market.sale_info->0;
            let current = sale_price(now, sale, market.configuration->0.market_period);
            let raised = recorded_price + penalty;
            let cap = if raised > sale.reserve_price {
                raised
            } else {
                sale.reserve_price as int
            };
            &&& market.renewal_result(now, recorded_price) matches RenewalOrderResult::Sold {
                price,
                next_renewal_price,
                region_id,
                effective_to,
                displaced,
            }
            &&& price == recorded_price
            &&& next_renewal_price == (if current < cap {
                current
            } else {
                cap
            })
            &&& region_id.begin == sale.region_begin
            &&& region_id.core == next_core(sale)
            &&& region_id.mask.high == u16::MAX && region_id.mask.low == u64::MAX
            &&& effective_to == sale.region_end
            &&& displaced is None
        }),
{
    let part = market.configuration->0.penalty.value();
    let x = recorded_price as int;
    law_sale_price_descends(
        now,
        now,
        market.sale_info->0,
        market.configuration->0.market_period,
    );
    arithmetic::lemma_part_of_bound(market.configuration->0.penalty, x);
    assert(0 <= part * x) by (nonlinear_arith)
        requires
            0 <= part,
            0 <= x,
    ;
    price_laws::lemma_nearest_is_near(part * x, 1_000_000_000);
    let p = arithmetic::part_of(market.configuration->0.penalty, x);
    assert(p == penalty);
}

/// How the next sale is laid out, over its own fields: it opens at a hundred
/// times its reserve price, offers the cores that are not reserved, up to the
/// limit if there is one, and would like to sell the part of them that is set.
/// As long as nothing is sold its clearing price is the reserve price, unless
/// nothing is offered.
pub proof fn law_the_next_sale_is_laid_out(
    old_sale: SaleInfoRecordOf,
    prices: AdaptedPrices<Balance>,
    config: LegacyConfigRecord,
    core_count: CoreIndex,
    reserved_cores: CoreIndex,
    now: BlockNumber,
)
    requires
        old_sale.region_end + config.region_length <= u32::MAX,
    ensures
        ({
            let sale = sale_after(old_sale, prices, config, core_count, reserved_cores, now);
            let free = if core_count > reserved_cores {
                core_count - reserved_cores
            } else {
                0
            };
            let parts = config.ideal_bulk_proportion.parts as int;
            let ideal = if parts > 1_000_000_000 {
                1_000_000_000 * sale.cores_offered
            } else {
                parts * sale.cores_offered
            };
            &&& sale.sale_start == now
            &&& sale.reserve_price == prices.reserve_price
            &&& sale.opening_price == (if 100 * sale.reserve_price > u64::MAX {
                u64::MAX as int
            } else {
                100 * sale.reserve_price
            })
            &&& sale.clearing_price == (if sale.cores_offered > 0 {
                Some(sale.reserve_price)
            } else {
                None
            })
            &&& sale.region_begin == old_sale.region_end
            &&& sale.region_end == old_sale.region_end + config.region_length
            &&& sale.first_core == reserved_cores
            &&& sale.cores_offered == (match config.limit_cores_offered {
                Some(limit) if limit < free => limit as int,
                _ => free,
            })
            &&& 2 * (1_000_000_000 * sale.ideal_cores_sold - ideal) < 1_000_000_000
            &&& 2 * (ideal - 1_000_000_000 * sale.ideal_cores_sold) <= 1_000_000_000
            &&& sale.cores_sold == 0
        }),
{
    let cores = price::offered(core_count, reserved_cores, config.limit_cores_offered);
    arithmetic::lemma_part_of_bound(config.ideal_bulk_proportion, cores);
    let p = config.ideal_bulk_proportion.value();
    assert(0 <= p * cores) by (nonlinear_arith)
        requires
            0 <= p,
            0 <= cores,
    ;
    price_laws::lemma_nearest_is_near(p * cores, BILLION as int);
}

/// What a tick does: it commits the timeslice behind the last one that is
/// committed, if the schedule of that has to be fixed by now, and counts one
/// timeslice more if one has passed. Where the timeslice that it commits is one
/// of the regions on sale, it ends the sale: renewals are processed and the next
/// sale begins.
pub proof fn law_ticks_commit_and_rotate<T: LegacyConfig>(market: LegacyMarket<T>, now: BlockNumber)
    requires
        market.configuration is Some,
        market.status is Some,
        T::period() > 0,
    ensures
        ({
            let config = market.configuration->0;
            let status = market.status->0;
            let sale = market.sale_info->0;
            let period = T::period() as int;
            let ahead = if now + config.advance_notice > u64::MAX {
                u64::MAX as int
            } else {
                now + config.advance_notice
            };
            let ready = if ahead / period > u32::MAX {
                u32::MAX as int
            } else {
                ahead / period
            };
            let current = if now as int / period > u32::MAX {
                u32::MAX as int
            } else {
                now as int / period
            };
            let due = status.last_committed_timeslice < ready;
            let after = market.status_after(now);
            let next = market.following_sale(sale, status.core_count, now);
            &&& after.last_committed_timeslice == (if due {
                status.last_committed_timeslice + 1
            } else {
                status.last_committed_timeslice as int
            })
            &&& after.last_timeslice == (if status.last_timeslice < current {
                status.last_timeslice + 1
            } else {
                status.last_timeslice as int
            })
            &&& after.core_count == status.core_count
            &&& after.private_pool_size == status.private_pool_size
            &&& after.system_pool_size == status.system_pool_size
            &&& market.rotation_is_due(now) <==> {
                &&& market.sale_info is Some
                &&& due
                &&& status.last_committed_timeslice + 1 >= sale.region_begin
            }
            &&& market.rotation_is_due(now) ==> {
                let actions = market.rotation_actions(now);
                &&& actions.len() == 2
                &&& actions[0] is ProcessRenewals
                &&& actions[1] matches TickAction::SaleRotated {
                    old_sale,
                    new_sale,
                    new_prices,
                    start_price,
                }
                &&& old_sale == sale
                &&& new_sale == next
                &&& new_prices == T::PriceAdapter::adapted(sale)
                &&& start_price == sale_price(now, next, config.market_period) as u64
            }
            &&& next == sale_after(
                sale,
                T::PriceAdapter::adapted(sale),
                config,
                status.core_count,
                market.core_count_provider.reserved(),
                now,
            )
        }),
{
    let n = now as int;
    let p = T::period() as int;
    let ahead = arithmetic::saturate(now + market.configuration->0.advance_notice);
    assert(0 <= n / p && 0 <= ahead / p) by (nonlinear_arith)
        requires
            p > 0,
            0 <= n,
            0 <= ahead,
    ;
}

/// How sales start: with an imaginary sale at the given reserve price whose
/// regions begin with the timeslice that has to be committed by now.
pub proof fn law_sales_start<T: LegacyConfig>(
    market: LegacyMarket<T>,
    now: BlockNumber,
    reserve_price: Balance,
    core_count: CoreIndex,
)
    requires
        market.configuration is Some,
        T::period() > 0,
    ensures
        ({
            let config = market.configuration->0;
            let period = T::period() as int;
            let ahead = if now + config.advance_notice > u64::MAX {
                u64::MAX as int
            } else {
                now + config.advance_notice
            };
            let commit = if ahead / period > u32::MAX {
                u32::MAX as int
            } else {
                ahead / period
            };
            let before = market.bootstrap_sale(now, reserve_price);
            let status = market.first_status(now, core_count);
            &&& before.sale_start == now
            &&& before.opening_price == reserve_price
            &&& before.reserve_price == reserve_price
            &&& before.clearing_price is None
            &&& before.region_begin == commit
            &&& before.region_end == (if commit + config.region_length > u32::MAX {
                u32::MAX as int
            } else {
                commit + config.region_length
            })
            &&& before.first_core == 0
            &&& before.ideal_cores_sold == 0
            &&& before.cores_offered == 0
            &&& before.cores_sold == 0
            &&& status.core_count == core_count
            &&& status.private_pool_size == 0
            &&& status.system_pool_size == 0
            &&& status.last_committed_timeslice == (if commit > 0 {
                commit - 1
            } else {
                0
            })
            &&& status.last_timeslice == (if now as int / period > u32::MAX {
                u32::MAX as int
            } else {
                now as int / period
            })
        }),
{
    let n = now as int;
    let p = T::period() as int;
    let ahead = arithmetic::saturate(now + market.configuration->0.advance_notice);
    assert(0 <= n / p && 0 <= ahead / p) by (nonlinear_arith)
        requires
            p > 0,
            0 <= n,
            0 <= ahead,
    ;
}

/// All reservations and all leases on record are reserved cores, where no more
/// of either are on record than have an index.
pub proof fn law_reservations_and_leases_are_reserved(provider: BrokerCoreCountProvider)
    requires
        provider.countable(),
    ensures
        ({
            let reservations = match provider.reservations {
                Some(n) => n as int,
                None => 0,
            };
            let leases = match provider.leases {
                Some(n) => n as int,
                None => 0,
            };
            provider.reserved() == reservations % 65536 + leases % 65536
        }),
{
}

} // verus!

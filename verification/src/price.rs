//! How the prices of a sale are set and how they move.

use crate::arithmetic;
use crate::arithmetic::{FixedU64, Perbill, BILLION};
use crate::primitives::{CoreIndex, StatusRecord, Timeslice};
use crate::records::{AdaptedPrices, Balance, BlockNumber, ConfigRecordOf, SaleInfoRecordOf};
use vstd::prelude::*;

verus! {

/// The fraction of the auction that has passed, in billionths.
pub open spec fn progress(elapsed: int, period: int) -> int {
    arithmetic::nearest(elapsed * BILLION, period)
}

/// The length of the Market phase; with no parameters set it ends with the present block.
pub open spec fn market_period(config: Option<ConfigRecordOf>, now: BlockNumber) -> BlockNumber {
    match config {
        Some(c) => c.market_period,
        None => now,
    }
}

/// The number of blocks of the Market phase that have passed.
pub open spec fn elapsed(now: BlockNumber, sale: SaleInfoRecordOf, period: BlockNumber) -> int {
    arithmetic::smaller(arithmetic::monus(now as int, sale.sale_start as int), period as int)
}

/// By how much the price has come down: the fraction of the auction that has
/// passed, of the difference between the opening price and the reserve price.
pub open spec fn descent(now: BlockNumber, sale: SaleInfoRecordOf, period: BlockNumber) -> int {
    (progress(elapsed(now, sale, period), period as int) * arithmetic::monus(
        sale.opening_price as int,
        sale.reserve_price as int,
    )) / BILLION as int
}

/// The price at block `now`: the opening price less the descent.
pub open spec fn price_at(
    now: BlockNumber,
    sale: SaleInfoRecordOf,
    config: Option<ConfigRecordOf>,
) -> int {
    let period = market_period(config, now);
    if period == 0 {
        sale.reserve_price as int
    } else {
        sale.opening_price - descent(now, sale, period)
    }
}

/// The fraction of the auction that has passed is between none and all of it.
pub proof fn lemma_progress_bounds(e: int, period: int)
    requires
        0 <= e <= period,
        period > 0,
    ensures
        0 <= progress(e, period) <= BILLION,
        progress(0, period) == 0,
        progress(period, period) == BILLION,
{
    assert(0 <= e * BILLION <= period * BILLION) by (nonlinear_arith)
        requires
            0 <= e <= period,
    ;
    arithmetic::lemma_nearest_monotone(e * BILLION, period * BILLION, period);
    assert((period * BILLION) / period == BILLION && (period * BILLION) % period == 0)
        by (nonlinear_arith)
        requires
            period > 0,
    ;
    assert(0int / period == 0 && 0int % period == 0) by (nonlinear_arith)
        requires
            period > 0,
    ;
}

/// The price comes down by no more than the difference that it has to cover.
pub proof fn lemma_descent_bounds(now: BlockNumber, sale: SaleInfoRecordOf, period: BlockNumber)
    requires
        period > 0,
    ensures
        0 <= descent(now, sale, period) <= arithmetic::monus(
            sale.opening_price as int,
            sale.reserve_price as int,
        ),
{
    let p = progress(elapsed(now, sale, period), period as int);
    let range = arithmetic::monus(sale.opening_price as int, sale.reserve_price as int);
    lemma_progress_bounds(elapsed(now, sale, period), period as int);
    assert(0 <= p * range <= BILLION * range) by (nonlinear_arith)
        requires
            0 <= p <= BILLION,
            0 <= range,
    ;
}

/// The price at the given block of the Market phase.
///
/// It descends linearly from the opening price to the reserve price.
pub fn descending_price(
    now: BlockNumber,
    sale: &SaleInfoRecordOf,
    config: &Option<ConfigRecordOf>,
) -> (r: Balance)
    ensures
        r == price_at(now, *sale, *config),
{
    let market_period: BlockNumber = match config {
        Some(c) => c.market_period,
        None => now,
    };
    let since_start: BlockNumber = now.saturating_sub(sale.sale_start);
    let elapsed: BlockNumber = if since_start <= market_period {
        since_start
    } else {
        market_period
    };
    if market_period == 0 {
        return sale.reserve_price;
    }
    let price_range: Balance = sale.opening_price.saturating_sub(sale.reserve_price);
    proof {
        lemma_progress_bounds(elapsed as int, market_period as int);
        lemma_descent_bounds(now, *sale, market_period);
    }
    let descent: Balance = FixedU64::from_rational(elapsed, market_period).saturating_mul_int(
        price_range,
    );
    sale.opening_price.saturating_sub(descent)
}

/// The auction starts at the opening price.
pub proof fn law_auction_opens_at_opening_price(
    now: BlockNumber,
    sale: SaleInfoRecordOf,
    config: ConfigRecordOf,
)
    requires
        config.market_period > 0,
        now <= sale.sale_start,
    ensures
        price_at(now, sale, Some(config)) == sale.opening_price,
{
    lemma_progress_bounds(0, config.market_period as int);
    let range = arithmetic::monus(sale.opening_price as int, sale.reserve_price as int);
    let p = progress(0, config.market_period as int);
    assert(p * range == 0) by (nonlinear_arith)
        requires
            p == 0,
    ;
}

/// The auction ends at the reserve price, if it did not open below it.
pub proof fn law_auction_ends_at_reserve_price(
    now: BlockNumber,
    sale: SaleInfoRecordOf,
    config: ConfigRecordOf,
)
    requires
        now >= sale.sale_start + config.market_period,
        sale.opening_price >= sale.reserve_price,
    ensures
        price_at(now, sale, Some(config)) == sale.reserve_price,
{
    if config.market_period > 0 {
        lemma_progress_bounds(config.market_period as int, config.market_period as int);
        assert((BILLION * (sale.opening_price - sale.reserve_price)) / BILLION as int
            == sale.opening_price - sale.reserve_price);
    }
}

/// The price never rises during an auction, and stays between the reserve
/// price and the opening price if it did not open below the reserve price.
pub proof fn law_price_descends(
    earlier: BlockNumber,
    later: BlockNumber,
    sale: SaleInfoRecordOf,
    config: ConfigRecordOf,
)
    requires
        earlier <= later,
    ensures
        price_at(later, sale, Some(config)) <= price_at(earlier, sale, Some(config)),
        sale.opening_price >= sale.reserve_price ==> sale.reserve_price <= price_at(
            later,
            sale,
            Some(config),
        ) <= sale.opening_price,
{
    let period = config.market_period;
    if period > 0 {
        let e1 = elapsed(earlier, sale, period);
        let e2 = elapsed(later, sale, period);
        let range = arithmetic::monus(sale.opening_price as int, sale.reserve_price as int);
        lemma_descent_bounds(later, sale, period);
        assert(0 <= e1 * BILLION <= e2 * BILLION);
        arithmetic::lemma_nearest_monotone(e1 * BILLION, e2 * BILLION, period as int);
        let p1 = progress(e1, period as int);
        let p2 = progress(e2, period as int);
        assert(p1 * range <= p2 * range) by (nonlinear_arith)
            requires
                p1 <= p2,
                0 <= range,
        ;
    }
}

/// The part of the offered cores that a sale sold, in billionths.
pub open spec fn consumption(sale: SaleInfoRecordOf) -> int {
    arithmetic::rate(sale.cores_sold as int, sale.cores_offered as int)
}

/// The term `x^n / n!` of the exponential series, in billionths, with each
/// product and each quotient rounded down and each product capped.
pub open spec fn exp_term(x: int, n: nat) -> int
    decreases n,
{
    if n == 0 {
        BILLION as int
    } else {
        arithmetic::saturate((exp_term(x, (n - 1) as nat) * x) / BILLION as int) / n as int
    }
}

/// The sum of the terms up to `n` of the exponential series, capped.
pub open spec fn exp_sum(x: int, n: nat) -> int
    decreases n,
{
    if n == 0 {
        BILLION as int
    } else {
        arithmetic::saturate(exp_sum(x, (n - 1) as nat) + exp_term(x, n))
    }
}

/// The number of terms of the exponential series that are summed, after the first.
pub const EXP_TERMS: u64 = 29;

/// How far a rate is from the target, times the sensitivity.
pub open spec fn exponent(rate: int, config: ConfigRecordOf) -> int {
    let target = config.target_consumption_rate.value();
    let deviation = if rate >= target {
        rate - target
    } else {
        target - rate
    };
    arithmetic::saturate((config.sensitivity_millis * 1_000_000 * deviation) / BILLION as int)
}

/// The factor `exp(K * (rate - target))` by which the reserve price moves, in billionths.
pub open spec fn price_factor(rate: int, config: ConfigRecordOf) -> int {
    let sum = exp_sum(exponent(rate, config), EXP_TERMS as nat);
    if rate >= config.target_consumption_rate.value() {
        sum
    } else {
        (BILLION * BILLION) / sum
    }
}

/// The reserve price moved by the factor, but no lower than the least reserve price.
pub open spec fn price_candidate(reserve: int, rate: int, config: ConfigRecordOf) -> int {
    arithmetic::larger(
        arithmetic::saturate((price_factor(rate, config) * reserve) / BILLION as int),
        config.min_reserve_price as int,
    )
}

/// The reserve price of the sale that follows one.
///
/// It is that of the old sale where nothing was offered. Else it is the
/// candidate, and after a sale of all cores at least the least increment above
/// the old one.
pub open spec fn next_reserve_price(old_sale: SaleInfoRecordOf, config: ConfigRecordOf) -> int {
    let reserve = old_sale.reserve_price as int;
    let candidate = price_candidate(reserve, consumption(old_sale), config);
    if old_sale.cores_offered == 0 {
        reserve
    } else if consumption(old_sale) == BILLION && arithmetic::monus(candidate, reserve)
        < config.min_increment {
        arithmetic::saturate(reserve + config.min_increment)
    } else {
        candidate
    }
}

/// Terms and sums of the series are within the range of a fixed-point number.
pub proof fn lemma_exp_bounds(x: int, n: nat)
    requires
        x >= 0,
    ensures
        0 <= exp_term(x, n) <= u64::MAX,
        BILLION <= exp_sum(x, n) <= u64::MAX,
    decreases n,
{
    if n > 0 {
        lemma_exp_bounds(x, (n - 1) as nat);
        let t = exp_term(x, (n - 1) as nat);
        assert(0 <= t * x) by (nonlinear_arith)
            requires
                0 <= t,
                0 <= x,
        ;
        let s = arithmetic::saturate((t * x) / BILLION as int);
        assert(0 <= s / n as int <= s) by (nonlinear_arith)
            requires
                0 <= s,
                n > 0,
        ;
    }
}

/// Once a term has vanished, the sum stays what it is.
proof fn lemma_exp_tail(x: int, m: nat, n: nat)
    requires
        x >= 0,
        m <= n,
        exp_term(x, m) == 0,
    ensures
        exp_term(x, n) == 0,
        exp_sum(x, n) == exp_sum(x, m),
    decreases n,
{
    if m < n {
        lemma_exp_tail(x, m, (n - 1) as nat);
        lemma_exp_bounds(x, (n - 1) as nat);
        let t = exp_term(x, (n - 1) as nat);
        assert(t * x == 0) by (nonlinear_arith)
            requires
                t == 0,
        ;
        assert(0int / n as int == 0) by (nonlinear_arith)
            requires
                n > 0,
        ;
    }
}

/// `exp(x)`, as the sum of its series.
pub fn exponential(x: FixedU64) -> (r: FixedU64)
    ensures
        r.inner == exp_sum(x.inner as int, EXP_TERMS as nat),
{
    let mut sum: FixedU64 = FixedU64::one();
    let mut term: FixedU64 = FixedU64::one();
    let mut n: u64 = 1;
    while n <= EXP_TERMS
        invariant
            1 <= n <= EXP_TERMS + 1,
            sum.inner == exp_sum(x.inner as int, (n - 1) as nat),
            term.inner == exp_term(x.inner as int, (n - 1) as nat),
        decreases EXP_TERMS + 1 - n,
    {
        let product = term.saturating_mul(x);
        let divisor = FixedU64::saturating_from_integer(n);
        proof {
            lemma_scaled_quotient(product.inner as int, n as int);
        }
        term = product.divided_by(divisor);
        if term.inner == 0 {
            proof {
                lemma_exp_tail(x.inner as int, n as nat, EXP_TERMS as nat);
                lemma_exp_bounds(x.inner as int, (n - 1) as nat);
            }
            return sum;
        }
        sum = sum.saturating_add(term);
        n += 1;
    }
    sum
}

/// Dividing by `n` in billionths is dividing by `n`.
proof fn lemma_scaled_quotient(a: int, n: int)
    requires
        0 <= a <= u64::MAX,
        0 < n <= EXP_TERMS,
    ensures
        (a * BILLION) / (n * BILLION) == a / n,
        0 <= a / n <= u64::MAX,
        arithmetic::saturate(n * BILLION) == n * BILLION,
{
    assert((a * BILLION) / (n * BILLION) == a / n) by (nonlinear_arith)
        requires
            n > 0,
            BILLION > 0,
            a >= 0,
    ;
    assert(0 <= a / n <= a) by (nonlinear_arith)
        requires
            0 <= a,
            n > 0,
    ;
}

/// The reserve price of the next sale, from the consumption of the old one.
///
/// The candidate is `reserve_price * exp(K * (consumption_rate - target))`, or
/// the least reserve price where that is more. After a sale of all cores the
/// increase is the least increment or more.
pub fn adjust_reserve_price(old_sale: &SaleInfoRecordOf, config: &ConfigRecordOf) -> (r: Balance)
    ensures
        r == next_reserve_price(*old_sale, *config),
{
    let cores_offered: CoreIndex = old_sale.cores_offered;
    if cores_offered == 0 {
        return old_sale.reserve_price;
    }
    let consumption_rate: u32 = Perbill::from_rational(
        old_sale.cores_sold as u32,
        cores_offered as u32,
    ).parts;
    let target: u32 = config.target_consumption_rate.deconstruct();
    proof {
        lemma_rate_bounds(old_sale.cores_sold as int, cores_offered as int);
    }
    let positive = consumption_rate >= target;
    let deviation: u32 = if positive {
        consumption_rate - target
    } else {
        target - consumption_rate
    };
    proof {
        lemma_exact_fraction(config.sensitivity_millis as int, 1_000_000, 1000);
        lemma_exact_fraction(deviation as int, 1, BILLION as int);
    }
    let k = FixedU64::from_rational(config.sensitivity_millis as u64, 1000);
    let dev = FixedU64::from_rational(deviation as u64, BILLION);
    let exponent = k.saturating_mul(dev);
    let sum = exponential(exponent);
    proof {
        lemma_exp_bounds(exponent.inner as int, EXP_TERMS as nat);
        lemma_inverse_bounds(sum.inner as int);
    }
    let exp_approx = if positive {
        sum
    } else {
        FixedU64::saturating_from_rational(FixedU64::one().inner, sum.inner)
    };
    let mut price_candidate: Balance = exp_approx.saturating_mul_int(old_sale.reserve_price);
    if price_candidate < config.min_reserve_price {
        price_candidate = config.min_reserve_price;
    }
    if consumption_rate == 1_000_000_000 {
        let increase: Balance = price_candidate.saturating_sub(old_sale.reserve_price);
        if increase < config.min_increment {
            price_candidate = old_sale.reserve_price.saturating_add(config.min_increment);
        }
    }
    price_candidate
}

/// A rate is between none and all.
pub proof fn lemma_rate_bounds(p: int, q: int)
    requires
        p >= 0,
        q > 0,
    ensures
        0 <= arithmetic::rate(p, q) <= BILLION,
        arithmetic::rate(p, q) == BILLION <==> p >= q,
{
    if p < q {
        assert(0 <= (p * BILLION) / q < BILLION) by (nonlinear_arith)
            requires
                0 <= p < q,
                BILLION > 0,
        ;
    }
}

/// A fraction whose denominator divides a billion is exact in billionths.
proof fn lemma_exact_fraction(a: int, m: int, d: int)
    requires
        a >= 0,
        d > 0,
        m * d == BILLION,
    ensures
        arithmetic::nearest(a * BILLION, d) == a * m,
{
    assert((a * BILLION) / d == a * m && (a * BILLION) % d == 0) by {
        assert(a * BILLION == d * (a * m)) by (nonlinear_arith)
            requires
                m * d == BILLION,
        ;
        vstd::arithmetic::div_mod::lemma_fundamental_div_mod_converse(a * BILLION, d, a * m, 0);
    }
}

/// The inverse of a number that is one or more is one or less.
pub proof fn lemma_inverse_bounds(sum: int)
    requires
        sum >= BILLION,
    ensures
        0 <= (BILLION * BILLION) / sum <= BILLION,
{
    assert(0 <= (BILLION * BILLION) / sum <= BILLION) by (nonlinear_arith)
        requires
            sum >= BILLION,
            BILLION > 0,
    ;
}

/// `x`, or the last timeslice where `x` is later than that.
pub open spec fn as_timeslice(x: int) -> Timeslice {
    if x > u32::MAX {
        u32::MAX
    } else {
        x as u32
    }
}

/// `x`, or the last timeslice where `x` is later than that.
fn saturated_timeslice(x: u64) -> (r: Timeslice)
    ensures
        r == as_timeslice(x as int),
{
    if x > 0xffff_ffff {
        0xffff_ffff
    } else {
        x as u32
    }
}

/// The timeslice to which block `now` belongs.
pub fn current_timeslice(now: BlockNumber, timeslice_period: BlockNumber) -> (r: Timeslice)
    requires
        timeslice_period > 0,
    ensures
        r == as_timeslice(now as int / timeslice_period as int),
{
    saturated_timeslice(now / timeslice_period)
}

/// The last timeslice whose schedule has to be fixed by block `now`.
pub open spec fn ready_timeslice(
    now: BlockNumber,
    advance_notice: BlockNumber,
    timeslice_period: BlockNumber,
) -> Timeslice {
    as_timeslice(arithmetic::saturate(now + advance_notice) / timeslice_period as int)
}

/// The last timeslice whose schedule has to be fixed by block `now`.
pub fn latest_timeslice_ready_to_commit(
    now: BlockNumber,
    advance_notice: BlockNumber,
    timeslice_period: BlockNumber,
) -> (r: Timeslice)
    requires
        timeslice_period > 0,
    ensures
        r == ready_timeslice(now, advance_notice, timeslice_period),
{
    let advanced: BlockNumber = now.saturating_add(advance_notice);
    saturated_timeslice(advanced / timeslice_period)
}

/// The number of cores on offer: those that are not reserved, up to the limit if there is one.
pub open spec fn offered(core_count: CoreIndex, reserved: CoreIndex, limit: Option<CoreIndex>) -> int {
    let free = arithmetic::monus(core_count as int, reserved as int);
    match limit {
        Some(l) => arithmetic::smaller(l as int, free),
        None => free,
    }
}

/// The number of cores on offer: those that are not reserved, up to the limit if there is one.
pub fn cores_on_offer(core_count: CoreIndex, reserved: CoreIndex, limit: Option<CoreIndex>) -> (r:
    CoreIndex)
    ensures
        r == offered(core_count, reserved, limit),
{
    let max_possible_sales: CoreIndex = core_count.saturating_sub(reserved);
    let limit_cores_offered: CoreIndex = match limit {
        Some(l) => l,
        None => 0xffff,
    };
    if limit_cores_offered <= max_possible_sales {
        limit_cores_offered
    } else {
        max_possible_sales
    }
}

/// The part `proportion` of a number of cores.
pub fn part_of_cores(proportion: Perbill, cores: CoreIndex) -> (r: CoreIndex)
    ensures
        r == arithmetic::part_of(proportion, cores as int),
        r <= cores,
{
    proof {
        arithmetic::lemma_part_of_bound(proportion, cores as int);
    }
    proportion.of(cores as u64) as u16
}

/// The prices that the sale after `old_sale` starts from.
pub open spec fn next_prices(old_sale: SaleInfoRecordOf, config: ConfigRecordOf) -> AdaptedPrices<
    Balance,
> {
    let reserve = next_reserve_price(old_sale, config) as u64;
    AdaptedPrices {
        reserve_price: reserve,
        target_price: match old_sale.clearing_price {
            Some(p) => p,
            None => reserve,
        },
    }
}

/// The price at which the auction over a reserve price opens.
pub open spec fn opening_price(reserve: Balance, config: ConfigRecordOf) -> int {
    arithmetic::larger(
        arithmetic::saturate(reserve * config.price_multiplier),
        config.min_opening_price as int,
    )
}

/// The sale after `old_sale`.
pub open spec fn next_sale(
    old_sale: SaleInfoRecordOf,
    config: ConfigRecordOf,
    core_count: CoreIndex,
    reserved_cores: CoreIndex,
    now: BlockNumber,
) -> SaleInfoRecordOf {
    let reserve = next_prices(old_sale, config).reserve_price;
    let cores_offered = offered(core_count, reserved_cores, config.limit_cores_offered);
    SaleInfoRecordOf {
        sale_start: now,
        opening_price: opening_price(reserve, config) as u64,
        reserve_price: reserve,
        clearing_price: None,
        region_begin: old_sale.region_end,
        region_end: (old_sale.region_end + config.region_length) as u32,
        first_core: reserved_cores,
        ideal_cores_sold: arithmetic::part_of(config.ideal_bulk_proportion, cores_offered) as u16,
        cores_offered: cores_offered as u16,
        cores_sold: 0,
    }
}

/// The sale after `old_sale`, and the prices that it starts from.
pub fn rotate_sale(
    old_sale: &SaleInfoRecordOf,
    config: &ConfigRecordOf,
    core_count: CoreIndex,
    reserved_cores: CoreIndex,
    now: BlockNumber,
) -> (r: (AdaptedPrices<Balance>, SaleInfoRecordOf))
    requires
        old_sale.region_end + config.region_length <= u32::MAX,
    ensures
        r.0 == next_prices(*old_sale, *config),
        r.1 == next_sale(*old_sale, *config, core_count, reserved_cores, now),
{
    let new_reserve: Balance = adjust_reserve_price(old_sale, config);
    let new_prices = AdaptedPrices {
        reserve_price: new_reserve,
        target_price: match old_sale.clearing_price {
            Some(p) => p,
            None => new_reserve,
        },
    };
    let cores_offered: CoreIndex = cores_on_offer(
        core_count,
        reserved_cores,
        config.limit_cores_offered,
    );
    let ideal_cores_sold: CoreIndex = part_of_cores(config.ideal_bulk_proportion, cores_offered);
    let region_begin: Timeslice = old_sale.region_end;
    let region_end: Timeslice = region_begin + config.region_length;
    let multiplied: Balance = saturating_product(new_reserve, config.price_multiplier as u64);
    let opening_price: Balance = if multiplied >= config.min_opening_price {
        multiplied
    } else {
        config.min_opening_price
    };
    let new_sale = SaleInfoRecordOf {
        sale_start: now,
        opening_price,
        reserve_price: new_reserve,
        clearing_price: None,
        region_begin,
        region_end,
        first_core: reserved_cores,
        ideal_cores_sold,
        cores_offered,
        cores_sold: 0,
    };
    (new_prices, new_sale)
}

/// The imaginary sale that precedes the first.
pub open spec fn bootstrap_sale(
    block_number: BlockNumber,
    reserve_price: Balance,
    advance_notice: BlockNumber,
    region_length: Timeslice,
    timeslice_period: BlockNumber,
) -> SaleInfoRecordOf {
    let commit = ready_timeslice(block_number, advance_notice, timeslice_period);
    SaleInfoRecordOf {
        sale_start: block_number,
        opening_price: reserve_price,
        reserve_price,
        clearing_price: None,
        region_begin: commit,
        region_end: as_timeslice(commit + region_length),
        first_core: 0,
        ideal_cores_sold: 0,
        cores_offered: 0,
        cores_sold: 0,
    }
}

/// The imaginary sale that precedes the first.
pub fn sale_before_first(
    block_number: BlockNumber,
    reserve_price: Balance,
    advance_notice: BlockNumber,
    region_length: Timeslice,
    timeslice_period: BlockNumber,
) -> (r: SaleInfoRecordOf)
    requires
        timeslice_period > 0,
    ensures
        r == bootstrap_sale(
            block_number,
            reserve_price,
            advance_notice,
            region_length,
            timeslice_period,
        ),
{
    let commit_timeslice: Timeslice = latest_timeslice_ready_to_commit(
        block_number,
        advance_notice,
        timeslice_period,
    );
    SaleInfoRecordOf {
        sale_start: block_number,
        opening_price: reserve_price,
        reserve_price,
        clearing_price: None,
        region_begin: commit_timeslice,
        region_end: commit_timeslice.saturating_add(region_length),
        first_core: 0,
        ideal_cores_sold: 0,
        cores_offered: 0,
        cores_sold: 0,
    }
}

/// The status of the system when sales start.
pub open spec fn initial_status(
    block_number: BlockNumber,
    core_count: CoreIndex,
    advance_notice: BlockNumber,
    timeslice_period: BlockNumber,
) -> StatusRecord {
    StatusRecord {
        core_count,
        private_pool_size: 0,
        system_pool_size: 0,
        last_committed_timeslice: arithmetic::monus(
            ready_timeslice(block_number, advance_notice, timeslice_period) as int,
            1,
        ) as u32,
        last_timeslice: as_timeslice(block_number as int / timeslice_period as int),
    }
}

/// The status of the system when sales start.
pub fn status_at_start(
    block_number: BlockNumber,
    core_count: CoreIndex,
    advance_notice: BlockNumber,
    timeslice_period: BlockNumber,
) -> (r: StatusRecord)
    requires
        timeslice_period > 0,
    ensures
        r == initial_status(block_number, core_count, advance_notice, timeslice_period),
{
    let commit_timeslice: Timeslice = latest_timeslice_ready_to_commit(
        block_number,
        advance_notice,
        timeslice_period,
    );
    StatusRecord {
        core_count,
        private_pool_size: 0,
        system_pool_size: 0,
        last_committed_timeslice: commit_timeslice.saturating_sub(1),
        last_timeslice: current_timeslice(block_number, timeslice_period),
    }
}

/// The product of two amounts, capped.
pub fn saturating_product(x: Balance, y: Balance) -> (r: Balance)
    ensures
        r == arithmetic::saturate(x * y),
{
    assert(0 <= x * y <= u64::MAX * u64::MAX) by (nonlinear_arith)
        requires
            0 <= x <= u64::MAX,
            0 <= y <= u64::MAX,
    ;
    let product: u128 = x as u128 * y as u128;
    if product > 0xffff_ffff_ffff_ffff {
        0xffff_ffff_ffff_ffff
    } else {
        product as u64
    }
}

} // verus!

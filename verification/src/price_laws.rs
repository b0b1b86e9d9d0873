//! What holds of the reserve price from sale to sale.

use crate::arithmetic;
use crate::arithmetic::BILLION;
use crate::price;
use crate::primitives::CoreIndex;
use crate::records::{BlockNumber, ConfigRecordOf, SaleInfoRecordOf};
use vstd::prelude::*;

verus! {

/// The exponent is not negative.
proof fn lemma_exponent_bounds(rate: int, config: ConfigRecordOf)
    ensures
        0 <= price::exponent(rate, config) <= u64::MAX,
{
    let target = config.target_consumption_rate.value();
    let deviation = if rate >= target {
        rate - target
    } else {
        target - rate
    };
    let k = config.sensitivity_millis * 1_000_000;
    assert(0 <= k * deviation) by (nonlinear_arith)
        requires
            0 <= k,
            0 <= deviation,
    ;
}

/// The factor is not negative; at or above the target it is one or more, below it one or less.
proof fn lemma_factor_bounds(rate: int, config: ConfigRecordOf)
    ensures
        0 <= price::price_factor(rate, config),
        rate >= config.target_consumption_rate.value() ==> price::price_factor(rate, config)
            >= BILLION,
        rate < config.target_consumption_rate.value() ==> price::price_factor(rate, config)
            <= BILLION,
{
    lemma_exponent_bounds(rate, config);
    let x = price::exponent(rate, config);
    price::lemma_exp_bounds(x, price::EXP_TERMS as nat);
    price::lemma_inverse_bounds(price::exp_sum(x, price::EXP_TERMS as nat));
}

/// The reserve price does not fall below its floor, unless no core was offered.
pub proof fn law_reserve_price_has_a_floor(old_sale: SaleInfoRecordOf, config: ConfigRecordOf)
    requires
        old_sale.cores_offered > 0,
    ensures
        price::next_reserve_price(old_sale, config) >= config.min_reserve_price,
{
    let candidate = price::price_candidate(
        old_sale.reserve_price as int,
        price::consumption(old_sale),
        config,
    );
    assert(candidate >= config.min_reserve_price);
}

/// After a sale of all cores the reserve price rises by the least increment or more, up to the
/// largest amount.
pub proof fn law_full_consumption_raises_the_reserve_price(
    old_sale: SaleInfoRecordOf,
    config: ConfigRecordOf,
)
    requires
        old_sale.cores_offered > 0,
        old_sale.cores_sold >= old_sale.cores_offered,
    ensures
        price::next_reserve_price(old_sale, config) >= arithmetic::saturate(
            old_sale.reserve_price + config.min_increment,
        ),
{
    price::lemma_rate_bounds(old_sale.cores_sold as int, old_sale.cores_offered as int);
    lemma_factor_bounds(price::consumption(old_sale), config);
    let factor = price::price_factor(price::consumption(old_sale), config);
    let reserve = old_sale.reserve_price as int;
    assert((factor * reserve) / BILLION as int >= reserve) by (nonlinear_arith)
        requires
            factor >= BILLION,
            reserve >= 0,
            BILLION == 1_000_000_000,
    ;
}

/// Where consumption is at the target, the reserve price stays as it is,
/// unless the floor or a sale of all cores raises it.
pub proof fn law_target_consumption_keeps_the_reserve_price(
    old_sale: SaleInfoRecordOf,
    config: ConfigRecordOf,
)
    requires
        old_sale.cores_offered > 0,
        old_sale.cores_sold < old_sale.cores_offered,
        price::consumption(old_sale) == config.target_consumption_rate.value(),
    ensures
        price::next_reserve_price(old_sale, config) == arithmetic::larger(
            old_sale.reserve_price as int,
            config.min_reserve_price as int,
        ),
{
    price::lemma_rate_bounds(old_sale.cores_sold as int, old_sale.cores_offered as int);
    let rate = price::consumption(old_sale);
    let k = config.sensitivity_millis * 1_000_000;
    assert(k * 0 == 0) by (nonlinear_arith);
    assert(price::exponent(rate, config) == 0);
    lemma_exp_of_zero(price::EXP_TERMS as nat);
    let reserve = old_sale.reserve_price as int;
    assert((BILLION * reserve) / BILLION as int == reserve) by (nonlinear_arith)
        requires
            BILLION == 1_000_000_000,
    ;
}

/// `exp(0)` is one.
proof fn lemma_exp_of_zero(n: nat)
    ensures
        price::exp_sum(0, n) == BILLION,
        n > 0 ==> price::exp_term(0, n) == 0,
    decreases n,
{
    if n > 0 {
        lemma_exp_of_zero((n - 1) as nat);
        let t = price::exp_term(0, (n - 1) as nat);
        assert(t * 0 == 0) by (nonlinear_arith);
        assert(0int / n as int == 0) by (nonlinear_arith)
            requires
                n > 0,
        ;
    }
}

/// The terms and the sums of the exponential series grow with the exponent.
proof fn lemma_exp_monotone(x: int, y: int, n: nat)
    requires
        0 <= x <= y,
    ensures
        price::exp_term(x, n) <= price::exp_term(y, n),
        price::exp_sum(x, n) <= price::exp_sum(y, n),
    decreases n,
{
    if n > 0 {
        let m = (n - 1) as nat;
        lemma_exp_monotone(x, y, m);
        price::lemma_exp_bounds(x, m);
        price::lemma_exp_bounds(y, m);
        let s = price::exp_term(x, m);
        let t = price::exp_term(y, m);
        assert(0 <= s * x <= t * y) by (nonlinear_arith)
            requires
                0 <= s <= t,
                0 <= x <= y,
        ;
        let a = arithmetic::saturate((s * x) / BILLION as int);
        let b = arithmetic::saturate((t * y) / BILLION as int);
        assert(a / n as int <= b / n as int) by (nonlinear_arith)
            requires
                0 <= a <= b,
                n > 0,
        ;
    }
}

/// The exponent grows with the distance from the target.
proof fn lemma_exponent_monotone(k: int, c: int, d: int)
    requires
        0 <= k,
        0 <= c <= d,
    ensures
        arithmetic::saturate((k * c) / BILLION as int) <= arithmetic::saturate(
            (k * d) / BILLION as int,
        ),
{
    assert(0 <= k * c <= k * d) by (nonlinear_arith)
        requires
            0 <= k,
            0 <= c <= d,
    ;
}

/// The factor grows with the rate of consumption.
proof fn lemma_factor_monotone(r: int, s: int, config: ConfigRecordOf)
    requires
        r <= s,
    ensures
        price::price_factor(r, config) <= price::price_factor(s, config),
{
    let target = config.target_consumption_rate.value();
    let k = config.sensitivity_millis * 1_000_000;
    let n = price::EXP_TERMS as nat;
    lemma_exponent_bounds(r, config);
    lemma_exponent_bounds(s, config);
    lemma_factor_bounds(r, config);
    lemma_factor_bounds(s, config);
    let x = price::exponent(r, config);
    let y = price::exponent(s, config);
    if r >= target {
        lemma_exponent_monotone(k, r - target, s - target);
        lemma_exp_monotone(x, y, n);
    } else if s < target {
        lemma_exponent_monotone(k, target - s, target - r);
        lemma_exp_monotone(y, x, n);
        price::lemma_exp_bounds(y, n);
        let a = price::exp_sum(x, n);
        let b = price::exp_sum(y, n);
        assert((BILLION * BILLION) / a <= (BILLION * BILLION) / b) by (nonlinear_arith)
            requires
                0 < b <= a,
        ;
    }
}

/// The reserve price follows consumption: of two sales that differ in the
/// number of cores sold alone, the one that sold more is followed by a reserve
/// price that is no lower.
pub proof fn law_reserve_price_follows_consumption(
    less: SaleInfoRecordOf,
    more: SaleInfoRecordOf,
    config: ConfigRecordOf,
)
    requires
        less.cores_offered == more.cores_offered,
        less.reserve_price == more.reserve_price,
        less.cores_sold <= more.cores_sold,
    ensures
        price::next_reserve_price(less, config) <= price::next_reserve_price(more, config),
{
    if less.cores_offered > 0 {
        let q = less.cores_offered as int;
        price::lemma_rate_bounds(less.cores_sold as int, q);
        price::lemma_rate_bounds(more.cores_sold as int, q);
        let a = less.cores_sold as int;
        let b = more.cores_sold as int;
        assert((a * BILLION) / q <= (b * BILLION) / q) by (nonlinear_arith)
            requires
                0 <= a <= b,
                q > 0,
        ;
        let r = price::consumption(less);
        let s = price::consumption(more);
        assert(r <= s);
        lemma_factor_monotone(r, s, config);
        lemma_factor_bounds(r, config);
        let f = price::price_factor(r, config);
        let g = price::price_factor(s, config);
        let reserve = less.reserve_price as int;
        assert(0 <= f * reserve <= g * reserve) by (nonlinear_arith)
            requires
                0 <= f <= g,
                0 <= reserve,
        ;
    }
}

/// Where consumption is above the target the reserve price does not fall, and
/// where it is below, it does not rise above itself or the floor.
pub proof fn law_reserve_price_moves_with_the_target(
    old_sale: SaleInfoRecordOf,
    config: ConfigRecordOf,
)
    requires
        old_sale.cores_offered > 0,
    ensures
        price::consumption(old_sale) >= config.target_consumption_rate.value()
            ==> price::next_reserve_price(old_sale, config) >= old_sale.reserve_price,
        price::consumption(old_sale) < config.target_consumption_rate.value()
            ==> price::next_reserve_price(old_sale, config) <= arithmetic::larger(
            old_sale.reserve_price as int,
            config.min_reserve_price as int,
        ),
{
    price::lemma_rate_bounds(old_sale.cores_sold as int, old_sale.cores_offered as int);
    let rate = price::consumption(old_sale);
    lemma_factor_bounds(rate, config);
    let factor = price::price_factor(rate, config);
    let reserve = old_sale.reserve_price as int;
    if rate >= config.target_consumption_rate.value() {
        assert((factor * reserve) / BILLION as int >= reserve) by (nonlinear_arith)
            requires
                factor >= BILLION,
                reserve >= 0,
                BILLION == 1_000_000_000,
        ;
    } else {
        assert((factor * reserve) / BILLION as int <= reserve) by (nonlinear_arith)
            requires
                0 <= factor <= BILLION,
                reserve >= 0,
                BILLION == 1_000_000_000,
        ;
    }
}

/// Counting more cores as sold than are offered is counting all of them: the
/// next reserve price is that after a sale of all cores.
pub proof fn law_consumption_is_capped(
    old_sale: SaleInfoRecordOf,
    cores_sold: u16,
    config: ConfigRecordOf,
)
    requires
        old_sale.cores_sold == old_sale.cores_offered,
        cores_sold >= old_sale.cores_offered,
    ensures
        price::next_reserve_price((SaleInfoRecordOf { cores_sold, ..old_sale }), config)
            == price::next_reserve_price(old_sale, config),
{
}

// The exponential.

/// `x` to the power of `n`.
pub open spec fn power(x: int, n: nat) -> int
    decreases n,
{
    if n == 0 {
        1
    } else {
        power(x, (n - 1) as nat) * x
    }
}

/// `n! * BILLION^n`, the denominator of [`series`].
pub open spec fn scale(n: nat) -> int
    decreases n,
{
    if n == 0 {
        1
    } else {
        scale((n - 1) as nat) * (n * 1_000_000_000)
    }
}

/// The sum of `u^k / k!` for `k` from zero to `n`, where `u` is `x` billionths,
/// as a multiple of `1 / scale(n)`. Nothing is rounded.
pub open spec fn series(x: int, n: nat) -> int
    decreases n,
{
    if n == 0 {
        1
    } else {
        series(x, (n - 1) as nat) * (n * 1_000_000_000) + power(x, n)
    }
}

/// The series begins with one, and what follows is not negative.
proof fn lemma_series_bounds(x: int, n: nat)
    requires
        x >= 0,
    ensures
        scale(n) > 0,
        power(x, n) >= 0,
        series(x, n) >= scale(n),
        power(x, n) <= series(x, n),
    decreases n,
{
    if n > 0 {
        let m = (n - 1) as nat;
        lemma_series_bounds(x, m);
        let a = scale(m);
        let b = series(x, m);
        let p = power(x, m);
        let d = n * 1_000_000_000;
        assert(a * d > 0 && b * d >= a * d && p * x >= 0) by (nonlinear_arith)
            requires
                a > 0,
                b >= a,
                p >= 0,
                x >= 0,
                d > 0,
        ;
    }
}

/// The computed terms are no larger than the exact ones.
proof fn lemma_terms_from_above(x: int, n: nat)
    requires
        x >= 0,
    ensures
        price::exp_term(x, n) * scale(n) <= BILLION * power(x, n),
    decreases n,
{
    if n > 0 {
        let m = (n - 1) as nat;
        lemma_terms_from_above(x, m);
        lemma_series_bounds(x, m);
        price::lemma_exp_bounds(x, m);
        let t = price::exp_term(x, m);
        let k = n as int;
        let b = BILLION as int;
        assert(0 <= t * x) by (nonlinear_arith)
            requires
                0 <= t,
                0 <= x,
        ;
        let q = (t * x) / b;
        let s = arithmetic::saturate(q);
        let r = s / k;
        assert(r * k <= s) by (nonlinear_arith)
            requires
                r == s / k,
                k > 0,
        ;
        assert(q * b <= t * x);
        assert(r * (k * b) <= t * x) by (nonlinear_arith)
            requires
                r * k <= s,
                s <= q,
                q * b <= t * x,
                b > 0,
        ;
        let a = scale(m);
        let p = power(x, m);
        assert(r * (a * (k * b)) <= b * (p * x)) by (nonlinear_arith)
            requires
                r * (k * b) <= t * x,
                t * a <= b * p,
                a > 0,
                x >= 0,
        ;
    }
}

/// The computed sum is no larger than the exact one.
proof fn lemma_sum_from_above(x: int, n: nat)
    requires
        x >= 0,
    ensures
        price::exp_sum(x, n) * scale(n) <= BILLION * series(x, n),
    decreases n,
{
    if n > 0 {
        let m = (n - 1) as nat;
        lemma_sum_from_above(x, m);
        lemma_terms_from_above(x, n);
        lemma_series_bounds(x, m);
        lemma_series_bounds(x, n);
        let u = price::exp_sum(x, m);
        let t = price::exp_term(x, n);
        let v = price::exp_sum(x, n);
        let a = scale(m);
        let d = n * 1_000_000_000;
        let b = BILLION as int;
        let y = series(x, m);
        let p = power(x, n);
        assert(v * (a * d) <= b * (y * d + p)) by (nonlinear_arith)
            requires
                v <= u + t,
                u * a <= b * y,
                t * (a * d) <= b * p,
                a > 0,
                d > 0,
        ;
    }
}

/// The exact sum of fewer terms is no larger than that of more.
proof fn lemma_series_grows(x: int, k: nat, n: nat)
    requires
        x >= 0,
        k <= n,
    ensures
        series(x, k) * scale(n) <= series(x, n) * scale(k),
    decreases n,
{
    if k < n {
        let m = (n - 1) as nat;
        lemma_series_grows(x, k, m);
        lemma_series_bounds(x, m);
        lemma_series_bounds(x, n);
        lemma_series_bounds(x, k);
        let d = n * 1_000_000_000;
        let a = series(x, k);
        let b = scale(m);
        let c = series(x, m);
        let e = scale(k);
        let p = power(x, n);
        assert(a * (b * d) <= (c * d + p) * e) by (nonlinear_arith)
            requires
                a * b <= c * e,
                d > 0,
                p >= 0,
                e > 0,
        ;
    }
}

/// Multiplying the exact sum by the exponent gives no more than the next sum
/// has behind its first term, counted `n` times.
proof fn lemma_series_times_exponent(x: int, n: nat)
    requires
        x >= 0,
        n > 0,
    ensures
        x * series(x, (n - 1) as nat) <= series(x, n) - scale(n),
    decreases n,
{
    let m = (n - 1) as nat;
    reveal_with_fuel(power, 2);
    reveal_with_fuel(series, 2);
    reveal_with_fuel(scale, 2);
    if m > 0 {
        lemma_series_times_exponent(x, m);
        lemma_series_bounds(x, m);
        let k = (m - 1) as nat;
        let y = series(x, k);
        let z = series(x, m);
        let a = scale(m);
        let d = m * 1_000_000_000;
        let p = power(x, m);
        assert(x * z <= z * (d + 1_000_000_000) + p * x - a * (d + 1_000_000_000))
            by (nonlinear_arith)
            requires
                z == y * d + p,
                x * y <= z - a,
                z >= a,
                a > 0,
                d >= 0,
                x >= 0,
        ;
        assert(n * 1_000_000_000 == d + 1_000_000_000);
    }
}

/// What is lost by rounding in a term is no more than the exact sum before it.
proof fn lemma_terms_from_below(x: int, n: nat, last: nat)
    requires
        x >= 0,
        n <= last,
        x * series(x, last) <= u64::MAX * scale(last),
    ensures
        BILLION * power(x, n) - price::exp_term(x, n) * scale(n) <= (if n == 0 {
            0
        } else {
            n * 1_000_000_000 * series(x, (n - 1) as nat)
        }),
    decreases n,
{
    if n > 0 {
        let m = (n - 1) as nat;
        lemma_terms_from_below(x, m, last);
        lemma_terms_from_above(x, m);
        lemma_series_bounds(x, m);
        lemma_series_bounds(x, last);
        lemma_series_grows(x, m, last);
        price::lemma_exp_bounds(x, m);
        let t = price::exp_term(x, m);
        let k = n as int;
        let b = BILLION as int;
        let a = scale(m);
        let p = power(x, m);
        let y = series(x, m);
        let big = u64::MAX as int;
        let sl = scale(last);
        let yl = series(x, last);
        assert(0 <= t * x) by (nonlinear_arith)
            requires
                0 <= t,
                0 <= x,
        ;
        assert(x * y <= big * a) by (nonlinear_arith)
            requires
                x * yl <= big * sl,
                y * sl <= yl * a,
                sl > 0,
                a > 0,
                x >= 0,
        ;
        assert(t * x <= big * b) by (nonlinear_arith)
            requires
                t * a <= b * p,
                p <= y,
                x * y <= big * a,
                a > 0,
                b > 0,
                x >= 0,
        ;
        let q = (t * x) / b;
        assert(q <= big);
        let r = q / k;
        assert(r * k > q - k) by (nonlinear_arith)
            requires
                r == q / k,
                k > 0,
        ;
        assert(q * b > t * x - b);
        assert(r * (k * b) >= t * x - k * b) by (nonlinear_arith)
            requires
                r * k >= q - k + 1,
                q * b > t * x - b,
                b > 0,
        ;
        let w = k * b;
        assert(a * (r * w) >= a * (t * x - w)) by (nonlinear_arith)
            requires
                r * w >= t * x - w,
                a > 0,
        ;
        assert(a * (t * x - w) == x * (t * a) - a * w) by (nonlinear_arith);
        assert(r * (a * w) == a * (r * w)) by (nonlinear_arith);
        assert(x * (b * p - t * a) == b * (p * x) - x * (t * a)) by (nonlinear_arith);
        if m > 0 {
            let j = (m - 1) as nat;
            lemma_series_times_exponent(x, m);
            lemma_series_bounds(x, j);
            let z = series(x, j);
            assert(x * (b * p - t * a) <= m * b * (x * z)) by (nonlinear_arith)
                requires
                    b * p - t * a <= m * b * z,
                    x >= 0,
            ;
            assert(m * b * (x * z) + a * (k * b) <= k * b * y) by (nonlinear_arith)
                requires
                    x * z <= y - a,
                    k == m + 1,
                    y >= a,
                    b > 0,
                    m >= 0,
            ;
        } else {
            assert(x * (b * p - t * a) <= 0) by (nonlinear_arith)
                requires
                    b * p - t * a <= 0,
                    x >= 0,
            ;
            assert(a == 1 && y == 1 && k == 1);
        }
    }
}

/// What is lost by rounding in the sum is no more than one billionth of the
/// exact sum for each term.
proof fn lemma_sum_from_below(x: int, n: nat, last: nat)
    requires
        x >= 0,
        n <= last,
        x * series(x, last) <= u64::MAX * scale(last),
        BILLION * series(x, last) <= u64::MAX * scale(last),
    ensures
        BILLION * series(x, n) - price::exp_sum(x, n) * scale(n) <= n * series(x, n),
    decreases n,
{
    if n > 0 {
        let m = (n - 1) as nat;
        lemma_sum_from_below(x, m, last);
        lemma_terms_from_below(x, n, last);
        lemma_terms_from_above(x, n);
        lemma_sum_from_above(x, m);
        lemma_series_bounds(x, m);
        lemma_series_bounds(x, n);
        lemma_series_bounds(x, last);
        lemma_series_grows(x, n, last);
        let u = price::exp_sum(x, m);
        let t = price::exp_term(x, n);
        let b = BILLION as int;
        let k = n as int;
        let d = k * 1_000_000_000;
        let a = scale(m);
        let y = series(x, m);
        let p = power(x, n);
        let an = scale(n);
        let yn = series(x, n);
        let big = u64::MAX as int;
        let sl = scale(last);
        let yl = series(x, last);
        assert(b * yn <= big * an) by (nonlinear_arith)
            requires
                b * yl <= big * sl,
                yn * sl <= yl * an,
                sl > 0,
                an > 0,
                b > 0,
        ;
        assert((u + t) * an <= b * yn) by (nonlinear_arith)
            requires
                an == a * d,
                yn == y * d + p,
                u * a <= b * y,
                t * an <= b * p,
                a > 0,
                d > 0,
        ;
        assert(u + t <= big) by (nonlinear_arith)
            requires
                (u + t) * an <= b * yn,
                b * yn <= big * an,
                an > 0,
        ;
        let g = b * y - u * a;
        assert(b * (y * d + p) == d * (b * y) + b * p) by (nonlinear_arith);
        assert((u + t) * an == u * an + t * an) by (nonlinear_arith);
        assert(u * (a * d) == d * (u * a)) by (nonlinear_arith);
        assert(d * (b * y - u * a) == d * (b * y) - d * (u * a)) by (nonlinear_arith);
        assert(d * g + d * y <= d * (k * y)) by (nonlinear_arith)
            requires
                g <= (k - 1) * y,
                d > 0,
        ;
        assert(d * (k * y) <= k * yn) by (nonlinear_arith)
            requires
                yn == y * d + p,
                p >= 0,
                k > 0,
        ;
    }
}

/// From the thirtieth term on, what is left out of the series comes to no more
/// than the last term that is counted, for exponents up to fifteen: each term
/// that follows is at most half of the one before it.
pub proof fn law_the_series_has_a_small_rest(x: int, n: nat)
    requires
        0 <= x <= 15_000_000_000,
        n >= 29,
    ensures
        series(x, n) * scale(29) <= scale(n) * (series(x, 29) + power(x, 29)),
        series(x, 29) * scale(n) <= series(x, n) * scale(29),
{
    lemma_series_grows(x, 29, n);
    lemma_rest_of_the_series(x, n);
    lemma_series_bounds(x, n);
    lemma_series_bounds(x, 29);
    let y = series(x, n);
    let p = power(x, n);
    let a = scale(29);
    assert(y * a <= (y + p) * a) by (nonlinear_arith)
        requires
            p >= 0,
            a > 0,
    ;
}

/// The exact sum with its last term counted twice does not grow from the
/// thirtieth term on.
proof fn lemma_rest_of_the_series(x: int, n: nat)
    requires
        0 <= x <= 15_000_000_000,
        n >= 29,
    ensures
        (series(x, n) + power(x, n)) * scale(29) <= scale(n) * (series(x, 29) + power(x, 29)),
    decreases n,
{
    if n == 29 {
        let y = series(x, n) + power(x, n);
        let a = scale(n);
        assert(y * a <= a * y) by (nonlinear_arith);
    } else {
        let m = (n - 1) as nat;
        lemma_rest_of_the_series(x, m);
        lemma_series_bounds(x, m);
        lemma_series_bounds(x, 29);
        let y = series(x, m);
        let p = power(x, m);
        let d = n * 1_000_000_000;
        let a = scale(29);
        let b = scale(m);
        let z = series(x, 29) + power(x, 29);
        assert(y * d + p * x + p * x <= (y + p) * d) by (nonlinear_arith)
            requires
                2 * x <= d,
                p >= 0,
        ;
        let w = series(x, n) + power(x, n);
        assert(w * a <= (b * d) * z) by (nonlinear_arith)
            requires
                w <= (y + p) * d,
                (y + p) * a <= b * z,
                a > 0,
                d > 0,
        ;
    }
}

/// The exponent in billionths, from the sensitivity in thousandths.
proof fn lemma_exponent_is_exact(rate: int, config: ConfigRecordOf, d: int)
    requires
        0 <= rate <= 1_000_000_000,
        ({
            let target = config.target_consumption_rate.value();
            d == if rate >= target {
                rate - target
            } else {
                target - rate
            }
        }),
    ensures
        price::exponent(rate, config) == (config.sensitivity_millis * d) / 1000,
        0 <= config.sensitivity_millis * d,
{
    let k = config.sensitivity_millis as int;
    assert(0 <= k * d <= 0xffff_ffff * 1_000_000_000) by (nonlinear_arith)
        requires
            0 <= k <= 0xffff_ffff,
            0 <= d <= 1_000_000_000,
    ;
    assert(k * 1_000_000 * d == 1_000_000 * (k * d)) by (nonlinear_arith);
    let m = k * d;
    assert((1_000_000 * m) / 1_000_000_000 == m / 1000);
}

/// The reserve price of the next sale is that of the old one times
/// `exp(K * (rate - target))`, where `K` is the sensitivity, to within twenty-nine
/// billionths of the factor and one unit of the price.
///
/// It is no lower than the least reserve price, and after a sale of all cores it
/// may be raised to the least increment above the old one. Where the factor or
/// the price does not fit, they are capped.
pub proof fn law_reserve_price_follows_the_exponential(
    old_sale: SaleInfoRecordOf,
    config: ConfigRecordOf,
)
    requires
        old_sale.cores_offered > 0,
    ensures
        ({
            let sold = old_sale.cores_sold as int;
            let offered = old_sale.cores_offered as int;
            let rate = if sold >= offered {
                1_000_000_000
            } else {
                (sold * 1_000_000_000) / offered
            };
            let parts = config.target_consumption_rate.parts as int;
            let target = if parts > 1_000_000_000 {
                1_000_000_000
            } else {
                parts
            };
            let distance = if rate >= target {
                rate - target
            } else {
                target - rate
            };
            let x = (config.sensitivity_millis * distance) / 1000;
            let exp = series(x, 29);
            let one = scale(29);
            let fits = x * exp <= u64::MAX * one && 1_000_000_000 * exp <= u64::MAX * one;
            let reserve = old_sale.reserve_price as int;
            let next = price::next_reserve_price(old_sale, config);
            &&& rate >= target ==> {
                ||| next == config.min_reserve_price
                ||| sold >= offered && next == (if reserve + config.min_increment > u64::MAX {
                    u64::MAX as int
                } else {
                    reserve + config.min_increment
                })
                ||| next * one <= reserve * exp
            }
            &&& rate >= target && fits ==> {
                ||| next == u64::MAX
                ||| (next + 1) * (1_000_000_000 * one) > reserve * (999_999_971 * exp)
            }
            &&& rate < target ==> ((next + 1) * 1_000_000_000 + reserve) * exp > reserve * (
            1_000_000_000 * one)
            &&& rate < target && fits ==> {
                ||| next == config.min_reserve_price
                ||| next * (999_999_971 * exp) <= reserve * (1_000_000_000 * one)
            }
        }),
{
    let sold = old_sale.cores_sold as int;
    let offered = old_sale.cores_offered as int;
    price::lemma_rate_bounds(sold, offered);
    let rate = price::consumption(old_sale);
    let target = config.target_consumption_rate.value();
    let distance = if rate >= target {
        rate - target
    } else {
        target - rate
    };
    lemma_exponent_is_exact(rate, config, distance);
    let x = (config.sensitivity_millis * distance) / 1000;
    let exp = series(x, 29);
    let one = scale(29);
    let b = 1_000_000_000int;
    let fits = x * exp <= u64::MAX * one && b * exp <= u64::MAX * one;
    let reserve = old_sale.reserve_price as int;
    let next = price::next_reserve_price(old_sale, config);
    let sum = price::exp_sum(x, 29);
    let factor = price::price_factor(rate, config);
    lemma_series_bounds(x, 29);
    price::lemma_exp_bounds(x, 29);
    lemma_sum_from_above(x, 29);
    if fits {
        lemma_sum_from_below(x, 29, 29);
        assert(999_999_971 * exp <= sum * one);
    }
    lemma_factor_bounds(rate, config);
    assert(0 <= factor * reserve) by (nonlinear_arith)
        requires
            factor >= 0,
            reserve >= 0,
    ;
    let moved = (factor * reserve) / b;
    let c = arithmetic::saturate(moved);
    assert(moved * b <= factor * reserve < (moved + 1) * b);
    assert(next >= c);
    if rate >= target {
        assert(moved * one <= reserve * exp) by (nonlinear_arith)
            requires
                moved * b <= factor * reserve,
                factor * one <= b * exp,
                one > 0,
                reserve >= 0,
                b == 1_000_000_000,
        ;
        assert(c * one <= moved * one) by (nonlinear_arith)
            requires
                c <= moved,
                one > 0,
        ;
        if fits && next != u64::MAX {
            assert(c == moved);
            assert((next + 1) * b > factor * reserve);
            assert((next + 1) * (b * one) > reserve * (999_999_971 * exp)) by (nonlinear_arith)
                requires
                    (next + 1) * b > factor * reserve,
                    999_999_971 * exp <= factor * one,
                    one > 0,
                    reserve >= 0,
            ;
        }
    } else {
        let square = b * b;
        assert(factor == square / sum);
        assert(factor * sum <= square < (factor + 1) * sum) by (nonlinear_arith)
            requires
                factor == square / sum,
                sum > 0,
        ;
        assert(0 <= factor <= b);
        assert(moved <= reserve) by (nonlinear_arith)
            requires
                moved * b <= factor * reserve,
                factor <= b,
                reserve >= 0,
                b == 1_000_000_000,
        ;
        assert(c == moved);
        let t = (next + 1) * b;
        assert(t >= (moved + 1) * b);
        assert(t > factor * reserve);
        assert((t + reserve) * sum > reserve * square) by (nonlinear_arith)
            requires
                t > factor * reserve,
                square < (factor + 1) * sum,
                reserve >= 0,
                sum > 0,
        ;
        assert((t + reserve) * sum * one > reserve * square * one) by (nonlinear_arith)
            requires
                (t + reserve) * sum > reserve * square,
                one > 0,
        ;
        assert((t + reserve) * (b * exp) >= (t + reserve) * sum * one) by (nonlinear_arith)
            requires
                sum * one <= b * exp,
                t + reserve >= 0,
        ;
        assert((t + reserve) * exp > reserve * (b * one)) by (nonlinear_arith)
            requires
                (t + reserve) * (b * exp) > reserve * square * one,
                square == b * b,
                b == 1_000_000_000,
        ;
        if fits && next != config.min_reserve_price {
            assert(next == moved);
            assert(next * sum <= reserve * b) by (nonlinear_arith)
                requires
                    next * b <= factor * reserve,
                    factor * sum <= b * b,
                    sum > 0,
                    reserve >= 0,
                    b == 1_000_000_000,
            ;
            assert(next * (999_999_971 * exp) <= reserve * (b * one)) by (nonlinear_arith)
                requires
                    next * sum <= reserve * b,
                    999_999_971 * exp <= sum * one,
                    one > 0,
                    next >= 0,
            ;
        }
    }
}

/// A market without sensitivity keeps its reserve price, whatever it sells, but
/// for the floor and the least increment after a sale of all cores.
pub proof fn law_no_sensitivity_keeps_the_reserve_price(
    old_sale: SaleInfoRecordOf,
    config: ConfigRecordOf,
)
    requires
        old_sale.cores_offered > 0,
        config.sensitivity_millis == 0,
    ensures
        ({
            let reserve = old_sale.reserve_price;
            let floor = config.min_reserve_price;
            let kept = if reserve >= floor {
                reserve
            } else {
                floor
            };
            let next = price::next_reserve_price(old_sale, config);
            if old_sale.cores_sold < old_sale.cores_offered || reserve + config.min_increment
                <= kept {
                next == kept
            } else if reserve + config.min_increment <= u64::MAX {
                next == reserve + config.min_increment
            } else {
                next == u64::MAX
            }
        }),
{
    price::lemma_rate_bounds(old_sale.cores_sold as int, old_sale.cores_offered as int);
    let rate = price::consumption(old_sale);
    let target = config.target_consumption_rate.value();
    let d = if rate >= target {
        rate - target
    } else {
        target - rate
    };
    lemma_exponent_is_exact(rate, config, d);
    assert(0 * d == 0) by (nonlinear_arith);
    lemma_exp_of_zero(29);
    let reserve = old_sale.reserve_price as int;
    assert((BILLION * reserve) / BILLION as int == reserve) by (nonlinear_arith)
        requires
            BILLION == 1_000_000_000,
    ;
}

/// A larger exponent has a larger exponential: it is larger by the difference or more.
proof fn lemma_exp_grows(x: int, y: int, n: nat)
    requires
        0 <= x <= y <= u64::MAX,
        n > 0,
    ensures
        price::exp_sum(y, n) >= arithmetic::saturate(price::exp_sum(x, n) + y - x),
    decreases n,
{
    let m = (n - 1) as nat;
    let b = BILLION as int;
    if m == 0 {
        reveal_with_fuel(price::exp_sum, 2);
        reveal_with_fuel(price::exp_term, 2);
        assert((b * x) / b == x && (b * y) / b == y) by (nonlinear_arith)
            requires
                b == 1_000_000_000,
        ;
        assert(price::exp_term(x, 1) == x / 1);
        assert(price::exp_term(y, 1) == y / 1);
    } else {
        lemma_exp_grows(x, y, m);
        lemma_exp_monotone(x, y, n);
        price::lemma_exp_bounds(x, m);
        price::lemma_exp_bounds(y, m);
        price::lemma_exp_bounds(x, n);
        price::lemma_exp_bounds(y, n);
    }
}

/// Of two markets that differ in sensitivity alone, the more sensitive one moves
/// its reserve price at least as far: up above the target, down below it. A
/// price that is large enough for the difference to show it moves farther, as
/// long as the factor and the price fit and the floor does not hold it.
pub proof fn law_sensitivity_moves_the_reserve_price(
    old_sale: SaleInfoRecordOf,
    less: ConfigRecordOf,
    more: ConfigRecordOf,
)
    requires
        old_sale.cores_offered > 0,
        less == (ConfigRecordOf { sensitivity_millis: less.sensitivity_millis, ..more }),
        less.sensitivity_millis <= more.sensitivity_millis,
    ensures
        ({
            let sold = old_sale.cores_sold as int;
            let offered = old_sale.cores_offered as int;
            let rate = if sold >= offered {
                1_000_000_000
            } else {
                (sold * 1_000_000_000) / offered
            };
            let parts = more.target_consumption_rate.parts as int;
            let target = if parts > 1_000_000_000 {
                1_000_000_000
            } else {
                parts
            };
            let weak = price::next_reserve_price(old_sale, less);
            let strong = price::next_reserve_price(old_sale, more);
            let distance = if rate >= target {
                rate - target
            } else {
                target - rate
            };
            let x = (less.sensitivity_millis * distance) / 1000;
            let y = (more.sensitivity_millis * distance) / 1000;
            &&& rate >= target ==> weak <= strong
            &&& rate < target ==> strong <= weak
            &&& rate >= target && sold < offered && old_sale.reserve_price * (y - x)
                >= 1_000_000_000 && 1_000_000_000 * series(y, 29) < u64::MAX * scale(29) && strong
                < u64::MAX && strong > more.min_reserve_price ==> weak < strong
            &&& rate < target && old_sale.reserve_price >= 1_000_000_000 && (y - x) * scale(29)
                * scale(29) >= series(x, 29) * series(y, 29) && 1_000_000_000 * series(y, 29)
                < u64::MAX * scale(29) && weak > more.min_reserve_price ==> strong < weak
        }),
{
    let sold = old_sale.cores_sold as int;
    let offered = old_sale.cores_offered as int;
    price::lemma_rate_bounds(sold, offered);
    let rate = price::consumption(old_sale);
    let target = more.target_consumption_rate.value();
    let d = if rate >= target {
        rate - target
    } else {
        target - rate
    };
    lemma_exponent_is_exact(rate, less, d);
    lemma_exponent_is_exact(rate, more, d);
    lemma_exponent_bounds(rate, more);
    let j = less.sensitivity_millis as int;
    let k = more.sensitivity_millis as int;
    assert(j * d <= k * d) by (nonlinear_arith)
        requires
            j <= k,
            d >= 0,
    ;
    let x = (j * d) / 1000;
    let y = (k * d) / 1000;
    assert(0 <= x <= y <= u64::MAX);
    lemma_exp_monotone(x, y, 29);
    price::lemma_exp_bounds(x, 29);
    price::lemma_exp_bounds(y, 29);
    lemma_factor_bounds(rate, less);
    lemma_factor_bounds(rate, more);
    let f = price::price_factor(rate, less);
    let g = price::price_factor(rate, more);
    let reserve = old_sale.reserve_price as int;
    let b = 1_000_000_000int;
    if rate >= target {
        assert(0 <= f * reserve <= g * reserve) by (nonlinear_arith)
            requires
                0 <= f <= g,
                reserve >= 0,
        ;
        if reserve * (y - x) >= b && b * series(y, 29) < u64::MAX * scale(29) {
            lemma_exp_grows(x, y, 29);
            lemma_sum_from_above(y, 29);
            lemma_series_bounds(y, 29);
            let big = u64::MAX as int;
            let one = scale(29);
            let exp = series(y, 29);
            assert(g < big) by (nonlinear_arith)
                requires
                    g * one <= b * exp,
                    b * exp < big * one,
                    one > 0,
            ;
            assert(g * reserve >= f * reserve + b) by (nonlinear_arith)
                requires
                    g >= f + (y - x),
                    reserve * (y - x) >= b,
                    reserve >= 0,
            ;
            assert((g * reserve) / b >= (f * reserve) / b + 1);
        }
    } else {
        let p = price::exp_sum(x, 29);
        let q = price::exp_sum(y, 29);
        let square = b * b;
        assert(square / q <= square / p) by (nonlinear_arith)
            requires
                0 < p <= q,
                square >= 0,
        ;
        assert(0 <= g * reserve <= f * reserve) by (nonlinear_arith)
            requires
                0 <= g <= f,
                reserve >= 0,
        ;
        let one = scale(29);
        let v = series(x, 29);
        let w = series(y, 29);
        if reserve >= b && (y - x) * one * one >= v * w && b * w < u64::MAX * one {
            lemma_exp_grows(x, y, 29);
            lemma_sum_from_above(x, 29);
            lemma_sum_from_above(y, 29);
            lemma_series_bounds(x, 29);
            lemma_series_bounds(y, 29);
            let big = u64::MAX as int;
            assert(q < big) by (nonlinear_arith)
                requires
                    q * one <= b * w,
                    b * w < big * one,
                    one > 0,
            ;
            let d = q - p;
            assert(d >= y - x);
            lemma_inverses_differ(p, q, one, v, w, y - x);
            assert(f >= g + 1);
            assert(f * reserve >= g * reserve + b) by (nonlinear_arith)
                requires
                    f >= g + 1,
                    reserve >= b,
                    b > 0,
                    g >= 0,
            ;
            assert((f * reserve) / b >= (g * reserve) / b + 1);
            assert(f * reserve <= b * reserve) by (nonlinear_arith)
                requires
                    f <= b,
                    reserve >= 0,
            ;
            assert((f * reserve) / b <= reserve);
        }
    }
}

/// Where a sum is far enough below another, its inverse is larger.
proof fn lemma_inverses_differ(p: int, q: int, one: int, v: int, w: int, d: int)
    requires
        0 < p,
        0 < q,
        0 < one,
        0 <= v,
        0 <= w,
        p * one <= 1_000_000_000 * v,
        q * one <= 1_000_000_000 * w,
        d * one * one >= v * w,
        q - p >= d,
    ensures
        1_000_000_000_000_000_000int / p >= 1_000_000_000_000_000_000int / q + 1,
{
    let b = 1_000_000_000int;
    let square = 1_000_000_000_000_000_000int;
    assert((p * one) * (q * one) <= (b * v) * (b * w)) by (nonlinear_arith)
        requires
            0 <= p * one <= b * v,
            0 <= q * one <= b * w,
    ;
    assert((p * one) * (q * one) == (p * q) * (one * one)) by (nonlinear_arith);
    assert((b * v) * (b * w) == square * (v * w)) by (nonlinear_arith)
        requires
            b == 1_000_000_000,
            square == 1_000_000_000_000_000_000,
    ;
    assert(d * one * one == d * (one * one)) by (nonlinear_arith);
    let t = one * one;
    assert(t > 0) by (nonlinear_arith)
        requires
            t == one * one,
            one > 0,
    ;
    assert(square * (d * t) == (square * d) * t) by (nonlinear_arith);
    assert(p * q <= square * d) by (nonlinear_arith)
        requires
            (p * q) * t <= (square * d) * t,
            t > 0,
    ;
    let g = square / q;
    assert(g * q <= square) by (nonlinear_arith)
        requires
            g == square / q,
            q > 0,
    ;
    assert((g + 1) * p * q <= square * q) by (nonlinear_arith)
        requires
            g * q <= square,
            p * q <= square * d,
            q - p >= d,
            p > 0,
            square > 0,
    ;
    assert((g + 1) * p <= square) by (nonlinear_arith)
        requires
            (g + 1) * p * q <= square * q,
            q > 0,
    ;
    assert(square / p >= g + 1) by (nonlinear_arith)
        requires
            (g + 1) * p <= square,
            p > 0,
    ;
}

// The next sale.

/// A number rounded to the nearest integer is no farther from it than one half,
/// and less than that above it.
pub proof fn lemma_nearest_is_near(n: int, d: int)
    requires
        n >= 0,
        d > 0,
    ensures
        2 * (arithmetic::nearest(n, d) * d - n) < d,
        2 * (n - arithmetic::nearest(n, d) * d) <= d,
        arithmetic::nearest(n, d) >= 0,
{
    let q = n / d;
    let r = n % d;
    assert(n == q * d + r && 0 <= r < d && q >= 0) by (nonlinear_arith)
        requires
            q == n / d,
            r == n % d,
            n >= 0,
            d > 0,
    ;
    assert((q + 1) * d == q * d + d) by (nonlinear_arith);
}

/// How the next sale is laid out, over its own fields.
///
/// It opens at the multiple of its reserve price that is set, or at the least
/// opening price where that is more. It offers the cores that are not reserved,
/// up to the limit if there is one, and would like to sell the part of them that
/// is set. Its regions follow those of the sale before it. The price that it
/// aims at is the clearing price of the sale before it, if that had one.
pub proof fn law_the_next_sale_is_laid_out(
    old_sale: SaleInfoRecordOf,
    config: ConfigRecordOf,
    core_count: CoreIndex,
    reserved_cores: CoreIndex,
    now: BlockNumber,
)
    requires
        old_sale.region_end + config.region_length <= u32::MAX,
    ensures
        ({
            let sale = price::next_sale(old_sale, config, core_count, reserved_cores, now);
            let prices = price::next_prices(old_sale, config);
            let multiple = sale.reserve_price * config.price_multiplier;
            let capped = if multiple > u64::MAX {
                u64::MAX as int
            } else {
                multiple
            };
            let free = if core_count > reserved_cores {
                core_count - reserved_cores
            } else {
                0
            };
            let parts = config.ideal_bulk_proportion.parts as int;
            let ideal = if parts > 1_000_000_000 {
                1_000_000_000 * sale.cores_offered
            } else {
                parts * sale.cores_offered
            };
            &&& sale.sale_start == now
            &&& sale.opening_price == (if capped >= config.min_opening_price {
                capped
            } else {
                config.min_opening_price as int
            })
            &&& sale.clearing_price is None
            &&& sale.region_begin == old_sale.region_end
            &&& sale.region_end == old_sale.region_end + config.region_length
            &&& sale.first_core == reserved_cores
            &&& sale.cores_offered == (match config.limit_cores_offered {
                Some(limit) if limit < free => limit as int,
                _ => free,
            })
            &&& 2 * (1_000_000_000 * sale.ideal_cores_sold - ideal) < 1_000_000_000
            &&& 2 * (ideal - 1_000_000_000 * sale.ideal_cores_sold) <= 1_000_000_000
            &&& sale.cores_sold == 0
            &&& prices.reserve_price == sale.reserve_price
            &&& prices.target_price == (match old_sale.clearing_price {
                Some(price) => price,
                None => sale.reserve_price,
            })
            &&& sale.reserve_price == price::next_reserve_price(old_sale, config)
            &&& old_sale.cores_offered == 0 ==> sale.reserve_price == old_sale.reserve_price
        }),
{
    let sale = price::next_sale(old_sale, config, core_count, reserved_cores, now);
    lemma_next_reserve_price_fits(old_sale, config);
    let cores = price::offered(core_count, reserved_cores, config.limit_cores_offered);
    arithmetic::lemma_part_of_bound(config.ideal_bulk_proportion, cores);
    let p = config.ideal_bulk_proportion.value();
    assert(0 <= p * cores) by (nonlinear_arith)
        requires
            0 <= p,
            0 <= cores,
    ;
    lemma_nearest_is_near(p * cores, BILLION as int);
    let r = sale.reserve_price as int;
    let k = config.price_multiplier as int;
    assert(0 <= r * k) by (nonlinear_arith)
        requires
            0 <= r,
            0 <= k,
    ;
}

/// The next reserve price is an amount.
proof fn lemma_next_reserve_price_fits(old_sale: SaleInfoRecordOf, config: ConfigRecordOf)
    ensures
        0 <= price::next_reserve_price(old_sale, config) <= u64::MAX,
{
    if old_sale.cores_offered > 0 {
        price::lemma_rate_bounds(old_sale.cores_sold as int, old_sale.cores_offered as int);
        let rate = price::consumption(old_sale);
        lemma_factor_bounds(rate, config);
        let f = price::price_factor(rate, config);
        let r = old_sale.reserve_price as int;
        assert(0 <= f * r) by (nonlinear_arith)
            requires
                0 <= f,
                0 <= r,
        ;
    }
}

// The descending price.

/// The price comes down along a straight line: after `e` of the `period` blocks
/// of the Market phase it is `e / period` of the way from the opening price to
/// the reserve price, to within half a billionth of that way and one unit. An
/// auction that opens at or below the reserve price stays at its opening price,
/// and one without a Market phase is at the reserve price.
///
/// With no parameters set, the Market phase is taken to last as long as there
/// are blocks so far.
pub proof fn law_price_descends_along_a_line(
    now: BlockNumber,
    sale: SaleInfoRecordOf,
    config: Option<ConfigRecordOf>,
)
    ensures
        ({
            let period = match config {
                Some(c) => c.market_period as int,
                None => now as int,
            };
            let since = if now > sale.sale_start {
                now - sale.sale_start
            } else {
                0
            };
            let e = if since < period {
                since
            } else {
                period
            };
            let way = if sale.opening_price > sale.reserve_price {
                sale.opening_price - sale.reserve_price
            } else {
                0
            };
            let price = price::price_at(now, sale, config);
            let down = sale.opening_price - price;
            &&& period == 0 ==> price == sale.reserve_price
            &&& period > 0 ==> {
                &&& 0 <= down <= way
                &&& 2_000_000_000 * (down * period - e * way) <= period * way
                &&& 2_000_000_000 * (e * way - down * period) < period * way + 2_000_000_000
                    * period
            }
            &&& period > 0 && e == 0 ==> price == sale.opening_price
            &&& period > 0 && e == period ==> down == way
        }),
{
    let period = price::market_period(config, now);
    if period > 0 {
        let e = price::elapsed(now, sale, period);
        let way = arithmetic::monus(sale.opening_price as int, sale.reserve_price as int);
        let p = price::progress(e, period as int);
        let b = BILLION as int;
        let t = period as int;
        price::lemma_descent_bounds(now, sale, period);
        price::lemma_progress_bounds(e, t);
        assert(0 <= e * b) by (nonlinear_arith)
            requires
                e >= 0,
                b >= 0,
        ;
        lemma_nearest_is_near(e * b, t);
        let down = price::descent(now, sale, period);
        assert(0 <= p * way) by (nonlinear_arith)
            requires
                p >= 0,
                way >= 0,
        ;
        assert(down * b <= p * way < down * b + b);
        let up = p * t - e * b;
        assert(2 * (up * way) <= t * way) by (nonlinear_arith)
            requires
                2 * up < t,
                way >= 0,
        ;
        assert(-2 * (up * way) <= t * way) by (nonlinear_arith)
            requires
                -2 * up <= t,
                way >= 0,
        ;
        assert(up * way == (p * way) * t - (e * way) * b) by (nonlinear_arith)
            requires
                up == p * t - e * b,
        ;
        assert((down * b) * t <= (p * way) * t < (down * b + b) * t) by (nonlinear_arith)
            requires
                down * b <= p * way < down * b + b,
                t > 0,
        ;
        assert((down * b) * t == b * (down * t)) by (nonlinear_arith);
        assert((down * b + b) * t == b * (down * t) + b * t) by (nonlinear_arith);
        assert(e == 0 ==> p * way == 0) by (nonlinear_arith)
            requires
                e == 0 ==> p == 0,
        ;
        assert(e == t ==> p * way == b * way) by (nonlinear_arith)
            requires
                e == t ==> p == b,
        ;
    }
}

} // verus!

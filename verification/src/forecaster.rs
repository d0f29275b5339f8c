//! The deterministic trend forecaster.
//!
//! A fixed 30-day historical price series is embedded here as a constant
//! table. One run fits a least-squares line to it in integer arithmetic,
//! scores the fit as an integer percentage, forecasts the next day's
//! price in the native unit, rescales that forecast into the unit of the
//! observed amount, and decides buy or sell by comparing the native-unit
//! forecast against a fixed threshold half a percent above the assumed
//! current price. Every step is integer arithmetic over the constant
//! table and one input value, so the result is a pure function of the
//! observed amount.

use crate::bytes::be_val;
use crate::codec::{encode, is_encoding, read_u256};
use crate::signal::{lemma_uint256_of_small, uint256_of, SignalResult, Uint256};
use vstd::prelude::*;

verus! {

/// Number of entries in the historical series.
pub const SERIES_LEN: usize = 30;

/// The assumed current native-unit price, used both to rescale the
/// forecast into the observed amount's unit and to set the decision
/// threshold.
pub const ASSUMED_NATIVE_PRICE: u64 = 3200;

/// The time index of entry `i` of the series: day 1 through day 30.
pub open spec fn time_at(i: int) -> int {
    i + 1
}

/// The native-unit price of entry `i` of the series.
pub open spec fn price_at(i: int) -> int {
    if i == 0 {
        3200
    } else if i == 1 {
        3215
    } else if i == 2 {
        3189
    } else if i == 3 {
        3221
    } else if i == 4 {
        3254
    } else if i == 5 {
        3278
    } else if i == 6 {
        3242
    } else if i == 7 {
        3291
    } else if i == 8 {
        3315
    } else if i == 9 {
        3287
    } else if i == 10 {
        3324
    } else if i == 11 {
        3352
    } else if i == 12 {
        3389
    } else if i == 13 {
        3412
    } else if i == 14 {
        3398
    } else if i == 15 {
        3436
    } else if i == 16 {
        3462
    } else if i == 17 {
        3489
    } else if i == 18 {
        3453
    } else if i == 19 {
        3507
    } else if i == 20 {
        3534
    } else if i == 21 {
        3561
    } else if i == 22 {
        3528
    } else if i == 23 {
        3582
    } else if i == 24 {
        3615
    } else if i == 25 {
        3648
    } else if i == 26 {
        3621
    } else if i == 27 {
        3674
    } else if i == 28 {
        3702
    } else {
        3735
    }
}

/// The historical series as a sequence of `(time index, price)` pairs,
/// strictly increasing in the time index.
pub open spec fn history() -> Seq<(u64, u64)> {
    Seq::new(SERIES_LEN as nat, |i: int| (time_at(i) as u64, price_at(i) as u64))
}

/// Every entry has its day as time index and a price within the narrow
/// band the table actually holds.
pub proof fn lemma_entry_bounds(i: int)
    requires
        0 <= i < SERIES_LEN,
    ensures
        1 <= time_at(i) <= 30,
        3100 <= price_at(i) <= 3800,
{
}

/// Sum of the first `n` time indices.
pub open spec fn sum_times(n: int) -> int
    decreases n,
{
    if n <= 0 {
        0
    } else {
        sum_times(n - 1) + time_at(n - 1)
    }
}

/// Sum of the first `n` prices.
pub open spec fn sum_prices(n: int) -> int
    decreases n,
{
    if n <= 0 {
        0
    } else {
        sum_prices(n - 1) + price_at(n - 1)
    }
}

/// The integer mean of the time column, fractions dropped.
pub open spec fn spec_mean_time() -> int {
    sum_times(SERIES_LEN as int) / (SERIES_LEN as int)
}

/// The integer mean of the price column, fractions dropped.
pub open spec fn spec_mean_price() -> int {
    sum_prices(SERIES_LEN as int) / (SERIES_LEN as int)
}

/// Sum over the first `n` entries of the product of the deviations of
/// time and price from the means `mt` and `mp`.
pub open spec fn sum_dev_prod(n: int, mt: int, mp: int) -> int
    decreases n,
{
    if n <= 0 {
        0
    } else {
        sum_dev_prod(n - 1, mt, mp) + (time_at(n - 1) - mt) * (price_at(n - 1) - mp)
    }
}

/// Sum over the first `n` entries of the squared deviation of time from
/// the mean `mt`.
pub open spec fn sum_dev_sq(n: int, mt: int) -> int
    decreases n,
{
    if n <= 0 {
        0
    } else {
        sum_dev_sq(n - 1, mt) + (time_at(n - 1) - mt) * (time_at(n - 1) - mt)
    }
}

/// Sum over the first `n` entries of the squared deviation of price from
/// the mean `mp`: the total variance of the series.
pub open spec fn sum_price_dev_sq(n: int, mp: int) -> int
    decreases n,
{
    if n <= 0 {
        0
    } else {
        sum_price_dev_sq(n - 1, mp) + (price_at(n - 1) - mp) * (price_at(n - 1) - mp)
    }
}

/// Sum over the first `n` entries of the squared error of the fitted
/// line `slope * t + intercept`: the residual variance.
pub open spec fn sum_sq_err(n: int, slope: int, intercept: int) -> int
    decreases n,
{
    if n <= 0 {
        0
    } else {
        let err = price_at(n - 1) - (slope * time_at(n - 1) + intercept);
        sum_sq_err(n - 1, slope, intercept) + err * err
    }
}

/// The fitted slope: covariance over time variance, 0 when the time
/// variance is zero.
pub open spec fn spec_slope() -> int {
    let den = sum_dev_sq(SERIES_LEN as int, spec_mean_time());
    if den == 0 {
        0
    } else {
        sum_dev_prod(SERIES_LEN as int, spec_mean_time(), spec_mean_price()) / den
    }
}

/// The fitted intercept.
pub open spec fn spec_intercept() -> int {
    spec_mean_price() - spec_slope() * spec_mean_time()
}

/// The coefficient of determination as an integer percentage, clamped
/// to 0..=100; 0 when the series has no variance.
pub open spec fn spec_confidence() -> int {
    let sst = sum_price_dev_sq(SERIES_LEN as int, spec_mean_price());
    if sst <= 0 {
        0
    } else {
        let ratio = (sst - sum_sq_err(SERIES_LEN as int, spec_slope(), spec_intercept())) * 100
            / sst;
        if ratio <= 0 {
            0
        } else if ratio >= 100 {
            100
        } else {
            ratio
        }
    }
}

/// The forecast for the day after the series ends, in the native unit.
pub open spec fn spec_forecast_native() -> int {
    spec_slope() * (time_at(SERIES_LEN as int - 1) + 1) + spec_intercept()
}

/// The decision threshold: half a percent above the assumed price.
pub open spec fn spec_threshold() -> int {
    ASSUMED_NATIVE_PRICE + ASSUMED_NATIVE_PRICE / 200
}

/// The decision: buy exactly when the native-unit forecast exceeds the
/// threshold. The comparison is made in native-unit space, before any
/// rescaling by the observed amount.
pub open spec fn spec_decision() -> u8 {
    if spec_forecast_native() > spec_threshold() {
        1
    } else {
        0
    }
}

/// The forecast rescaled into the observed amount's unit; the observed
/// amount itself when the assumed price is zero.
pub open spec fn spec_forecast_value(observed_amount: u64) -> int {
    if ASSUMED_NATIVE_PRICE == 0 {
        observed_amount as int
    } else {
        observed_amount * spec_forecast_native() / (ASSUMED_NATIVE_PRICE as int)
    }
}

/// The full outcome of one run on `observed_amount`.
pub open spec fn spec_run(observed_amount: u64) -> SignalResult {
    SignalResult {
        decision: spec_decision(),
        confidence: uint256_of(spec_confidence() as nat),
        forecast_value: uint256_of(spec_forecast_value(observed_amount) as nat),
    }
}

/// The concrete readings of the fixed table: the sums the regression
/// takes over it, and the values derived from them. Proved by stepping
/// the recursive sums through the table one entry at a time.
/// The sums the regression takes over the fixed table, stepped through
/// the table one entry at a time.
#[verifier::rlimit(100)]
proof fn lemma_table_sums()
    ensures
        sum_dev_prod(30, 15, 3430) == 41486,
        sum_dev_sq(30, 15) == 2255,
        sum_price_dev_sq(30, 3430) == 780114,
        sum_sq_err(30, 18, 3160) == 17238,
{
    assert(sum_dev_prod(0, 15, 3430) == 0);
    assert(sum_dev_sq(0, 15) == 0);
    assert(sum_price_dev_sq(0, 3430) == 0);
    assert(sum_sq_err(0, 18, 3160) == 0);
    assert(time_at(0) == 1 && price_at(0) == 3200);
    assert((time_at(0) - 15) * (price_at(0) - 3430) == 3220 && (time_at(0) - 15) * (time_at(0) - 15) == 196 && (price_at(0) - 3430) * (price_at(0) - 3430)
        == 52900 && (price_at(0) - (18 * time_at(0) + 3160)) * (price_at(0) - (18 * time_at(0) + 3160)) == 484) by (nonlinear_arith)
        requires
            time_at(0) == 1,
            price_at(0) == 3200,
    ;
    assert(sum_dev_prod(1, 15, 3430) == 3220);
    assert(sum_dev_sq(1, 15) == 196);
    assert(sum_price_dev_sq(1, 3430) == 52900);
    assert(sum_sq_err(1, 18, 3160) == 484);
    assert(time_at(1) == 2 && price_at(1) == 3215);
    assert((time_at(1) - 15) * (price_at(1) - 3430) == 2795 && (time_at(1) - 15) * (time_at(1) - 15) == 169 && (price_at(1) - 3430) * (price_at(1) - 3430)
        == 46225 && (price_at(1) - (18 * time_at(1) + 3160)) * (price_at(1) - (18 * time_at(1) + 3160)) == 361) by (nonlinear_arith)
        requires
            time_at(1) == 2,
            price_at(1) == 3215,
    ;
    assert(sum_dev_prod(2, 15, 3430) == 6015);
    assert(sum_dev_sq(2, 15) == 365);
    assert(sum_price_dev_sq(2, 3430) == 99125);
    assert(sum_sq_err(2, 18, 3160) == 845);
    assert(time_at(2) == 3 && price_at(2) == 3189);
    assert((time_at(2) - 15) * (price_at(2) - 3430) == 2892 && (time_at(2) - 15) * (time_at(2) - 15) == 144 && (price_at(2) - 3430) * (price_at(2) - 3430)
        == 58081 && (price_at(2) - (18 * time_at(2) + 3160)) * (price_at(2) - (18 * time_at(2) + 3160)) == 625) by (nonlinear_arith)
        requires
            time_at(2) == 3,
            price_at(2) == 3189,
    ;
    assert(sum_dev_prod(3, 15, 3430) == 8907);
    assert(sum_dev_sq(3, 15) == 509);
    assert(sum_price_dev_sq(3, 3430) == 157206);
    assert(sum_sq_err(3, 18, 3160) == 1470);
    assert(time_at(3) == 4 && price_at(3) == 3221);
    assert((time_at(3) - 15) * (price_at(3) - 3430) == 2299 && (time_at(3) - 15) * (time_at(3) - 15) == 121 && (price_at(3) - 3430) * (price_at(3) - 3430)
        == 43681 && (price_at(3) - (18 * time_at(3) + 3160)) * (price_at(3) - (18 * time_at(3) + 3160)) == 121) by (nonlinear_arith)
        requires
            time_at(3) == 4,
            price_at(3) == 3221,
    ;
    assert(sum_dev_prod(4, 15, 3430) == 11206);
    assert(sum_dev_sq(4, 15) == 630);
    assert(sum_price_dev_sq(4, 3430) == 200887);
    assert(sum_sq_err(4, 18, 3160) == 1591);
    assert(time_at(4) == 5 && price_at(4) == 3254);
    assert((time_at(4) - 15) * (price_at(4) - 3430) == 1760 && (time_at(4) - 15) * (time_at(4) - 15) == 100 && (price_at(4) - 3430) * (price_at(4) - 3430)
        == 30976 && (price_at(4) - (18 * time_at(4) + 3160)) * (price_at(4) - (18 * time_at(4) + 3160)) == 16) by (nonlinear_arith)
        requires
            time_at(4) == 5,
            price_at(4) == 3254,
    ;
    assert(sum_dev_prod(5, 15, 3430) == 12966);
    assert(sum_dev_sq(5, 15) == 730);
    assert(sum_price_dev_sq(5, 3430) == 231863);
    assert(sum_sq_err(5, 18, 3160) == 1607);
    assert(time_at(5) == 6 && price_at(5) == 3278);
    assert((time_at(5) - 15) * (price_at(5) - 3430) == 1368 && (time_at(5) - 15) * (time_at(5) - 15) == 81 && (price_at(5) - 3430) * (price_at(5) - 3430)
        == 23104 && (price_at(5) - (18 * time_at(5) + 3160)) * (price_at(5) - (18 * time_at(5) + 3160)) == 100) by (nonlinear_arith)
        requires
            time_at(5) == 6,
            price_at(5) == 3278,
    ;
    assert(sum_dev_prod(6, 15, 3430) == 14334);
    assert(sum_dev_sq(6, 15) == 811);
    assert(sum_price_dev_sq(6, 3430) == 254967);
    assert(sum_sq_err(6, 18, 3160) == 1707);
    assert(time_at(6) == 7 && price_at(6) == 3242);
    assert((time_at(6) - 15) * (price_at(6) - 3430) == 1504 && (time_at(6) - 15) * (time_at(6) - 15) == 64 && (price_at(6) - 3430) * (price_at(6) - 3430)
        == 35344 && (price_at(6) - (18 * time_at(6) + 3160)) * (price_at(6) - (18 * time_at(6) + 3160)) == 1936) by (nonlinear_arith)
        requires
            time_at(6) == 7,
            price_at(6) == 3242,
    ;
    assert(sum_dev_prod(7, 15, 3430) == 15838);
    assert(sum_dev_sq(7, 15) == 875);
    assert(sum_price_dev_sq(7, 3430) == 290311);
    assert(sum_sq_err(7, 18, 3160) == 3643);
    assert(time_at(7) == 8 && price_at(7) == 3291);
    assert((time_at(7) - 15) * (price_at(7) - 3430) == 973 && (time_at(7) - 15) * (time_at(7) - 15) == 49 && (price_at(7) - 3430) * (price_at(7) - 3430)
        == 19321 && (price_at(7) - (18 * time_at(7) + 3160)) * (price_at(7) - (18 * time_at(7) + 3160)) == 169) by (nonlinear_arith)
        requires
            time_at(7) == 8,
            price_at(7) == 3291,
    ;
    assert(sum_dev_prod(8, 15, 3430) == 16811);
    assert(sum_dev_sq(8, 15) == 924);
    assert(sum_price_dev_sq(8, 3430) == 309632);
    assert(sum_sq_err(8, 18, 3160) == 3812);
    assert(time_at(8) == 9 && price_at(8) == 3315);
    assert((time_at(8) - 15) * (price_at(8) - 3430) == 690 && (time_at(8) - 15) * (time_at(8) - 15) == 36 && (price_at(8) - 3430) * (price_at(8) - 3430)
        == 13225 && (price_at(8) - (18 * time_at(8) + 3160)) * (price_at(8) - (18 * time_at(8) + 3160)) == 49) by (nonlinear_arith)
        requires
            time_at(8) == 9,
            price_at(8) == 3315,
    ;
    assert(sum_dev_prod(9, 15, 3430) == 17501);
    assert(sum_dev_sq(9, 15) == 960);
    assert(sum_price_dev_sq(9, 3430) == 322857);
    assert(sum_sq_err(9, 18, 3160) == 3861);
    assert(time_at(9) == 10 && price_at(9) == 3287);
    assert((time_at(9) - 15) * (price_at(9) - 3430) == 715 && (time_at(9) - 15) * (time_at(9) - 15) == 25 && (price_at(9) - 3430) * (price_at(9) - 3430)
        == 20449 && (price_at(9) - (18 * time_at(9) + 3160)) * (price_at(9) - (18 * time_at(9) + 3160)) == 2809) by (nonlinear_arith)
        requires
            time_at(9) == 10,
            price_at(9) == 3287,
    ;
    assert(sum_dev_prod(10, 15, 3430) == 18216);
    assert(sum_dev_sq(10, 15) == 985);
    assert(sum_price_dev_sq(10, 3430) == 343306);
    assert(sum_sq_err(10, 18, 3160) == 6670);
    assert(time_at(10) == 11 && price_at(10) == 3324);
    assert((time_at(10) - 15) * (price_at(10) - 3430) == 424 && (time_at(10) - 15) * (time_at(10) - 15) == 16 && (price_at(10) - 3430) * (price_at(10) - 3430)
        == 11236 && (price_at(10) - (18 * time_at(10) + 3160)) * (price_at(10) - (18 * time_at(10) + 3160)) == 1156) by (nonlinear_arith)
        requires
            time_at(10) == 11,
            price_at(10) == 3324,
    ;
    assert(sum_dev_prod(11, 15, 3430) == 18640);
    assert(sum_dev_sq(11, 15) == 1001);
    assert(sum_price_dev_sq(11, 3430) == 354542);
    assert(sum_sq_err(11, 18, 3160) == 7826);
    assert(time_at(11) == 12 && price_at(11) == 3352);
    assert((time_at(11) - 15) * (price_at(11) - 3430) == 234 && (time_at(11) - 15) * (time_at(11) - 15) == 9 && (price_at(11) - 3430) * (price_at(11) - 3430)
        == 6084 && (price_at(11) - (18 * time_at(11) + 3160)) * (price_at(11) - (18 * time_at(11) + 3160)) == 576) by (nonlinear_arith)
        requires
            time_at(11) == 12,
            price_at(11) == 3352,
    ;
    assert(sum_dev_prod(12, 15, 3430) == 18874);
    assert(sum_dev_sq(12, 15) == 1010);
    assert(sum_price_dev_sq(12, 3430) == 360626);
    assert(sum_sq_err(12, 18, 3160) == 8402);
    assert(time_at(12) == 13 && price_at(12) == 3389);
    assert((time_at(12) - 15) * (price_at(12) - 3430) == 82 && (time_at(12) - 15) * (time_at(12) - 15) == 4 && (price_at(12) - 3430) * (price_at(12) - 3430)
        == 1681 && (price_at(12) - (18 * time_at(12) + 3160)) * (price_at(12) - (18 * time_at(12) + 3160)) == 25) by (nonlinear_arith)
        requires
            time_at(12) == 13,
            price_at(12) == 3389,
    ;
    assert(sum_dev_prod(13, 15, 3430) == 18956);
    assert(sum_dev_sq(13, 15) == 1014);
    assert(sum_price_dev_sq(13, 3430) == 362307);
    assert(sum_sq_err(13, 18, 3160) == 8427);
    assert(time_at(13) == 14 && price_at(13) == 3412);
    assert((time_at(13) - 15) * (price_at(13) - 3430) == 18 && (time_at(13) - 15) * (time_at(13) - 15) == 1 && (price_at(13) - 3430) * (price_at(13) - 3430)
        == 324 && (price_at(13) - (18 * time_at(13) + 3160)) * (price_at(13) - (18 * time_at(13) + 3160)) == 0) by (nonlinear_arith)
        requires
            time_at(13) == 14,
            price_at(13) == 3412,
    ;
    assert(sum_dev_prod(14, 15, 3430) == 18974);
    assert(sum_dev_sq(14, 15) == 1015);
    assert(sum_price_dev_sq(14, 3430) == 362631);
    assert(sum_sq_err(14, 18, 3160) == 8427);
    assert(time_at(14) == 15 && price_at(14) == 3398);
    assert((time_at(14) - 15) * (price_at(14) - 3430) == 0 && (time_at(14) - 15) * (time_at(14) - 15) == 0 && (price_at(14) - 3430) * (price_at(14) - 3430)
        == 1024 && (price_at(14) - (18 * time_at(14) + 3160)) * (price_at(14) - (18 * time_at(14) + 3160)) == 1024) by (nonlinear_arith)
        requires
            time_at(14) == 15,
            price_at(14) == 3398,
    ;
    assert(sum_dev_prod(15, 15, 3430) == 18974);
    assert(sum_dev_sq(15, 15) == 1015);
    assert(sum_price_dev_sq(15, 3430) == 363655);
    assert(sum_sq_err(15, 18, 3160) == 9451);
    assert(time_at(15) == 16 && price_at(15) == 3436);
    assert((time_at(15) - 15) * (price_at(15) - 3430) == 6 && (time_at(15) - 15) * (time_at(15) - 15) == 1 && (price_at(15) - 3430) * (price_at(15) - 3430)
        == 36 && (price_at(15) - (18 * time_at(15) + 3160)) * (price_at(15) - (18 * time_at(15) + 3160)) == 144) by (nonlinear_arith)
        requires
            time_at(15) == 16,
            price_at(15) == 3436,
    ;
    assert(sum_dev_prod(16, 15, 3430) == 18980);
    assert(sum_dev_sq(16, 15) == 1016);
    assert(sum_price_dev_sq(16, 3430) == 363691);
    assert(sum_sq_err(16, 18, 3160) == 9595);
    assert(time_at(16) == 17 && price_at(16) == 3462);
    assert((time_at(16) - 15) * (price_at(16) - 3430) == 64 && (time_at(16) - 15) * (time_at(16) - 15) == 4 && (price_at(16) - 3430) * (price_at(16) - 3430)
        == 1024 && (price_at(16) - (18 * time_at(16) + 3160)) * (price_at(16) - (18 * time_at(16) + 3160)) == 16) by (nonlinear_arith)
        requires
            time_at(16) == 17,
            price_at(16) == 3462,
    ;
    assert(sum_dev_prod(17, 15, 3430) == 19044);
    assert(sum_dev_sq(17, 15) == 1020);
    assert(sum_price_dev_sq(17, 3430) == 364715);
    assert(sum_sq_err(17, 18, 3160) == 9611);
    assert(time_at(17) == 18 && price_at(17) == 3489);
    assert((time_at(17) - 15) * (price_at(17) - 3430) == 177 && (time_at(17) - 15) * (time_at(17) - 15) == 9 && (price_at(17) - 3430) * (price_at(17) - 3430)
        == 3481 && (price_at(17) - (18 * time_at(17) + 3160)) * (price_at(17) - (18 * time_at(17) + 3160)) == 25) by (nonlinear_arith)
        requires
            time_at(17) == 18,
            price_at(17) == 3489,
    ;
    assert(sum_dev_prod(18, 15, 3430) == 19221);
    assert(sum_dev_sq(18, 15) == 1029);
    assert(sum_price_dev_sq(18, 3430) == 368196);
    assert(sum_sq_err(18, 18, 3160) == 9636);
    assert(time_at(18) == 19 && price_at(18) == 3453);
    assert((time_at(18) - 15) * (price_at(18) - 3430) == 92 && (time_at(18) - 15) * (time_at(18) - 15) == 16 && (price_at(18) - 3430) * (price_at(18) - 3430)
        == 529 && (price_at(18) - (18 * time_at(18) + 3160)) * (price_at(18) - (18 * time_at(18) + 3160)) == 2401) by (nonlinear_arith)
        requires
            time_at(18) == 19,
            price_at(18) == 3453,
    ;
    assert(sum_dev_prod(19, 15, 3430) == 19313);
    assert(sum_dev_sq(19, 15) == 1045);
    assert(sum_price_dev_sq(19, 3430) == 368725);
    assert(sum_sq_err(19, 18, 3160) == 12037);
    assert(time_at(19) == 20 && price_at(19) == 3507);
    assert((time_at(19) - 15) * (price_at(19) - 3430) == 385 && (time_at(19) - 15) * (time_at(19) - 15) == 25 && (price_at(19) - 3430) * (price_at(19) - 3430)
        == 5929 && (price_at(19) - (18 * time_at(19) + 3160)) * (price_at(19) - (18 * time_at(19) + 3160)) == 169) by (nonlinear_arith)
        requires
            time_at(19) == 20,
            price_at(19) == 3507,
    ;
    assert(sum_dev_prod(20, 15, 3430) == 19698);
    assert(sum_dev_sq(20, 15) == 1070);
    assert(sum_price_dev_sq(20, 3430) == 374654);
    assert(sum_sq_err(20, 18, 3160) == 12206);
    assert(time_at(20) == 21 && price_at(20) == 3534);
    assert((time_at(20) - 15) * (price_at(20) - 3430) == 624 && (time_at(20) - 15) * (time_at(20) - 15) == 36 && (price_at(20) - 3430) * (price_at(20) - 3430)
        == 10816 && (price_at(20) - (18 * time_at(20) + 3160)) * (price_at(20) - (18 * time_at(20) + 3160)) == 16) by (nonlinear_arith)
        requires
            time_at(20) == 21,
            price_at(20) == 3534,
    ;
    assert(sum_dev_prod(21, 15, 3430) == 20322);
    assert(sum_dev_sq(21, 15) == 1106);
    assert(sum_price_dev_sq(21, 3430) == 385470);
    assert(sum_sq_err(21, 18, 3160) == 12222);
    assert(time_at(21) == 22 && price_at(21) == 3561);
    assert((time_at(21) - 15) * (price_at(21) - 3430) == 917 && (time_at(21) - 15) * (time_at(21) - 15) == 49 && (price_at(21) - 3430) * (price_at(21) - 3430)
        == 17161 && (price_at(21) - (18 * time_at(21) + 3160)) * (price_at(21) - (18 * time_at(21) + 3160)) == 25) by (nonlinear_arith)
        requires
            time_at(21) == 22,
            price_at(21) == 3561,
    ;
    assert(sum_dev_prod(22, 15, 3430) == 21239);
    assert(sum_dev_sq(22, 15) == 1155);
    assert(sum_price_dev_sq(22, 3430) == 402631);
    assert(sum_sq_err(22, 18, 3160) == 12247);
    assert(time_at(22) == 23 && price_at(22) == 3528);
    assert((time_at(22) - 15) * (price_at(22) - 3430) == 784 && (time_at(22) - 15) * (time_at(22) - 15) == 64 && (price_at(22) - 3430) * (price_at(22) - 3430)
        == 9604 && (price_at(22) - (18 * time_at(22) + 3160)) * (price_at(22) - (18 * time_at(22) + 3160)) == 2116) by (nonlinear_arith)
        requires
            time_at(22) == 23,
            price_at(22) == 3528,
    ;
    assert(sum_dev_prod(23, 15, 3430) == 22023);
    assert(sum_dev_sq(23, 15) == 1219);
    assert(sum_price_dev_sq(23, 3430) == 412235);
    assert(sum_sq_err(23, 18, 3160) == 14363);
    assert(time_at(23) == 24 && price_at(23) == 3582);
    assert((time_at(23) - 15) * (price_at(23) - 3430) == 1368 && (time_at(23) - 15) * (time_at(23) - 15) == 81 && (price_at(23) - 3430) * (price_at(23) - 3430)
        == 23104 && (price_at(23) - (18 * time_at(23) + 3160)) * (price_at(23) - (18 * time_at(23) + 3160)) == 100) by (nonlinear_arith)
        requires
            time_at(23) == 24,
            price_at(23) == 3582,
    ;
    assert(sum_dev_prod(24, 15, 3430) == 23391);
    assert(sum_dev_sq(24, 15) == 1300);
    assert(sum_price_dev_sq(24, 3430) == 435339);
    assert(sum_sq_err(24, 18, 3160) == 14463);
    assert(time_at(24) == 25 && price_at(24) == 3615);
    assert((time_at(24) - 15) * (price_at(24) - 3430) == 1850 && (time_at(24) - 15) * (time_at(24) - 15) == 100 && (price_at(24) - 3430) * (price_at(24) - 3430)
        == 34225 && (price_at(24) - (18 * time_at(24) + 3160)) * (price_at(24) - (18 * time_at(24) + 3160)) == 25) by (nonlinear_arith)
        requires
            time_at(24) == 25,
            price_at(24) == 3615,
    ;
    assert(sum_dev_prod(25, 15, 3430) == 25241);
    assert(sum_dev_sq(25, 15) == 1400);
    assert(sum_price_dev_sq(25, 3430) == 469564);
    assert(sum_sq_err(25, 18, 3160) == 14488);
    assert(time_at(25) == 26 && price_at(25) == 3648);
    assert((time_at(25) - 15) * (price_at(25) - 3430) == 2398 && (time_at(25) - 15) * (time_at(25) - 15) == 121 && (price_at(25) - 3430) * (price_at(25) - 3430)
        == 47524 && (price_at(25) - (18 * time_at(25) + 3160)) * (price_at(25) - (18 * time_at(25) + 3160)) == 400) by (nonlinear_arith)
        requires
            time_at(25) == 26,
            price_at(25) == 3648,
    ;
    assert(sum_dev_prod(26, 15, 3430) == 27639);
    assert(sum_dev_sq(26, 15) == 1521);
    assert(sum_price_dev_sq(26, 3430) == 517088);
    assert(sum_sq_err(26, 18, 3160) == 14888);
    assert(time_at(26) == 27 && price_at(26) == 3621);
    assert((time_at(26) - 15) * (price_at(26) - 3430) == 2292 && (time_at(26) - 15) * (time_at(26) - 15) == 144 && (price_at(26) - 3430) * (price_at(26) - 3430)
        == 36481 && (price_at(26) - (18 * time_at(26) + 3160)) * (price_at(26) - (18 * time_at(26) + 3160)) == 625) by (nonlinear_arith)
        requires
            time_at(26) == 27,
            price_at(26) == 3621,
    ;
    assert(sum_dev_prod(27, 15, 3430) == 29931);
    assert(sum_dev_sq(27, 15) == 1665);
    assert(sum_price_dev_sq(27, 3430) == 553569);
    assert(sum_sq_err(27, 18, 3160) == 15513);
    assert(time_at(27) == 28 && price_at(27) == 3674);
    assert((time_at(27) - 15) * (price_at(27) - 3430) == 3172 && (time_at(27) - 15) * (time_at(27) - 15) == 169 && (price_at(27) - 3430) * (price_at(27) - 3430)
        == 59536 && (price_at(27) - (18 * time_at(27) + 3160)) * (price_at(27) - (18 * time_at(27) + 3160)) == 100) by (nonlinear_arith)
        requires
            time_at(27) == 28,
            price_at(27) == 3674,
    ;
    assert(sum_dev_prod(28, 15, 3430) == 33103);
    assert(sum_dev_sq(28, 15) == 1834);
    assert(sum_price_dev_sq(28, 3430) == 613105);
    assert(sum_sq_err(28, 18, 3160) == 15613);
    assert(time_at(28) == 29 && price_at(28) == 3702);
    assert((time_at(28) - 15) * (price_at(28) - 3430) == 3808 && (time_at(28) - 15) * (time_at(28) - 15) == 196 && (price_at(28) - 3430) * (price_at(28) - 3430)
        == 73984 && (price_at(28) - (18 * time_at(28) + 3160)) * (price_at(28) - (18 * time_at(28) + 3160)) == 400) by (nonlinear_arith)
        requires
            time_at(28) == 29,
            price_at(28) == 3702,
    ;
    assert(sum_dev_prod(29, 15, 3430) == 36911);
    assert(sum_dev_sq(29, 15) == 2030);
    assert(sum_price_dev_sq(29, 3430) == 687089);
    assert(sum_sq_err(29, 18, 3160) == 16013);
    assert(time_at(29) == 30 && price_at(29) == 3735);
    assert((time_at(29) - 15) * (price_at(29) - 3430) == 4575 && (time_at(29) - 15) * (time_at(29) - 15) == 225 && (price_at(29) - 3430) * (price_at(29) - 3430)
        == 93025 && (price_at(29) - (18 * time_at(29) + 3160)) * (price_at(29) - (18 * time_at(29) + 3160)) == 1225) by (nonlinear_arith)
        requires
            time_at(29) == 30,
            price_at(29) == 3735,
    ;
    assert(sum_dev_prod(30, 15, 3430) == 41486);
    assert(sum_dev_sq(30, 15) == 2255);
    assert(sum_price_dev_sq(30, 3430) == 780114);
    assert(sum_sq_err(30, 18, 3160) == 17238);
}

#[verifier::rlimit(50)]
pub proof fn lemma_series_stats()
    ensures
        sum_times(30) == 465,
        sum_prices(30) == 102914,
        spec_mean_time() == 15,
        spec_mean_price() == 3430,
        sum_dev_prod(30, 15, 3430) == 41486,
        sum_dev_sq(30, 15) == 2255,
        sum_price_dev_sq(30, 3430) == 780114,
        sum_sq_err(30, 18, 3160) == 17238,
        spec_slope() == 18,
        spec_intercept() == 3160,
        spec_confidence() == 97,
        spec_forecast_native() == 3718,
{
    reveal_with_fuel(sum_times, 31);
    reveal_with_fuel(sum_prices, 31);
    lemma_table_sums();
}

/// The table entry at `i`: its day index and its native-unit price.
pub fn series_entry(i: usize) -> (e: (u64, u64))
    requires
        i < SERIES_LEN,
    ensures
        e.0 == time_at(i as int),
        e.1 == price_at(i as int),
{
    let t = (i as u64) + 1;
    let p: u64 = if i == 0 {
        3200
    } else if i == 1 {
        3215
    } else if i == 2 {
        3189
    } else if i == 3 {
        3221
    } else if i == 4 {
        3254
    } else if i == 5 {
        3278
    } else if i == 6 {
        3242
    } else if i == 7 {
        3291
    } else if i == 8 {
        3315
    } else if i == 9 {
        3287
    } else if i == 10 {
        3324
    } else if i == 11 {
        3352
    } else if i == 12 {
        3389
    } else if i == 13 {
        3412
    } else if i == 14 {
        3398
    } else if i == 15 {
        3436
    } else if i == 16 {
        3462
    } else if i == 17 {
        3489
    } else if i == 18 {
        3453
    } else if i == 19 {
        3507
    } else if i == 20 {
        3534
    } else if i == 21 {
        3561
    } else if i == 22 {
        3528
    } else if i == 23 {
        3582
    } else if i == 24 {
        3615
    } else if i == 25 {
        3648
    } else if i == 26 {
        3621
    } else if i == 27 {
        3674
    } else if i == 28 {
        3702
    } else {
        3735
    };
    (t, p)
}

/// The historical series realized as a vector, in its model order.
pub fn price_history() -> (v: Vec<(u64, u64)>)
    ensures
        v@ == history(),
{
    let mut v: Vec<(u64, u64)> = Vec::new();
    let mut i: usize = 0;
    while i < SERIES_LEN
        invariant
            i <= SERIES_LEN,
            v@.len() == i,
            forall|j: int| 0 <= j < i ==> v@[j] == #[trigger] history()[j],
        decreases SERIES_LEN - i,
    {
        let e = series_entry(i);
        proof {
            lemma_entry_bounds(i as int);
        }
        v.push(e);
        i = i + 1;
    }
    proof {
        assert(v@ =~= history());
    }
    v
}

/// Fits the trend line: returns the slope, the intercept, and the
/// confidence percentage of an integer least-squares regression over
/// the fixed series.
pub fn linear_regression() -> (r: (i64, i64, u64))
    ensures
        r.0 == spec_slope(),
        r.1 == spec_intercept(),
        r.2 == spec_confidence(),
{
    proof {
        lemma_series_stats();
    }
    let mut sum_x: i64 = 0;
    let mut sum_y: i64 = 0;
    let mut i: usize = 0;
    while i < SERIES_LEN
        invariant
            i <= SERIES_LEN,
            sum_x == sum_times(i as int),
            sum_y == sum_prices(i as int),
            0 <= sum_x <= 30 * (i as int),
            0 <= sum_y <= 3800 * (i as int),
        decreases SERIES_LEN - i,
    {
        let e = series_entry(i);
        proof {
            lemma_entry_bounds(i as int);
        }
        sum_x = sum_x + e.0 as i64;
        sum_y = sum_y + e.1 as i64;
        i = i + 1;
    }
    let mean_x = ((sum_x as u64) / (SERIES_LEN as u64)) as i64;
    let mean_y = ((sum_y as u64) / (SERIES_LEN as u64)) as i64;
    proof {
        lemma_series_stats();
        assert(mean_x == spec_mean_time());
        assert(mean_y == spec_mean_price());
    }
    let mut num: i64 = 0;
    let mut den: i64 = 0;
    let mut sst: i64 = 0;
    let mut j: usize = 0;
    while j < SERIES_LEN
        invariant
            j <= SERIES_LEN,
            mean_x == 15,
            mean_y == 3430,
            num == sum_dev_prod(j as int, mean_x as int, mean_y as int),
            den == sum_dev_sq(j as int, mean_x as int),
            sst == sum_price_dev_sq(j as int, mean_y as int),
            -5550 * (j as int) <= num <= 5550 * (j as int),
            0 <= den <= 225 * (j as int),
            0 <= sst <= 136900 * (j as int),
        decreases SERIES_LEN - j,
    {
        let e = series_entry(j);
        proof {
            lemma_entry_bounds(j as int);
        }
        let xd = e.0 as i64 - mean_x;
        let yd = e.1 as i64 - mean_y;
        proof {
            assert(-5550 <= xd * yd <= 5550) by (nonlinear_arith)
                requires
                    -14 <= xd <= 15,
                    -330 <= yd <= 370,
            ;
            assert(0 <= xd * xd <= 225) by (nonlinear_arith)
                requires
                    -14 <= xd <= 15,
            ;
            assert(0 <= yd * yd <= 136900) by (nonlinear_arith)
                requires
                    -330 <= yd <= 370,
            ;
        }
        num = num + xd * yd;
        den = den + xd * xd;
        sst = sst + yd * yd;
        j = j + 1;
    }
    let slope: i64 = if den != 0 {
        proof {
            lemma_series_stats();
            assert(num == 41486);
            assert(den == 2255);
        }
        ((num as u64) / (den as u64)) as i64
    } else {
        0
    };
    let intercept = mean_y - slope * mean_x;
    proof {
        lemma_series_stats();
        assert(slope == spec_slope());
        assert(intercept == spec_intercept());
    }
    let mut sse: i64 = 0;
    let mut k: usize = 0;
    while k < SERIES_LEN
        invariant
            k <= SERIES_LEN,
            slope == 18,
            intercept == 3160,
            sse == sum_sq_err(k as int, slope as int, intercept as int),
            0 <= sse <= 386884 * (k as int),
        decreases SERIES_LEN - k,
    {
        let e = series_entry(k);
        proof {
            lemma_entry_bounds(k as int);
        }
        let predicted = slope * (e.0 as i64) + intercept;
        let err = e.1 as i64 - predicted;
        proof {
            assert(0 <= err * err <= 386884) by (nonlinear_arith)
                requires
                    -600 <= err <= 622,
            ;
        }
        sse = sse + err * err;
        k = k + 1;
    }
    let r_squared: u64 = if sst > 0 {
        proof {
            lemma_series_stats();
            assert(sst == 780114);
            assert(sse == 17238);
        }
        let ratio = (((sst - sse) as u64) * 100 / (sst as u64)) as i64;
        if ratio > 0 {
            ratio as u64
        } else {
            0
        }
    } else {
        0
    };
    let confidence = if r_squared < 100 {
        r_squared
    } else {
        100
    };
    proof {
        lemma_series_stats();
        assert(confidence == spec_confidence());
    }
    (slope, intercept, confidence)
}

/// Runs the forecaster on one observed amount, given in the smallest
/// integer unit of the asset. Pure integer arithmetic over the fixed
/// table: equal inputs always give equal results.
pub fn run(observed_amount: u64) -> (r: SignalResult)
    ensures
        r == spec_run(observed_amount),
{
    proof {
        lemma_series_stats();
    }
    let (slope, intercept, confidence) = linear_regression();
    let next_time = (SERIES_LEN as i64) + 1;
    let forecast_native = (slope * next_time + intercept) as u64;
    let threshold = ASSUMED_NATIVE_PRICE + ASSUMED_NATIVE_PRICE / 200;
    let decision: u8 = if forecast_native > threshold {
        1
    } else {
        0
    };
    let forecast_value: u128 = if ASSUMED_NATIVE_PRICE > 0 {
        (observed_amount as u128) * (forecast_native as u128) / (ASSUMED_NATIVE_PRICE as u128)
    } else {
        observed_amount as u128
    };
    proof {
        assert(forecast_native == spec_forecast_native());
        assert(decision == spec_decision());
        assert(forecast_value == spec_forecast_value(observed_amount));
        lemma_uint256_of_small(spec_confidence() as nat);
        lemma_uint256_of_small(spec_forecast_value(observed_amount) as nat);
    }
    SignalResult {
        decision,
        confidence: Uint256 { hi: 0, lo: confidence as u128 },
        forecast_value: Uint256 { hi: 0, lo: forecast_value },
    }
}

/// The forecaster's committed output for one observed amount: the
/// canonical 96-byte encoding of the run's result.
pub fn signal_journal(observed_amount: u64) -> (out: Vec<u8>)
    ensures
        out@.len() == 96,
        is_encoding(out@, spec_run(observed_amount)),
{
    let r = run(observed_amount);
    encode(&r)
}

/// Reads the forecaster's input: one 32-byte big-endian unsigned
/// integer, of which the low 64 bits are the observed amount. Any other
/// length is rejected.
pub fn parse_observed_amount(input: &[u8]) -> (r: Option<u64>)
    ensures
        input@.len() == 32 ==> r == Some((be_val(input@) % 0x10000000000000000nat) as u64),
        input@.len() != 32 ==> r is None,
{
    if input.len() != 32 {
        return None;
    }
    let w = read_u256(input, 0);
    proof {
        assert(input@.subrange(0, 32) =~= input@);
    }
    Some(w.low_u64())
}

/// Law: the forecaster is deterministic. Two runs on the same observed
/// amount, over the same fixed table, give the same result.
pub proof fn lemma_run_deterministic(a1: u64, a2: u64)
    requires
        a1 == a2,
    ensures
        spec_run(a1) == spec_run(a2),
{
}

/// Law: the decision is taken in native-unit space before any
/// rescaling, so it does not depend on the observed amount.
pub proof fn lemma_decision_amount_invariant(a1: u64, a2: u64)
    ensures
        spec_run(a1).decision == spec_run(a2).decision,
{
}

} // verus!

//! The two-proportion z-test: samples, outcomes, and the decision procedure.
//!
//! Rates and the critical value are written in millionths (`SCALE` stands for 1).
//! With `n` the total size, `p` the pooled proportion and `se` the standard error
//! of the difference, the squared quantities of the test are exact fractions:
//!
//! - `p * (1 - p) == spread / (SCALE * n)^2`
//! - `se^2 == spread / (SCALE^2 * weight)`
//! - `z^2 == statistic_sq_num / statistic_sq_den`
use crate::wide::{exceeds, mul_wide};
use vstd::arithmetic::div_mod::lemma_fundamental_div_mod;
use vstd::prelude::*;

verus! {

/// One, in millionths.
pub const SCALE: u32 = 1_000_000;

/// The smallest sample size that the default configuration accepts.
pub const DEFAULT_MIN_SAMPLE_SIZE: u32 = 5;

/// 1.96 in millionths: the two-sided critical value at 95% confidence.
pub const DEFAULT_Z_CRITICAL: u32 = 1_960_000;

/// The observed conversion rate of one variant and the number of exposures behind it.
#[derive(Clone, Copy, Debug, PartialEq, Eq, Structural)]
pub struct VariantSample {
    /// Conversion rate in millionths; meaningful in `0..=SCALE`.
    pub rate: u32,
    /// Number of exposures.
    pub size: u32,
}

/// One of the two variants under test.
#[derive(Clone, Copy, Debug, PartialEq, Eq, Structural)]
pub enum Variant {
    A,
    B,
}

/// The result of a test.
#[derive(Clone, Copy, Debug, PartialEq, Eq, Structural)]
pub enum TestOutcome {
    /// The rates differ significantly. `low` and `high` bound the absolute
    /// difference of the rates, in millionths: its value minus and plus the
    /// margin of error, which is rounded up to whole millionths.
    Significant { winner: Variant, low: i64, high: i64 },
    /// No variant can be declared better.
    NotSignificant,
    /// A sample is smaller than the configured minimum, or empty.
    InsufficientData,
    /// A rate lies above one.
    InvalidInput,
}

/// The parameters of a test.
#[derive(Clone, Copy, Debug, PartialEq, Eq, Structural)]
pub struct TestConfig {
    /// Samples smaller than this are not tested.
    pub min_sample_size: u32,
    /// The critical value of the z-statistic, in millionths.
    pub z_critical: u32,
}

impl VariantSample {
    pub open spec fn rate_in_range(self) -> bool {
        self.rate <= SCALE
    }

    pub fn new(rate: u32, size: u32) -> (r: Self)
        ensures
            r.rate == rate,
            r.size == size,
    {
        VariantSample { rate, size }
    }

    /// The sample of `exposures` exposures of which `conversions` converted,
    /// its rate rounded to the nearest millionth (halves up). `None` where there
    /// are no exposures or more conversions than exposures.
    pub fn from_counts(conversions: u32, exposures: u32) -> (r: Option<Self>)
        ensures
            r is None <==> (exposures == 0 || conversions > exposures),
            r matches Some(s) ==> {
                &&& s.size == exposures
                &&& s.rate == rounded_rate(conversions as int, exposures as int)
                &&& s.rate_in_range()
            },
    {
        if exposures == 0 || conversions > exposures {
            return None;
        }
        let e = exposures as u64;
        let scaled: u64 = conversions as u64 * SCALE as u64 + e / 2;
        let rate = scaled / e;
        proof {
            lemma_fundamental_div_mod(scaled as int, e as int);
            assert(rate <= SCALE) by (nonlinear_arith)
                requires
                    rate * e <= scaled,
                    scaled < e * (SCALE + 1),
                    e > 0,
            ;
        }
        Some(VariantSample { rate: rate as u32, size: exposures })
    }
}

/// `conversions / exposures` in millionths, rounded to nearest with halves up.
pub open spec fn rounded_rate(conversions: int, exposures: int) -> int {
    (conversions * SCALE + exposures / 2) / exposures
}

impl TestConfig {
    pub fn new(min_sample_size: u32, z_critical: u32) -> (r: Self)
        ensures
            r.min_sample_size == min_sample_size,
            r.z_critical == z_critical,
    {
        TestConfig { min_sample_size, z_critical }
    }
}

impl Default for TestConfig {
    /// A minimum of five exposures per sample and 95% confidence.
    fn default() -> (r: Self)
        ensures
            r.min_sample_size == DEFAULT_MIN_SAMPLE_SIZE,
            r.z_critical == DEFAULT_Z_CRITICAL,
    {
        TestConfig { min_sample_size: DEFAULT_MIN_SAMPLE_SIZE, z_critical: DEFAULT_Z_CRITICAL }
    }
}

/// Total number of exposures.
pub open spec fn total_size(a: VariantSample, b: VariantSample) -> int {
    a.size + b.size
}

/// The pooled proportion, times `SCALE * total_size`.
pub open spec fn pooled_count(a: VariantSample, b: VariantSample) -> int {
    a.rate * a.size + b.rate * b.size
}

/// `p * (1 - p)` of the pooled proportion `p`, times `(SCALE * total_size)^2`.
pub open spec fn spread(a: VariantSample, b: VariantSample) -> int {
    pooled_count(a, b) * (SCALE * total_size(a, b) - pooled_count(a, b))
}

/// `total_size * a.size * b.size`: the reciprocal of `1/a.size + 1/b.size`, times `total_size^2`.
pub open spec fn weight(a: VariantSample, b: VariantSample) -> int {
    total_size(a, b) * a.size * b.size
}

/// The absolute difference of the rates, in millionths.
pub open spec fn rate_gap(a: VariantSample, b: VariantSample) -> int {
    if a.rate >= b.rate {
        a.rate - b.rate
    } else {
        b.rate - a.rate
    }
}

/// Numerator of the squared z-statistic.
pub open spec fn statistic_sq_num(a: VariantSample, b: VariantSample) -> int {
    rate_gap(a, b) * rate_gap(a, b) * weight(a, b)
}

/// Denominator of the squared z-statistic; zero when the standard error is zero.
pub open spec fn statistic_sq_den(a: VariantSample, b: VariantSample) -> int {
    spread(a, b)
}

/// The z-statistic exceeds `z_critical / SCALE`: false where the standard
/// error is zero.
pub open spec fn significant(a: VariantSample, b: VariantSample, z_critical: int) -> bool {
    statistic_sq_num(a, b) * (SCALE * SCALE) > z_critical * z_critical * statistic_sq_den(a, b)
}

/// `m` millionths are at least the margin of error `z_critical * se`.
pub open spec fn margin_covers(m: int, a: VariantSample, b: VariantSample, z_critical: int) -> bool {
    m * m * (SCALE * SCALE) * weight(a, b) >= z_critical * z_critical * spread(a, b)
}

/// `m` is the margin of error rounded up to whole millionths.
pub open spec fn is_margin(m: int, a: VariantSample, b: VariantSample, z_critical: int) -> bool {
    &&& 0 <= m
    &&& margin_covers(m, a, b, z_critical)
    &&& forall|k: int| 0 <= k < m ==> !#[trigger] margin_covers(k, a, b, z_critical)
}

/// The margin of error in whole millionths, rounded up.
pub open spec fn margin(a: VariantSample, b: VariantSample, z_critical: int) -> int {
    choose|m: int| is_margin(m, a, b, z_critical)
}

/// Both samples are non-empty and reach the configured minimum.
pub open spec fn sizes_sufficient(a: VariantSample, b: VariantSample, config: TestConfig) -> bool {
    &&& a.size >= config.min_sample_size
    &&& b.size >= config.min_sample_size
    &&& a.size > 0
    &&& b.size > 0
}

/// The outcome of testing `a` against `b`.
pub open spec fn outcome(a: VariantSample, b: VariantSample, config: TestConfig) -> TestOutcome {
    if !sizes_sufficient(a, b, config) {
        TestOutcome::InsufficientData
    } else if !(a.rate_in_range() && b.rate_in_range()) {
        TestOutcome::InvalidInput
    } else if significant(a, b, config.z_critical as int) {
        let m = margin(a, b, config.z_critical as int);
        TestOutcome::Significant {
            winner: if a.rate > b.rate {
                Variant::A
            } else {
                Variant::B
            },
            low: (rate_gap(a, b) - m) as i64,
            high: (rate_gap(a, b) + m) as i64,
        }
    } else {
        TestOutcome::NotSignificant
    }
}

/// Samples that the statistic is computed for.
pub open spec fn testable(a: VariantSample, b: VariantSample) -> bool {
    &&& a.size > 0
    &&& b.size > 0
    &&& a.rate_in_range()
    &&& b.rate_in_range()
}

/// The pooled count lies between none and all, so the spread is non-negative
/// and at most `SCALE^2 * weight`; the weight of non-empty samples is positive.
pub proof fn lemma_pooled_bounds(a: VariantSample, b: VariantSample)
    requires
        testable(a, b),
    ensures
        0 <= pooled_count(a, b) <= SCALE * total_size(a, b),
        0 <= spread(a, b),
        spread(a, b) <= (SCALE * SCALE) * weight(a, b),
        0 < weight(a, b),
{
    let s = SCALE as int;
    let na = a.size as int;
    let nb = b.size as int;
    let ra = a.rate as int;
    let rb = b.rate as int;
    let n = na + nb;
    let p = pooled_count(a, b);
    assert(0 <= ra * na <= s * na) by (nonlinear_arith)
        requires
            0 <= ra <= s,
            0 < na,
    ;
    assert(0 <= rb * nb <= s * nb) by (nonlinear_arith)
        requires
            0 <= rb <= s,
            0 < nb,
    ;
    assert(s * n == s * na + s * nb) by (nonlinear_arith)
        requires
            n == na + nb,
    ;
    let t = s * n;
    assert(0 <= p * (t - p)) by (nonlinear_arith)
        requires
            0 <= p <= t,
    ;
    assert(4 * (p * (t - p)) <= t * t) by (nonlinear_arith);
    assert(n <= 4 * (na * nb)) by (nonlinear_arith)
        requires
            n == na + nb,
            0 < na,
            0 < nb,
    ;
    assert(t * t <= 4 * ((s * s) * (n * na * nb))) by (nonlinear_arith)
        requires
            t == s * n,
            n <= 4 * (na * nb),
            0 < n,
    ;
    assert(0 < n * na * nb) by (nonlinear_arith)
        requires
            0 < na,
            0 < nb,
            n == na + nb,
    ;
}

/// A number of millionths that covers the margin stays covering when increased.
pub proof fn lemma_covers_monotone(k: int, m: int, a: VariantSample, b: VariantSample, z: int)
    requires
        0 <= k <= m,
        0 <= weight(a, b),
        margin_covers(k, a, b, z),
    ensures
        margin_covers(m, a, b, z),
{
    assert(k * k * (SCALE * SCALE) * weight(a, b) <= m * m * (SCALE * SCALE) * weight(a, b))
        by (nonlinear_arith)
        requires
            0 <= k <= m,
            0 <= weight(a, b),
    ;
}

/// There is at most one margin.
pub proof fn lemma_margin_unique(m1: int, m2: int, a: VariantSample, b: VariantSample, z: int)
    requires
        is_margin(m1, a, b, z),
        is_margin(m2, a, b, z),
    ensures
        m1 == m2,
{
    if m1 < m2 {
        assert(margin_covers(m1, a, b, z));
    } else if m2 < m1 {
        assert(margin_covers(m2, a, b, z));
    }
}

/// The margin exists, and is at most any whole number of millionths that covers it.
pub proof fn lemma_margin_at_most(n: int, a: VariantSample, b: VariantSample, z: int)
    requires
        0 <= n,
        0 <= weight(a, b),
        margin_covers(n, a, b, z),
    ensures
        is_margin(margin(a, b, z), a, b, z),
        margin(a, b, z) <= n,
    decreases n,
{
    if n > 0 && margin_covers(n - 1, a, b, z) {
        lemma_margin_at_most(n - 1, a, b, z);
    } else {
        assert forall|k: int| 0 <= k < n implies !#[trigger] margin_covers(k, a, b, z) by {
            if margin_covers(k, a, b, z) {
                lemma_covers_monotone(k, n - 1, a, b, z);
            }
        }
        assert(is_margin(n, a, b, z));
        lemma_margin_unique(margin(a, b, z), n, a, b, z);
    }
}

/// The critical value itself, in millionths, covers the margin.
pub proof fn lemma_critical_covers(a: VariantSample, b: VariantSample, z: int)
    requires
        testable(a, b),
    ensures
        margin_covers(z, a, b, z),
{
    lemma_pooled_bounds(a, b);
    let c = (SCALE * SCALE) * weight(a, b);
    let sp = spread(a, b);
    assert(z * z * (SCALE * SCALE) * weight(a, b) >= z * z * sp) by (nonlinear_arith)
        requires
            sp <= c,
            c == (SCALE * SCALE) * weight(a, b),
    ;
}

/// Equal rates never give a significant difference.
pub proof fn lemma_equal_rates_insignificant(a: VariantSample, b: VariantSample, z: int)
    requires
        testable(a, b),
        a.rate == b.rate,
    ensures
        !significant(a, b, z),
{
    lemma_pooled_bounds(a, b);
    assert(rate_gap(a, b) == 0);
    let g = rate_gap(a, b);
    assert(g * g * weight(a, b) == 0) by (nonlinear_arith)
        requires
            g == 0,
    ;
    let sp = spread(a, b);
    assert(z * z * sp >= 0) by (nonlinear_arith)
        requires
            sp >= 0,
    ;
}

/// Whether `m` millionths cover the margin, over the values of the formula.
fn covers(m: u64, z: u64, weight_value: u128, spread_value: u128) -> (r: bool)
    requires
        m <= u32::MAX,
        z <= u32::MAX,
    ensures
        r == (m * m * (SCALE * SCALE) * weight_value >= z * z * spread_value),
{
    assert(m * m <= u32::MAX * u32::MAX) by (nonlinear_arith)
        requires
            m <= u32::MAX,
    ;
    assert(z * z <= u32::MAX * u32::MAX) by (nonlinear_arith)
        requires
            z <= u32::MAX,
    ;
    let scale_sq: u128 = SCALE as u128 * SCALE as u128;
    let mm: u128 = (m * m) as u128;
    let zz: u128 = (z * z) as u128;
    assert(mm * scale_sq <= u32::MAX * u32::MAX * (SCALE * SCALE)) by (nonlinear_arith)
        requires
            mm <= u32::MAX * u32::MAX,
            scale_sq == SCALE * SCALE,
    ;
    let lhs = mul_wide(mm * scale_sq, weight_value);
    let rhs = mul_wide(zz, spread_value);
    !exceeds(rhs, lhs)
}

/// The margin of error in whole millionths, rounded up, found by bisection.
fn least_margin(a: VariantSample, b: VariantSample, z: u32, weight_value: u128, spread_value: u128) -> (m: u64)
    requires
        testable(a, b),
        weight_value == weight(a, b),
        spread_value == spread(a, b),
    ensures
        m == margin(a, b, z as int),
        m <= z,
{
    proof {
        lemma_pooled_bounds(a, b);
        lemma_critical_covers(a, b, z as int);
    }
    let mut lo: u64 = 0;
    let mut hi: u64 = z as u64;
    while lo < hi
        invariant
            lo <= hi <= z,
            weight_value == weight(a, b),
            spread_value == spread(a, b),
            0 < weight(a, b),
            margin_covers(hi as int, a, b, z as int),
            forall|k: int| 0 <= k < lo ==> !#[trigger] margin_covers(k, a, b, z as int),
        decreases hi - lo,
    {
        let mid = lo + (hi - lo) / 2;
        if covers(mid, z as u64, weight_value, spread_value) {
            hi = mid;
        } else {
            proof {
                assert forall|k: int| 0 <= k < mid + 1 implies !#[trigger] margin_covers(
                    k,
                    a,
                    b,
                    z as int,
                ) by {
                    if margin_covers(k, a, b, z as int) {
                        lemma_covers_monotone(k, mid as int, a, b, z as int);
                    }
                }
            }
            lo = mid + 1;
        }
    }
    proof {
        assert(is_margin(lo as int, a, b, z as int));
        lemma_margin_at_most(lo as int, a, b, z as int);
        lemma_margin_unique(margin(a, b, z as int), lo as int, a, b, z as int);
    }
    lo
}

/// Tests whether the conversion rates of `a` and `b` differ significantly.
///
/// The size check comes first, then the range of the rates; only then is the
/// statistic computed.
pub fn evaluate(a: VariantSample, b: VariantSample, config: &TestConfig) -> (r: TestOutcome)
    ensures
        r == outcome(a, b, *config),
        r matches TestOutcome::Significant { winner, low, high } ==> {
            &&& 0 <= low <= high
            &&& a.rate != b.rate
        },
{
    if a.size < config.min_sample_size || b.size < config.min_sample_size || a.size == 0
        || b.size == 0 {
        return TestOutcome::InsufficientData;
    }
    if a.rate > SCALE || b.rate > SCALE {
        return TestOutcome::InvalidInput;
    }
    proof {
        lemma_pooled_bounds(a, b);
    }
    let na = a.size as u64;
    let nb = b.size as u64;
    let ra = a.rate as u64;
    let rb = b.rate as u64;
    let total: u64 = na + nb;
    let pooled: u64 = ra * na + rb * nb;
    let scaled_total: u64 = SCALE as u64 * total;
    assert(pooled * (scaled_total - pooled) <= scaled_total * scaled_total) by (nonlinear_arith)
        requires
            0 <= pooled <= scaled_total,
    ;
    assert(scaled_total * scaled_total <= 0x20_0000_0000_0000 * 0x20_0000_0000_0000)
        by (nonlinear_arith)
        requires
            scaled_total <= 0x20_0000_0000_0000,
    ;
    let spread_value: u128 = pooled as u128 * (scaled_total - pooled) as u128;
    assert(total * na * nb <= 0x2_0000_0000 * u32::MAX * u32::MAX) by (nonlinear_arith)
        requires
            total <= 0x2_0000_0000,
            na <= u32::MAX,
            nb <= u32::MAX,
    ;
    assert(total * na <= 0x2_0000_0000 * u32::MAX) by (nonlinear_arith)
        requires
            total <= 0x2_0000_0000,
            na <= u32::MAX,
    ;
    let weight_value: u128 = total as u128 * na as u128 * nb as u128;
    let gap: u64 = if ra >= rb {
        ra - rb
    } else {
        rb - ra
    };
    let z = config.z_critical;
    assert(gap * gap * (SCALE * SCALE) <= SCALE * SCALE * (SCALE * SCALE)) by (nonlinear_arith)
        requires
            gap <= SCALE,
    ;
    let scale_sq: u128 = SCALE as u128 * SCALE as u128;
    let gap_sq: u128 = gap as u128 * gap as u128 * scale_sq;
    assert(z * z <= u32::MAX * u32::MAX) by (nonlinear_arith)
        requires
            z <= u32::MAX,
    ;
    let z_sq: u128 = z as u128 * z as u128;
    let lhs = mul_wide(gap_sq, weight_value);
    let rhs = mul_wide(z_sq, spread_value);
    assert(gap_sq * weight_value == gap * gap * weight_value * (SCALE * SCALE)) by (nonlinear_arith)
        requires
            gap_sq == gap * gap * scale_sq,
            scale_sq == SCALE * SCALE,
    ;
    if exceeds(lhs, rhs) {
        let m = least_margin(a, b, z, weight_value, spread_value);
        let winner = if a.rate > b.rate {
            Variant::A
        } else {
            Variant::B
        };
        proof {
            if a.rate == b.rate {
                lemma_equal_rates_insignificant(a, b, z as int);
            }
            lemma_margin_at_most(gap as int, a, b, z as int);
        }
        TestOutcome::Significant { winner, low: gap as i64 - m as i64, high: gap as i64 + m as i64 }
    } else {
        TestOutcome::NotSignificant
    }
}

/// Tests rate `rate_a` (millionths) over `size_a` exposures against rate
/// `rate_b` over `size_b`, with at least five exposures each and 95% confidence.
pub fn ab_conversion_test(rate_a: u32, size_a: u32, rate_b: u32, size_b: u32) -> (r: TestOutcome)
    ensures
        r == outcome(
            VariantSample { rate: rate_a, size: size_a },
            VariantSample { rate: rate_b, size: size_b },
            TestConfig { min_sample_size: DEFAULT_MIN_SAMPLE_SIZE, z_critical: DEFAULT_Z_CRITICAL },
        ),
{
    let config = TestConfig::default();
    evaluate(VariantSample::new(rate_a, size_a), VariantSample::new(rate_b, size_b), &config)
}

} // verus!

//! Properties of the test that relate several inputs or several calls.
use crate::proportion::{
    lemma_critical_covers, lemma_equal_rates_insignificant, lemma_margin_at_most,
    lemma_margin_unique, lemma_pooled_bounds, margin, margin_covers, outcome, pooled_count,
    rate_gap, significant, sizes_sufficient, spread, statistic_sq_den, statistic_sq_num, testable,
    total_size, weight, TestConfig, TestOutcome, Variant, VariantSample, SCALE,
};
use vstd::prelude::*;

verus! {

/// The other variant.
pub open spec fn other(v: Variant) -> Variant {
    match v {
        Variant::A => Variant::B,
        Variant::B => Variant::A,
    }
}

/// The same outcome with the roles of the two variants exchanged.
pub open spec fn mirrored(o: TestOutcome) -> TestOutcome {
    match o {
        TestOutcome::Significant { winner, low, high } => TestOutcome::Significant {
            winner: other(winner),
            low,
            high,
        },
        _ => o,
    }
}

/// Samples with equal rates, both large enough, are never significantly different.
pub proof fn lemma_equal_rates_not_significant(
    a: VariantSample,
    b: VariantSample,
    config: TestConfig,
)
    requires
        sizes_sufficient(a, b, config),
        a.rate_in_range(),
        b.rate_in_range(),
        a.rate == b.rate,
    ensures
        outcome(a, b, config) == TestOutcome::NotSignificant,
{
    lemma_equal_rates_insignificant(a, b, config.z_critical as int);
}

/// Where the standard error is zero (no conversions at all, or only
/// conversions), the samples are not significantly different.
pub proof fn lemma_zero_error_not_significant(
    a: VariantSample,
    b: VariantSample,
    config: TestConfig,
)
    requires
        sizes_sufficient(a, b, config),
        a.rate_in_range(),
        b.rate_in_range(),
        spread(a, b) == 0,
    ensures
        outcome(a, b, config) == TestOutcome::NotSignificant,
{
    lemma_pooled_bounds(a, b);
    let s = SCALE as int;
    let na = a.size as int;
    let nb = b.size as int;
    let ra = a.rate as int;
    let rb = b.rate as int;
    let p = pooled_count(a, b);
    let t = s * total_size(a, b);
    assert(p == 0 || p == t) by (nonlinear_arith)
        requires
            p * (t - p) == 0,
    ;
    assert(s * total_size(a, b) == s * na + s * nb) by (nonlinear_arith)
        requires
            total_size(a, b) == na + nb,
    ;
    assert(ra == rb) by (nonlinear_arith)
        requires
            p == ra * na + rb * nb,
            p == 0 || p == s * na + s * nb,
            0 <= ra <= s,
            0 <= rb <= s,
            0 < na,
            0 < nb,
    ;
    lemma_equal_rates_insignificant(a, b, config.z_critical as int);
}

/// A sample below the minimum size gives `InsufficientData`, whatever the rates.
pub proof fn lemma_small_sample_insufficient(a: VariantSample, b: VariantSample, config: TestConfig)
    requires
        a.size < config.min_sample_size || b.size < config.min_sample_size,
    ensures
        outcome(a, b, config) == TestOutcome::InsufficientData,
{
}

/// The outcome depends on the inputs alone: equal inputs give equal outcomes.
pub proof fn lemma_outcome_deterministic(
    a1: VariantSample,
    b1: VariantSample,
    config1: TestConfig,
    a2: VariantSample,
    b2: VariantSample,
    config2: TestConfig,
)
    requires
        a1 == a2,
        b1 == b2,
        config1 == config2,
    ensures
        outcome(a1, b1, config1) == outcome(a2, b2, config2),
{
}

/// Exchanging the samples exchanges the winner and keeps the decision and the
/// interval.
pub proof fn lemma_symmetry(a: VariantSample, b: VariantSample, config: TestConfig)
    ensures
        outcome(b, a, config) == mirrored(outcome(a, b, config)),
{
    let z = config.z_critical as int;
    if sizes_sufficient(a, b, config) && a.rate_in_range() && b.rate_in_range() {
        let n = total_size(a, b);
        let na = a.size as int;
        let nb = b.size as int;
        assert(n * na * nb == n * nb * na) by (nonlinear_arith);
        assert(weight(a, b) == weight(b, a));
        assert(pooled_count(a, b) == pooled_count(b, a));
        assert(spread(a, b) == spread(b, a));
        assert(rate_gap(a, b) == rate_gap(b, a));
        assert(significant(a, b, z) == significant(b, a, z));
        if significant(a, b, z) {
            lemma_pooled_bounds(a, b);
            lemma_pooled_bounds(b, a);
            lemma_critical_covers(a, b, z);
            lemma_critical_covers(b, a, z);
            lemma_margin_at_most(z, a, b, z);
            lemma_margin_at_most(z, b, a, z);
            let m = margin(b, a, z);
            assert forall|k: int| #[trigger]
                margin_covers(k, a, b, z) == margin_covers(k, b, a, z) by {}
            assert(margin_covers(m, a, b, z));
            lemma_margin_unique(margin(a, b, z), m, a, b, z);
            if a.rate == b.rate {
                lemma_equal_rates_insignificant(a, b, z);
            }
        }
    }
}

proof fn lemma_gap_core(c: int, e: int, w: int, x: int, x2: int)
    requires
        0 <= c,
        0 < e,
        0 < w,
        0 < x < x2,
        w * x2 < e,
    ensures
        (c + w * x) * (e - w * x) > 0,
        (c + w * x2) * (e - w * x2) > 0,
        x2 * x2 * ((c + w * x) * (e - w * x)) > x * x * ((c + w * x2) * (e - w * x2)),
{
    let q = (c + w * x) * (e - w * x);
    let q2 = (c + w * x2) * (e - w * x2);
    assert(q > 0) by (nonlinear_arith)
        requires
            q == (c + w * x) * (e - w * x),
            0 <= c,
            0 < w,
            0 < x < x2,
            w * x2 < e,
    ;
    assert(q2 > 0) by (nonlinear_arith)
        requires
            q2 == (c + w * x2) * (e - w * x2),
            0 <= c,
            0 < w,
            0 < x2,
            w * x2 < e,
    ;
    let u = w * x;
    let u2 = w * x2;
    let ce = c * e;
    let xx = x * x;
    let xx2 = x2 * x2;
    let ec = e - c;
    assert(q == ce + ec * u - u * u) by (nonlinear_arith)
        requires
            q == (c + u) * (e - u),
            ce == c * e,
            ec == e - c,
    ;
    assert(q2 == ce + ec * u2 - u2 * u2) by (nonlinear_arith)
        requires
            q2 == (c + u2) * (e - u2),
            ce == c * e,
            ec == e - c,
    ;
    assert(xx2 * q == xx2 * ce + ec * (xx2 * u) - xx2 * (u * u)) by (nonlinear_arith)
        requires
            q == ce + ec * u - u * u,
    ;
    assert(xx * q2 == xx * ce + ec * (xx * u2) - xx * (u2 * u2)) by (nonlinear_arith)
        requires
            q2 == ce + ec * u2 - u2 * u2,
    ;
    assert(xx2 * (u * u) == xx * (u2 * u2)) by (nonlinear_arith)
        requires
            xx == x * x,
            xx2 == x2 * x2,
            u == w * x,
            u2 == w * x2,
    ;
    let cross = w * (x * x2);
    assert(xx2 * u - xx * u2 == cross * (x2 - x)) by (nonlinear_arith)
        requires
            xx == x * x,
            xx2 == x2 * x2,
            u == w * x,
            u2 == w * x2,
            cross == w * (x * x2),
    ;
    assert(xx2 * ce - xx * ce == ce * (x + x2) * (x2 - x)) by (nonlinear_arith)
        requires
            xx == x * x,
            xx2 == x2 * x2,
    ;
    let bracket = ce * (x + x2) + ec * cross;
    assert(ec * (xx2 * u) - ec * (xx * u2) == ec * cross * (x2 - x)) by (nonlinear_arith)
        requires
            xx2 * u - xx * u2 == cross * (x2 - x),
    ;
    assert(ce * (x + x2) * (x2 - x) + ec * cross * (x2 - x) == (x2 - x) * bracket)
        by (nonlinear_arith)
        requires
            bracket == ce * (x + x2) + ec * cross,
    ;
    assert(x2 * x2 * q - x * x * q2 == (x2 - x) * bracket);
    if e >= c {
        assert(bracket > 0) by (nonlinear_arith)
            requires
                bracket == ce * (x + x2) + ec * cross,
                ce == c * e,
                ec == e - c,
                cross == w * (x * x2),
                0 <= c <= e,
                0 < e,
                0 < w,
                0 < x < x2,
        ;
    } else {
        assert(w * (c - e) * (x * x2) <= x * e * (c - e)) by (nonlinear_arith)
            requires
                w * x2 < e,
                c > e,
                0 < x,
        ;
        assert(bracket > 0) by (nonlinear_arith)
            requires
                bracket == ce * (x + x2) + ec * cross,
                ce == c * e,
                ec == e - c,
                cross == w * (x * x2),
                w * (c - e) * (x * x2) <= x * e * (c - e),
                c > e,
                0 < e,
                0 < x < x2,
        ;
    }
    assert((x2 - x) * bracket > 0) by (nonlinear_arith)
        requires
            x < x2,
            bracket > 0,
    ;
}

/// With the sizes and the rate of `b` held fixed, moving the rate of `a`
/// further away from that of `b`, on the same side of it, strictly increases
/// the z-statistic: `z(a2, b)^2 > z(a, b)^2`, both with a non-zero standard
/// error.
pub proof fn lemma_wider_gap_larger_statistic(a: VariantSample, a2: VariantSample, b: VariantSample)
    requires
        testable(a, b),
        testable(a2, b),
        a2.size == a.size,
        (b.rate < a.rate < a2.rate) || (a2.rate < a.rate < b.rate),
    ensures
        statistic_sq_den(a, b) > 0,
        statistic_sq_den(a2, b) > 0,
        statistic_sq_num(a2, b) * statistic_sq_den(a, b) > statistic_sq_num(a, b)
            * statistic_sq_den(a2, b),
{
    lemma_pooled_bounds(a, b);
    let s = SCALE as int;
    let n = total_size(a, b);
    let na = a.size as int;
    let nb = b.size as int;
    let rb = b.rate as int;
    let ra = a.rate as int;
    let ra2 = a2.rate as int;
    let k = weight(a, b);
    assert(weight(a2, b) == k);
    assert(rb * n == rb * na + rb * nb) by (nonlinear_arith)
        requires
            n == na + nb,
    ;
    assert(s * n == s * na + s * nb) by (nonlinear_arith)
        requires
            n == na + nb,
    ;
    let x = rate_gap(a, b);
    let x2 = rate_gap(a2, b);
    if b.rate < a.rate {
        let c = rb * n;
        let e = n * (s - rb);
        assert(na * ra == na * rb + na * x) by (nonlinear_arith)
            requires
                x == ra - rb,
        ;
        assert(na * ra2 == na * rb + na * x2) by (nonlinear_arith)
            requires
                x2 == ra2 - rb,
        ;
        assert(n * (s - rb) == s * n - rb * n) by (nonlinear_arith);
        assert(pooled_count(a, b) == c + na * x) by (nonlinear_arith)
            requires
                pooled_count(a, b) == ra * na + rb * nb,
                na * ra == na * rb + na * x,
                rb * n == rb * na + rb * nb,
                c == rb * n,
        ;
        assert(pooled_count(a2, b) == c + na * x2) by (nonlinear_arith)
            requires
                pooled_count(a2, b) == ra2 * na + rb * nb,
                na * ra2 == na * rb + na * x2,
                rb * n == rb * na + rb * nb,
                c == rb * n,
        ;
        assert(0 <= c) by (nonlinear_arith)
            requires
                c == rb * n,
                0 <= rb,
                0 < n,
        ;
        assert(na * x2 < e) by (nonlinear_arith)
            requires
                e == n * (s - rb),
                n == na + nb,
                0 < nb,
                0 < na,
                rb < ra2 <= s,
                x2 == ra2 - rb,
        ;
        lemma_gap_core(c, e, na, x, x2);
    } else {
        let c = n * (s - rb);
        let e = rb * n;
        assert(na * ra == na * rb - na * x) by (nonlinear_arith)
            requires
                x == rb - ra,
        ;
        assert(na * ra2 == na * rb - na * x2) by (nonlinear_arith)
            requires
                x2 == rb - ra2,
        ;
        assert(n * (s - rb) == s * n - rb * n) by (nonlinear_arith);
        assert(pooled_count(a, b) == e - na * x) by (nonlinear_arith)
            requires
                pooled_count(a, b) == ra * na + rb * nb,
                na * ra == na * rb - na * x,
                rb * n == rb * na + rb * nb,
                e == rb * n,
        ;
        assert(pooled_count(a2, b) == e - na * x2) by (nonlinear_arith)
            requires
                pooled_count(a2, b) == ra2 * na + rb * nb,
                na * ra2 == na * rb - na * x2,
                rb * n == rb * na + rb * nb,
                e == rb * n,
        ;
        assert(0 <= c) by (nonlinear_arith)
            requires
                c == n * (s - rb),
                rb <= s,
                0 < n,
        ;
        assert(0 < e) by (nonlinear_arith)
            requires
                e == rb * n,
                0 < rb,
                0 < n,
        ;
        assert(na * x2 < e) by (nonlinear_arith)
            requires
                e == rb * n,
                n == na + nb,
                0 < nb,
                0 < na,
                0 <= ra2 < rb,
                x2 == rb - ra2,
        ;
        lemma_gap_core(c, e, na, x, x2);
        let q = (c + na * x) * (e - na * x);
        let q2 = (c + na * x2) * (e - na * x2);
        assert(spread(a, b) == q) by (nonlinear_arith)
            requires
                spread(a, b) == pooled_count(a, b) * (s * n - pooled_count(a, b)),
                pooled_count(a, b) == e - na * x,
                s * n == c + e,
                q == (c + na * x) * (e - na * x),
        ;
        assert(spread(a2, b) == q2) by (nonlinear_arith)
            requires
                spread(a2, b) == pooled_count(a2, b) * (s * n - pooled_count(a2, b)),
                pooled_count(a2, b) == e - na * x2,
                s * n == c + e,
                q2 == (c + na * x2) * (e - na * x2),
        ;
    }
    let d = statistic_sq_den(a, b);
    let d2 = statistic_sq_den(a2, b);
    assert(x2 * x2 * k * d > x * x * k * d2) by (nonlinear_arith)
        requires
            x2 * x2 * d > x * x * d2,
            k > 0,
    ;
}

} // verus!

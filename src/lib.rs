//! A two-sample test of conversion rates ("A/B test") in exact integer arithmetic.
//!
//! Rates and the critical value are fixed-point numbers in millionths. The
//! significance decision compares squared quantities as exact fractions, so no
//! rounding ever enters it; the reported interval is rounded outwards to whole
//! millionths.
pub mod laws;
pub mod proportion;
pub mod wide;

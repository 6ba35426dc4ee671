//! Unsigned products of two 128-bit words, and their comparison.
use vstd::arithmetic::div_mod::lemma_fundamental_div_mod;
use vstd::prelude::*;

verus! {

/// 2^128: the weight of the upper word of a `Wide`.
pub open spec fn word_base() -> int {
    0x1_0000_0000_0000_0000_0000_0000_0000_0000int
}

/// An unsigned integer below 2^256, held as an upper and a lower 128-bit word.
#[derive(Clone, Copy, Debug)]
pub struct Wide {
    pub hi: u128,
    pub lo: u128,
}

impl Wide {
    pub open spec fn value(self) -> int {
        self.hi * word_base() + self.lo
    }
}

proof fn lemma_product_parts(
    a0: int, a1: int, b0: int, b1: int,
    p00: int, p01: int, p10: int, p11: int,
    q00: int, r00: int, t: int, qt: int, rt: int, u: int, qu: int, ru: int,
    base: int,
)
    requires
        p00 == a0 * b0,
        p01 == a0 * b1,
        p10 == a1 * b0,
        p11 == a1 * b1,
        p00 == q00 * base + r00,
        t == p10 + q00,
        t == qt * base + rt,
        u == p01 + rt,
        u == qu * base + ru,
    ensures
        (p11 + qt + qu) * (base * base) + (ru * base + r00) == (a1 * base + a0) * (b1 * base + b0),
{
    let bb = base * base;
    let x = a1 * base;
    let y = b1 * base;
    assert((x + a0) * (y + b0) == x * y + x * b0 + a0 * y + a0 * b0) by (nonlinear_arith);
    assert(x * y == (a1 * b1) * (base * base)) by (nonlinear_arith)
        requires
            x == a1 * base,
            y == b1 * base,
    ;
    assert(x * b0 == (a1 * b0) * base) by (nonlinear_arith)
        requires
            x == a1 * base,
    ;
    assert(a0 * y == (a0 * b1) * base) by (nonlinear_arith)
        requires
            y == b1 * base,
    ;
    assert(qt * bb + rt * base == p10 * base + q00 * base) by (nonlinear_arith)
        requires
            t == p10 + q00,
            t == qt * base + rt,
            bb == base * base,
    ;
    assert(qu * bb + ru * base == p01 * base + rt * base) by (nonlinear_arith)
        requires
            u == p01 + rt,
            u == qu * base + ru,
            bb == base * base,
    ;
    assert((p11 + qt + qu) * bb == p11 * bb + qt * bb + qu * bb) by (nonlinear_arith);
}

proof fn lemma_half_product_bound(x: int, y: int, base: int)
    by (nonlinear_arith)
    requires
        0 <= x < base,
        0 <= y < base,
    ensures
        0 <= x * y <= (base - 1) * (base - 1),
{
}

proof fn lemma_upper_word_bound(hi: int, lo: int, a: int, b: int, w: int)
    by (nonlinear_arith)
    requires
        0 <= a < w,
        0 <= b < w,
        0 <= lo,
        0 <= hi,
        hi * w + lo == a * b,
    ensures
        hi < w,
{
}

/// The full product of two 128-bit words.
pub fn mul_wide(a: u128, b: u128) -> (r: Wide)
    ensures
        r.value() == a * b,
{
    let base: u128 = 0x1_0000_0000_0000_0000;
    let a0 = a % base;
    let a1 = a / base;
    let b0 = b % base;
    let b1 = b / base;
    proof {
        lemma_fundamental_div_mod(a as int, base as int);
        lemma_fundamental_div_mod(b as int, base as int);
        lemma_half_product_bound(a0 as int, b0 as int, base as int);
        lemma_half_product_bound(a0 as int, b1 as int, base as int);
        lemma_half_product_bound(a1 as int, b0 as int, base as int);
        lemma_half_product_bound(a1 as int, b1 as int, base as int);
    }
    let p00 = a0 * b0;
    let p01 = a0 * b1;
    let p10 = a1 * b0;
    let p11 = a1 * b1;
    let t = p10 + p00 / base;
    let u = p01 + t % base;
    let lo = (u % base) * base + p00 % base;
    proof {
        lemma_fundamental_div_mod(p00 as int, base as int);
        lemma_fundamental_div_mod(t as int, base as int);
        lemma_fundamental_div_mod(u as int, base as int);
        lemma_product_parts(
            a0 as int, a1 as int, b0 as int, b1 as int,
            p00 as int, p01 as int, p10 as int, p11 as int,
            (p00 / base) as int, (p00 % base) as int,
            t as int, (t / base) as int, (t % base) as int,
            u as int, (u / base) as int, (u % base) as int,
            base as int,
        );
        lemma_upper_word_bound(
            p11 + t / base + u / base,
            lo as int,
            a as int,
            b as int,
            word_base(),
        );
    }
    let hi = p11 + t / base + u / base;
    Wide { hi, lo }
}

proof fn lemma_upper_word_decides(ah: int, al: int, bh: int, bl: int, w: int)
    by (nonlinear_arith)
    requires
        0 <= al < w,
        0 <= bl < w,
        ah > bh,
    ensures
        ah * w + al > bh * w + bl,
{
}

/// Whether `x` is strictly greater than `y`.
pub fn exceeds(x: Wide, y: Wide) -> (r: bool)
    ensures
        r == (x.value() > y.value()),
{
    proof {
        if x.hi > y.hi {
            lemma_upper_word_decides(x.hi as int, x.lo as int, y.hi as int, y.lo as int, word_base());
        } else if y.hi > x.hi {
            lemma_upper_word_decides(y.hi as int, y.lo as int, x.hi as int, x.lo as int, word_base());
        }
    }
    x.hi > y.hi || (x.hi == y.hi && x.lo > y.lo)
}

} // verus!

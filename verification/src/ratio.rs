//! Exact ratios of two unsigned numbers, and their order.

use vstd::prelude::*;

verus! {

/// The ratio `numer / denom`, held exactly.
#[derive(Debug, Clone, Copy)]
pub struct Ratio {
    pub numer: u128,
    pub denom: u128,
}

/// Two to the power 128.
pub open spec fn base() -> int {
    0x1_0000_0000_0000_0000_0000_0000_0000_0000int
}

/// The product of two numbers written by their halves in base `m`.
proof fn lemma_product_of_halves(a1: int, a0: int, b1: int, b0: int, m: int)
    ensures
        (a1 * m + a0) * (b1 * m + b0) == (a1 * b1) * (m * m) + (a1 * b0) * m + (a0 * b1) * m + a0
            * b0,
{
    let b = b1 * m + b0;
    assert((a1 * m + a0) * b == (a1 * m) * b + a0 * b) by (nonlinear_arith);
    assert((a1 * m) * b == (a1 * m) * (b1 * m) + (a1 * m) * b0) by (nonlinear_arith)
        requires
            b == b1 * m + b0,
    ;
    assert(a0 * b == a0 * (b1 * m) + a0 * b0) by (nonlinear_arith)
        requires
            b == b1 * m + b0,
    ;
    assert((a1 * m) * (b1 * m) == (a1 * b1) * (m * m)) by (nonlinear_arith);
    assert((a1 * m) * b0 == (a1 * b0) * m) by (nonlinear_arith);
    assert(a0 * (b1 * m) == (a0 * b1) * m) by (nonlinear_arith);
}

/// A product of two numbers below `2^64` is at most the square of
/// `2^64 - 1`.
proof fn lemma_product_bound(x: int, y: int)
    requires
        0 <= x <= 0xFFFF_FFFF_FFFF_FFFF,
        0 <= y <= 0xFFFF_FFFF_FFFF_FFFF,
    ensures
        0 <= x * y <= 0xFFFF_FFFF_FFFF_FFFE_0000_0000_0000_0001,
{
    assert(0 <= x * y <= 0xFFFF_FFFF_FFFF_FFFE_0000_0000_0000_0001) by (nonlinear_arith)
        requires
            0 <= x <= 0xFFFF_FFFF_FFFF_FFFF,
            0 <= y <= 0xFFFF_FFFF_FFFF_FFFF,
    ;
}

/// The full product of two numbers, as its high and low 128 bits.
pub fn mul_wide(a: u128, b: u128) -> (r: (u128, u128))
    ensures
        r.0 * base() + r.1 == a * b,
{
    let a1: u128 = a / 0x1_0000_0000_0000_0000;
    let a0: u128 = a % 0x1_0000_0000_0000_0000;
    let b1: u128 = b / 0x1_0000_0000_0000_0000;
    let b0: u128 = b % 0x1_0000_0000_0000_0000;
    proof {
        lemma_product_bound(a0 as int, b0 as int);
        lemma_product_bound(a0 as int, b1 as int);
        lemma_product_bound(a1 as int, b0 as int);
        lemma_product_bound(a1 as int, b1 as int);
    }
    let p00: u128 = a0 * b0;
    let p01: u128 = a0 * b1;
    let p10: u128 = a1 * b0;
    let p11: u128 = a1 * b1;
    let t: u128 = p10 + p00 / 0x1_0000_0000_0000_0000;
    let u: u128 = p01 + t % 0x1_0000_0000_0000_0000;
    let lo: u128 = (u % 0x1_0000_0000_0000_0000) * 0x1_0000_0000_0000_0000 + p00
        % 0x1_0000_0000_0000_0000;
    let hi: u128 = p11 + t / 0x1_0000_0000_0000_0000 + u / 0x1_0000_0000_0000_0000;
    proof {
        lemma_product_of_halves(
            a1 as int,
            a0 as int,
            b1 as int,
            b0 as int,
            0x1_0000_0000_0000_0000,
        );
        assert(0x1_0000_0000_0000_0000int * 0x1_0000_0000_0000_0000int
            == 0x1_0000_0000_0000_0000_0000_0000_0000_0000int) by (nonlinear_arith);
        assert(a * b == p11 * 0x1_0000_0000_0000_0000_0000_0000_0000_0000int + p10
            * 0x1_0000_0000_0000_0000int + p01 * 0x1_0000_0000_0000_0000int + p00);
    }
    (hi, lo)
}

impl Ratio {
    /// Whether this ratio is smaller than `other`, by cross-multiplication:
    /// `a / b < c / d` where `a * d < c * b`.
    pub open spec fn lt_spec(self, other: Ratio) -> bool {
        self.numer * other.denom < other.numer * self.denom
    }

    /// Whether this ratio is strictly smaller than `other`.
    pub fn lt(&self, other: &Ratio) -> (r: bool)
        ensures
            r == self.lt_spec(*other),
    {
        let (h1, l1) = mul_wide(self.numer, other.denom);
        let (h2, l2) = mul_wide(other.numer, self.denom);
        h1 < h2 || (h1 == h2 && l1 < l2)
    }
}

/// Between ratios with the same denominator above zero the smaller numerator
/// decides.
pub proof fn lemma_lt_same_denom(a: Ratio, b: Ratio)
    requires
        a.denom == b.denom,
        a.denom > 0,
    ensures
        a.lt_spec(b) <==> a.numer < b.numer,
{
    let d = a.denom as int;
    let x = a.numer as int;
    let y = b.numer as int;
    assert(x * d < y * d <==> x < y) by (nonlinear_arith)
        requires
            d > 0,
    ;
}

} // verus!

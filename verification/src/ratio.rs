//! Exact rational numbers with a 128-bit numerator and denominator, and their
//! order, decided without overflow by a double-width product.

use vstd::prelude::*;

verus! {

/// Two to the power 64: the radix of the double-width product.
pub const RADIX: u128 = 0x1_0000_0000_0000_0000;

/// The rational number `num / den`. It is well formed when `den` is positive.
/// The pair is kept as given; two ratios of the same value need not be equal
/// field by field.
#[derive(Clone, Copy, Debug)]
pub struct Ratio {
    pub num: i128,
    pub den: u128,
}

/// The value `hi * 2^128 + lo` of a double-width number.
pub open spec fn wide_value(hi: u128, lo: u128) -> int {
    hi * 0x1_0000_0000_0000_0000_0000_0000_0000_0000int + lo
}

/// The magnitude of `x`.
pub open spec fn magnitude(x: int) -> int {
    if x < 0 {
        -x
    } else {
        x
    }
}

/// The full product of two 128-bit numbers, as a high and a low half.
pub fn wide_product(a: u128, b: u128) -> (r: (u128, u128))
    ensures
        wide_value(r.0, r.1) == a * b,
{
    let a1: u128 = a / RADIX;
    let a0: u128 = a % RADIX;
    let b1: u128 = b / RADIX;
    let b0: u128 = b % RADIX;
    let ghost top: int = RADIX - 1;
    assert(a0 * b0 <= top * top && a0 * b1 <= top * top && a1 * b0 <= top * top && a1 * b1
        <= top * top) by (nonlinear_arith)
        requires
            0 <= a0 <= top,
            0 <= a1 <= top,
            0 <= b0 <= top,
            0 <= b1 <= top,
    ;
    let ll: u128 = a0 * b0;
    let lh: u128 = a0 * b1;
    let hl: u128 = a1 * b0;
    let hh: u128 = a1 * b1;
    let carry: u128 = lh % RADIX + hl % RADIX + ll / RADIX;
    let lo: u128 = (carry % RADIX) * RADIX + ll % RADIX;
    let hi: u128 = hh + lh / RADIX + hl / RADIX + carry / RADIX;
    assert(wide_value(hi, lo) == a * b) by (nonlinear_arith)
        requires
            a == a1 * RADIX + a0,
            b == b1 * RADIX + b0,
            ll == a0 * b0,
            lh == a0 * b1,
            hl == a1 * b0,
            hh == a1 * b1,
            hi == hh + lh / RADIX + hl / RADIX + carry / RADIX,
            lo == (carry % RADIX) * RADIX + ll % RADIX,
            carry == lh % RADIX + hl % RADIX + ll / RADIX,
            RADIX == 0x1_0000_0000_0000_0000,
    ;
    (hi, lo)
}

/// Whether `a * b > c * d`, for 128-bit numbers.
pub fn product_exceeds(a: u128, b: u128, c: u128, d: u128) -> (r: bool)
    ensures
        r == (a * b > c * d),
{
    let left = wide_product(a, b);
    let right = wide_product(c, d);
    left.0 > right.0 || (left.0 == right.0 && left.1 > right.1)
}

/// The magnitude of a signed 128-bit number.
pub fn magnitude_of(x: i128) -> (r: u128)
    ensures
        r == magnitude(x as int),
{
    if x >= 0 {
        x as u128
    } else {
        let below: i128 = -(x + 1);
        below as u128 + 1
    }
}

impl Ratio {
    /// A ratio is well formed when its denominator is positive.
    pub open spec fn wf(self) -> bool {
        self.den > 0
    }

    /// `self > other` as rational numbers.
    pub open spec fn gt_spec(self, other: Ratio) -> bool {
        self.num * other.den > other.num * self.den
    }

    /// `self >= other` as rational numbers.
    pub open spec fn ge_spec(self, other: Ratio) -> bool {
        self.num * other.den >= other.num * self.den
    }

    /// Whether the value is zero.
    pub open spec fn is_zero_spec(self) -> bool {
        self.num == 0
    }

    /// The ratio `num / den`.
    pub fn new(num: i128, den: u128) -> (r: Ratio)
        requires
            den > 0,
        ensures
            r.num == num,
            r.den == den,
            r.wf(),
    {
        Ratio { num, den }
    }

    /// The ratio `0 / 1`.
    pub fn zero() -> (r: Ratio)
        ensures
            r.num == 0,
            r.den == 1,
    {
        Ratio { num: 0, den: 1 }
    }

    /// The whole number `value`, as `value / 1`.
    pub fn from_int(value: i128) -> (r: Ratio)
        ensures
            r.num == value,
            r.den == 1,
    {
        Ratio { num: value, den: 1 }
    }

    /// Whether the value is zero.
    pub fn is_zero(&self) -> (r: bool)
        ensures
            r == self.is_zero_spec(),
    {
        self.num == 0
    }

    /// Whether `self` is strictly greater than `other`.
    pub fn gt(&self, other: &Ratio) -> (r: bool)
        requires
            self.wf(),
            other.wf(),
        ensures
            r == self.gt_spec(*other),
    {
        let a: u128 = magnitude_of(self.num);
        let b: u128 = magnitude_of(other.num);
        proof {
            lemma_signed_products(self.num as int, other.den as int);
            lemma_signed_products(other.num as int, self.den as int);
        }
        if self.num >= 0 {
            if other.num >= 0 {
                product_exceeds(a, other.den, b, self.den)
            } else {
                true
            }
        } else {
            if other.num >= 0 {
                false
            } else {
                product_exceeds(b, self.den, a, other.den)
            }
        }
    }

    /// Whether `self` is greater than or equal to `other`.
    pub fn ge(&self, other: &Ratio) -> (r: bool)
        requires
            self.wf(),
            other.wf(),
        ensures
            r == self.ge_spec(*other),
    {
        !other.gt(self)
    }
}

/// How the sign of `x` shows in `x * d`, for a positive `d`.
proof fn lemma_signed_products(x: int, d: int)
    requires
        d > 0,
    ensures
        x >= 0 ==> x * d == magnitude(x) * d && x * d >= 0,
        x < 0 ==> x * d == -(magnitude(x) * d) && x * d < 0,
{
    assert(x >= 0 ==> x * d >= 0) by (nonlinear_arith)
        requires
            d > 0,
    ;
    assert(x < 0 ==> x * d == -((-x) * d) && x * d < 0) by (nonlinear_arith)
        requires
            d > 0,
    ;
}

/// The order of ratios is transitive: a ratio that is greater than `b` is
/// greater than every ratio that `b` is at least as great as.
pub proof fn lemma_gt_after_ge(a: Ratio, b: Ratio, c: Ratio)
    requires
        a.wf(),
        b.wf(),
        c.wf(),
        a.gt_spec(b),
        !c.gt_spec(b),
    ensures
        a.gt_spec(c),
{
    let (an, ad) = (a.num as int, a.den as int);
    let (bn, bd) = (b.num as int, b.den as int);
    let (cn, cd) = (c.num as int, c.den as int);
    assert((an * bd) * cd > (bn * ad) * cd) by (nonlinear_arith)
        requires
            an * bd > bn * ad,
            cd > 0,
    ;
    assert((cn * bd) * ad <= (bn * cd) * ad) by (nonlinear_arith)
        requires
            cn * bd <= bn * cd,
            ad > 0,
    ;
    assert((an * bd) * cd == (an * cd) * bd && (bn * ad) * cd == (bn * cd) * ad && (cn * bd) * ad
        == (cn * ad) * bd) by (nonlinear_arith);
    assert(an * cd > cn * ad) by (nonlinear_arith)
        requires
            (an * cd) * bd > (cn * ad) * bd,
            bd > 0,
    ;
}

} // verus!

//! Exact rational numbers in fixed-width integers, with their values as
//! mathematical reals.
use vstd::arithmetic::div_mod::lemma_div_nonincreasing;
use vstd::arithmetic::div_mod::lemma_div_pos_is_pos;
use vstd::arithmetic::div_mod::lemma_fundamental_div_mod;
use vstd::arithmetic::div_mod::lemma_fundamental_div_mod_converse;
use vstd::prelude::*;

verus! {

/// The real number `n / d`.
pub open spec fn ratio(n: int, d: int) -> real {
    n as real / d as real
}

/// Two fractions with positive denominators compare as their cross products do.
pub proof fn lemma_ratio_lt(a: int, b: int, c: int, d: int)
    by (nonlinear_arith)
    requires
        b > 0,
        d > 0,
    ensures
        ratio(a, b) < ratio(c, d) <==> a * d < c * b,
        ratio(a, b) <= ratio(c, d) <==> a * d <= c * b,
        ratio(a, b) == ratio(c, d) <==> a * d == c * b,
{
}

/// Fractions with positive denominators are added and subtracted over the
/// product of their denominators.
pub proof fn lemma_ratio_add(a: int, b: int, c: int, d: int)
    by (nonlinear_arith)
    requires
        b > 0,
        d > 0,
    ensures
        ratio(a, b) + ratio(c, d) == ratio(a * d + c * b, b * d),
        ratio(a, b) - ratio(c, d) == ratio(a * d - c * b, b * d),
{
}

/// Fractions with positive denominators are multiplied part by part.
pub proof fn lemma_ratio_mul(a: int, b: int, c: int, d: int)
    by (nonlinear_arith)
    requires
        b > 0,
        d > 0,
    ensures
        ratio(a, b) * ratio(c, d) == ratio(a * c, b * d),
{
}

/// To divide by a fraction above zero is to multiply by it upside down.
pub proof fn lemma_ratio_div(a: int, b: int, c: int, d: int)
    by (nonlinear_arith)
    requires
        b > 0,
        c > 0,
        d > 0,
    ensures
        ratio(a, b) / ratio(c, d) == ratio(a * d, b * c),
{
}

/// The floor of a fraction with a positive denominator is the Euclidean quotient.
pub proof fn lemma_ratio_floor(n: int, d: int)
    by (nonlinear_arith)
    requires
        d > 0,
    ensures
        ratio(n, d).floor() == n / d,
{
}

/// A whole number is the fraction with denominator one.
pub proof fn lemma_ratio_whole(n: int)
    by (nonlinear_arith)
    ensures
        ratio(n, 1) == n as real,
{
}

/// A product of bounded non-negative factors is bounded by the product of the bounds.
pub proof fn lemma_product_bound(a: int, b: int, x: int, y: int)
    by (nonlinear_arith)
    requires
        0 <= a <= x,
        0 <= b <= y,
    ensures
        0 <= a * b <= x * y,
{
}

/// Euclidean division rounds the quotient of a negative numerator down: it
/// is the negated quotient where the division is exact, and one less where
/// it is not.
pub proof fn lemma_quotient_of_negative(m: int, d: int)
    requires
        m >= 0,
        d > 0,
    ensures
        (-m) / d == (if m % d == 0 {
            -(m / d)
        } else {
            -(m / d) - 1
        }),
{
    let q = m / d;
    let r = m % d;
    lemma_fundamental_div_mod(m, d);
    if r == 0 {
        assert(-m == (-q) * d + 0) by (nonlinear_arith)
            requires
                m == d * q + r,
                r == 0,
        ;
        lemma_fundamental_div_mod_converse(-m, d, -q, 0);
    } else {
        assert(-m == (-q - 1) * d + (d - r)) by (nonlinear_arith)
            requires
                m == d * q + r,
        ;
        lemma_fundamental_div_mod_converse(-m, d, -q - 1, d - r);
    }
}

/// An exact non-negative rational number, `num / den`.
///
/// Times in seconds, frequencies in hertz and volumes are held this way.
#[derive(Clone, Copy, Debug, PartialEq, Eq, Structural)]
pub struct Ratio {
    pub num: u32,
    pub den: u32,
}

impl View for Ratio {
    type V = real;

    /// The number that the fraction stands for.
    open spec fn view(&self) -> real {
        ratio(self.num as int, self.den as int)
    }
}

impl Ratio {
    /// A fraction is well formed when its denominator is not zero.
    pub open spec fn wf(self) -> bool {
        self.den > 0
    }

    /// The fraction `num / den`, or nothing where `den` is zero.
    pub fn new(num: u32, den: u32) -> (r: Option<Ratio>)
        ensures
            den == 0 ==> r is None,
            den != 0 ==> r == Some(Ratio { num, den }),
    {
        if den == 0 {
            None
        } else {
            Some(Ratio { num, den })
        }
    }

    /// The whole number `n`.
    pub fn whole(n: u32) -> (r: Ratio)
        ensures
            r == (Ratio { num: n, den: 1 }),
            r.wf(),
            r@ == n as real,
    {
        proof {
            lemma_ratio_whole(n as int);
        }
        Ratio { num: n, den: 1 }
    }

    /// Whether the fraction is zero.
    pub fn is_zero(&self) -> (b: bool)
        requires
            self.wf(),
        ensures
            b == (self@ == 0real),
    {
        proof {
            lemma_ratio_lt(self.num as int, self.den as int, 0, 1);
            lemma_ratio_whole(0);
        }
        self.num == 0
    }

    /// Whether this fraction is strictly less than `other`.
    pub fn lt(&self, other: &Ratio) -> (b: bool)
        requires
            self.wf(),
            other.wf(),
        ensures
            b == (self@ < other@),
    {
        proof {
            lemma_ratio_lt(self.num as int, self.den as int, other.num as int, other.den as int);
            lemma_product_bound(self.num as int, other.den as int, u32::MAX as int, u32::MAX as int);
            lemma_product_bound(other.num as int, self.den as int, u32::MAX as int, u32::MAX as int);
        }
        (self.num as u64) * (other.den as u64) < (other.num as u64) * (self.den as u64)
    }

    /// Whether the sum of this fraction and `other` is strictly less than `bound`.
    pub fn sum_lt(&self, other: &Ratio, bound: &Ratio) -> (b: bool)
        requires
            self.wf(),
            other.wf(),
            bound.wf(),
        ensures
            b == (self@ + other@ < bound@),
    {
        let (sum_num, sum_den) = self.sum_parts(other);
        proof {
            lemma_ratio_lt(sum_num as int, sum_den as int, bound.num as int, bound.den as int);
            lemma_product_bound(
                sum_num as int,
                bound.den as int,
                0x2_0000_0000_0000_0000,
                u32::MAX as int,
            );
            lemma_product_bound(
                bound.num as int,
                sum_den as int,
                u32::MAX as int,
                0x1_0000_0000_0000_0000,
            );
        }
        sum_num * (bound.den as u128) < (bound.num as u128) * sum_den
    }

    /// Whether the sum of this fraction and `other` is strictly greater than `bound`.
    pub fn sum_gt(&self, other: &Ratio, bound: &Ratio) -> (b: bool)
        requires
            self.wf(),
            other.wf(),
            bound.wf(),
        ensures
            b == (self@ + other@ > bound@),
    {
        let (sum_num, sum_den) = self.sum_parts(other);
        proof {
            lemma_ratio_lt(bound.num as int, bound.den as int, sum_num as int, sum_den as int);
            lemma_product_bound(
                sum_num as int,
                bound.den as int,
                0x2_0000_0000_0000_0000,
                u32::MAX as int,
            );
            lemma_product_bound(
                bound.num as int,
                sum_den as int,
                u32::MAX as int,
                0x1_0000_0000_0000_0000,
            );
        }
        sum_num * (bound.den as u128) > (bound.num as u128) * sum_den
    }

    /// The numerator and the denominator of the sum of this fraction and `other`.
    fn sum_parts(&self, other: &Ratio) -> (parts: (u128, u128))
        requires
            self.wf(),
            other.wf(),
        ensures
            0 < parts.1 < 0x1_0000_0000_0000_0000,
            parts.0 < 0x2_0000_0000_0000_0000,
            self@ + other@ == ratio(parts.0 as int, parts.1 as int),
    {
        proof {
            lemma_ratio_add(self.num as int, self.den as int, other.num as int, other.den as int);
            lemma_product_bound(self.num as int, other.den as int, u32::MAX as int, u32::MAX as int);
            lemma_product_bound(other.num as int, self.den as int, u32::MAX as int, u32::MAX as int);
            lemma_product_bound(self.den as int, other.den as int, u32::MAX as int, u32::MAX as int);
            assert(self.den * other.den > 0) by (nonlinear_arith)
                requires
                    self.den > 0,
                    other.den > 0,
            ;
        }
        let left: u128 = (self.num as u128) * (other.den as u128);
        let right: u128 = (other.num as u128) * (self.den as u128);
        let den: u128 = (self.den as u128) * (other.den as u128);
        (left + right, den)
    }

    /// This fraction divided by `other`, which is not zero.
    pub fn quotient(&self, other: &Ratio) -> (g: Rational)
        requires
            self.wf(),
            other.wf(),
            other.num > 0,
        ensures
            g.wf(),
            g@ == self@ / other@,
    {
        proof {
            lemma_ratio_div(self.num as int, self.den as int, other.num as int, other.den as int);
            lemma_product_bound(self.num as int, other.den as int, u32::MAX as int, u32::MAX as int);
            lemma_product_bound(self.den as int, other.num as int, u32::MAX as int, u32::MAX as int);
            assert(self.den * other.num > 0) by (nonlinear_arith)
                requires
                    self.den > 0,
                    other.num > 0,
            ;
        }
        Rational {
            num: (self.num as i128) * (other.den as i128),
            den: (self.den as i128) * (other.num as i128),
        }
    }

    /// What is left of this fraction after `taken`, divided by `unit`, which is not zero.
    /// It is negative where `taken` exceeds this fraction.
    pub fn remainder_over(&self, taken: &Ratio, unit: &Ratio) -> (g: Rational)
        requires
            self.wf(),
            taken.wf(),
            unit.wf(),
            unit.num > 0,
        ensures
            g.wf(),
            g@ == (self@ - taken@) / unit@,
    {
        proof {
            lemma_ratio_add(self.num as int, self.den as int, taken.num as int, taken.den as int);
            lemma_product_bound(self.num as int, taken.den as int, u32::MAX as int, u32::MAX as int);
            lemma_product_bound(taken.num as int, self.den as int, u32::MAX as int, u32::MAX as int);
            lemma_product_bound(self.den as int, taken.den as int, u32::MAX as int, u32::MAX as int);
            assert(self.den * taken.den > 0) by (nonlinear_arith)
                requires
                    self.den > 0,
                    taken.den > 0,
            ;
        }
        let had: i128 = (self.num as i128) * (taken.den as i128);
        let gone: i128 = (taken.num as i128) * (self.den as i128);
        let left: i128 = had - gone;
        let whole: i128 = (self.den as i128) * (taken.den as i128);
        proof {
            lemma_ratio_div(left as int, whole as int, unit.num as int, unit.den as int);
            lemma_product_bound(
                whole as int,
                unit.num as int,
                0x1_0000_0000_0000_0000,
                u32::MAX as int,
            );
            assert(whole * unit.num > 0) by (nonlinear_arith)
                requires
                    whole > 0,
                    unit.num > 0,
            ;
            if left >= 0 {
                lemma_product_bound(
                    left as int,
                    unit.den as int,
                    0x1_0000_0000_0000_0000,
                    u32::MAX as int,
                );
            } else {
                lemma_product_bound(
                    -left as int,
                    unit.den as int,
                    0x1_0000_0000_0000_0000,
                    u32::MAX as int,
                );
                assert(left * unit.den == -((-left) * unit.den)) by (nonlinear_arith);
            }
        }
        Rational { num: left * (unit.den as i128), den: whole * (unit.num as i128) }
    }

    /// The largest whole number not above `k` times the fraction.
    pub fn floor_times(&self, k: u32) -> (n: u64)
        requires
            self.wf(),
        ensures
            n == (k as real * self@).floor(),
    {
        proof {
            lemma_product_bound(k as int, self.num as int, u32::MAX as int, u32::MAX as int);
            lemma_ratio_whole(k as int);
            lemma_ratio_mul(k as int, 1, self.num as int, self.den as int);
            lemma_ratio_floor(k * self.num, self.den as int);
        }
        let product: u64 = (k as u64) * (self.num as u64);
        product / (self.den as u64)
    }
}

/// The largest magnitude that the numerator and the denominator of a [`Rational`] take: 2^96.
pub const RATIONAL_LIMIT: i128 = 0x1_0000_0000_0000_0000_0000_0000;

/// An exact signed rational number, `num / den`, wide enough for a quotient
/// of sums of products of two [`Ratio`]s.
#[derive(Clone, Copy, Debug, PartialEq, Eq, Structural)]
pub struct Rational {
    pub num: i128,
    pub den: i128,
}

impl View for Rational {
    type V = real;

    /// The number that the fraction stands for.
    open spec fn view(&self) -> real {
        ratio(self.num as int, self.den as int)
    }
}

impl Rational {
    /// The denominator is positive, and neither part exceeds [`RATIONAL_LIMIT`] in magnitude.
    pub open spec fn wf(self) -> bool {
        &&& 0 < self.den <= RATIONAL_LIMIT
        &&& -RATIONAL_LIMIT <= self.num <= RATIONAL_LIMIT
    }

    /// The number one.
    pub fn one() -> (g: Rational)
        ensures
            g.wf(),
            g@ == 1real,
    {
        proof {
            lemma_ratio_whole(1);
        }
        Rational { num: 1, den: 1 }
    }

    /// The same magnitude with the opposite sign.
    pub fn negated(&self) -> (g: Rational)
        requires
            self.wf(),
        ensures
            g.wf(),
            g@ == -self@,
    {
        proof {
            lemma_ratio_whole(0);
            lemma_ratio_add(0, 1, self.num as int, self.den as int);
        }
        Rational { num: -self.num, den: self.den }
    }

    /// The largest whole number not above `k` times the number.
    pub fn floor_times(&self, k: u16) -> (f: i128)
        requires
            self.wf(),
        ensures
            f == (k as real * self@).floor(),
    {
        proof {
            lemma_ratio_whole(k as int);
            lemma_ratio_mul(k as int, 1, self.num as int, self.den as int);
            lemma_ratio_floor(k * self.num, self.den as int);
            if self.num >= 0 {
                lemma_product_bound(k as int, self.num as int, u16::MAX as int, RATIONAL_LIMIT as int);
            } else {
                lemma_product_bound(k as int, -self.num as int, u16::MAX as int, RATIONAL_LIMIT as int);
                assert(k * self.num == -(k * (-self.num))) by (nonlinear_arith);
            }
        }
        let n: i128 = (k as i128) * self.num;
        if n >= 0 {
            n / self.den
        } else {
            proof {
                lemma_quotient_of_negative(-n as int, self.den as int);
                lemma_div_nonincreasing(-n as int, self.den as int);
                lemma_div_pos_is_pos(-n as int, self.den as int);
            }
            let quotient: i128 = (-n) / self.den;
            if (-n) % self.den == 0 {
                -quotient
            } else {
                -quotient - 1
            }
        }
    }
}

/// A volume shaped by a gain: the product of the two, each held exactly.
#[derive(Clone, Copy, Debug, PartialEq, Eq, Structural)]
pub struct Level {
    pub volume: Ratio,
    pub gain: Rational,
}

impl View for Level {
    type V = real;

    /// The shaped volume, `volume * gain`.
    open spec fn view(&self) -> real {
        self.volume@ * self.gain@
    }
}

impl Level {
    /// Both factors are well formed.
    pub open spec fn wf(self) -> bool {
        self.volume.wf() && self.gain.wf()
    }
}

} // verus!

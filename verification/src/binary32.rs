//! The binary32 interchange format, decoded exactly.
//!
//! A binary32 number is held by its bit pattern: one sign bit, eight bits of
//! biased exponent and twenty-three bits of fraction. Its value is stated as
//! a mathematical real, and nothing here rounds.
use crate::exact::lemma_quotient_of_negative;
use crate::exact::lemma_product_bound;
use crate::exact::lemma_ratio_floor;
use crate::exact::lemma_ratio_lt;
use crate::exact::lemma_ratio_mul;
use crate::exact::lemma_ratio_whole;
use crate::exact::ratio;
use vstd::arithmetic::div_mod::lemma_basic_div;
use vstd::arithmetic::div_mod::lemma_div_nonincreasing;
use vstd::arithmetic::div_mod::lemma_div_pos_is_pos;
use vstd::arithmetic::div_mod::lemma_small_mod;
use vstd::arithmetic::power2::lemma2_to64_rest;
use vstd::arithmetic::power2::lemma_pow2_pos;
use vstd::arithmetic::power2::lemma_pow2_strictly_increases;
use vstd::arithmetic::power2::pow2;
use vstd::bits::lemma_u64_pow2_no_overflow;
use vstd::bits::lemma_u64_shl_is_mul;
use vstd::prelude::*;

verus! {

/// A binary32 number, by its bit pattern.
#[derive(Clone, Copy, Debug, PartialEq, Eq, Structural)]
pub struct Binary32 {
    pub bits: u32,
}

impl View for Binary32 {
    type V = real;

    /// The number that a finite pattern stands for: its magnitude with its sign.
    /// Both zeros stand for zero.
    open spec fn view(&self) -> real {
        if self.negative() {
            -self.magnitude()
        } else {
            self.magnitude()
        }
    }
}

impl Binary32 {
    /// The sign bit is set.
    pub open spec fn negative(self) -> bool {
        self.bits >= 0x8000_0000
    }

    /// The eight bits of biased exponent.
    pub open spec fn exponent_field(self) -> int {
        (self.bits as int / 0x80_0000) % 0x100
    }

    /// The twenty-three bits of fraction.
    pub open spec fn fraction_field(self) -> int {
        self.bits as int % 0x80_0000
    }

    /// Neither an infinity nor a NaN.
    pub open spec fn finite(self) -> bool {
        self.exponent_field() != 0xff
    }

    /// Not a number.
    pub open spec fn nan(self) -> bool {
        self.exponent_field() == 0xff && self.fraction_field() != 0
    }

    /// Greater than zero: a positive number or the positive infinity.
    pub open spec fn exceeds_zero(self) -> bool {
        !self.negative() && !self.nan() && self.bits != 0
    }

    /// The significand as a whole number: the fraction, with the hidden bit
    /// in front of it unless the number is subnormal.
    pub open spec fn significand(self) -> int {
        if self.exponent_field() == 0 {
            self.fraction_field()
        } else {
            self.fraction_field() + 0x80_0000
        }
    }

    /// The power of two that scales the whole-number significand.
    pub open spec fn exponent(self) -> int {
        if self.exponent_field() == 0 {
            -149
        } else {
            self.exponent_field() - 150
        }
    }

    /// The absolute value of a finite pattern: `significand * 2^exponent`.
    pub open spec fn magnitude(self) -> real {
        if self.exponent() >= 0 {
            (self.significand() * pow2(self.exponent() as nat)) as real
        } else {
            ratio(self.significand(), pow2((-self.exponent()) as nat) as int)
        }
    }

    /// The number with the given bit pattern.
    pub fn from_bits(bits: u32) -> (b: Binary32)
        ensures
            b.bits == bits,
    {
        Binary32 { bits }
    }

    /// Whether the pattern is a NaN.
    pub fn is_nan(&self) -> (b: bool)
        ensures
            b == self.nan(),
    {
        (self.bits / 0x80_0000) % 0x100 == 0xff && self.bits % 0x80_0000 != 0
    }

    /// Whether the number is greater than zero.
    pub fn is_positive(&self) -> (b: bool)
        ensures
            b == self.exceeds_zero(),
            self.finite() ==> b == (self@ > 0real),
    {
        proof {
            if self.finite() {
                lemma_sign_of_finite(*self);
            }
        }
        self.bits < 0x8000_0000 && self.bits != 0 && !self.is_nan()
    }

    /// Whether the pattern is neither an infinity nor a NaN.
    pub fn is_finite(&self) -> (b: bool)
        ensures
            b == self.finite(),
    {
        (self.bits / 0x80_0000) % 0x100 != 0xff
    }

    /// The largest whole number not above `k` times the value, where that
    /// number lies between `-bound` and `bound`; nothing where it lies outside.
    pub fn floor_times_within(&self, k: u16, bound: u16) -> (r: Option<i32>)
        requires
            self.finite(),
        ensures
            -bound <= (k as real * self@).floor() <= bound ==> r == Some(
                (k as real * self@).floor() as i32,
            ),
            !(-bound <= (k as real * self@).floor() <= bound) ==> r is None,
    {
        let field: u32 = (self.bits / 0x80_0000) % 0x100;
        let fraction: u32 = self.bits % 0x80_0000;
        let negative: bool = self.bits >= 0x8000_0000;
        let significand: u64 = if field == 0 {
            fraction as u64
        } else {
            fraction as u64 + 0x80_0000
        };
        let biased: u32 = if field == 0 {
            1
        } else {
            field
        };
        // the magnitude is `significand * 2^(biased - 150)`
        proof {
            lemma_product_bound(significand as int, k as int, 0xff_ffff, 0xffff);
            lemma_ratio_whole(k as int);
            lemma_sign_of_finite(*self);
        }
        let n: u64 = significand * (k as u64);
        if n == 0 {
            // the number or `k` is zero
            proof {
                assert(significand == 0 || k == 0) by (nonlinear_arith)
                    requires
                        significand * k == 0,
                ;
                assert(k as real * self@ == 0real) by (nonlinear_arith)
                    requires
                        k as real == 0real || self@ == 0real,
                ;
                assert((k as real * self@).floor() as i32 == 0i32);
            }
            return Some(0);
        }
        if biased >= 150 {
            // a whole number of at least 2^23 in magnitude
            proof {
                let p = pow2((biased - 150) as nat);
                lemma_pow2_pos((biased - 150) as nat);
                assert(k >= 1) by (nonlinear_arith)
                    requires
                        n == significand * k,
                        n != 0,
                ;
                assert(significand * p >= 0x80_0000) by (nonlinear_arith)
                    requires
                        significand >= 0x80_0000,
                        p >= 1,
                ;
                assert(k as real * self.magnitude() >= 0x80_0000 as real) by (nonlinear_arith)
                    requires
                        k >= 1,
                        self.magnitude() >= 0x80_0000 as real,
                ;
                assert(k as real * (-self.magnitude()) == -(k as real * self.magnitude()))
                    by (nonlinear_arith);
            }
            return None;
        }
        // the magnitude is `significand / 2^shift`, and `k` times it is `n / 2^shift`
        let shift: u32 = 150 - biased;
        let ghost p: int = pow2(shift as nat) as int;
        proof {
            lemma_pow2_pos(shift as nat);
            lemma_ratio_mul(k as int, 1, significand as int, p);
            lemma_ratio_mul(k as int, 1, -(significand as int), p);
            assert(ratio(-(significand as int), p) == -ratio(significand as int, p))
                by (nonlinear_arith)
                requires
                    p > 0,
            ;
            assert(k * significand == n) by (nonlinear_arith)
                requires
                    n == significand * k,
            ;
            assert(k * (-(significand as int)) == -(n as int)) by (nonlinear_arith)
                requires
                    n == significand * k,
            ;
            lemma_ratio_floor(n as int, p);
            lemma_ratio_floor(-(n as int), p);
            lemma_quotient_of_negative(n as int, p);
            lemma_div_nonincreasing(n as int, p);
            lemma_div_pos_is_pos(n as int, p);
        }
        let mut quotient: u64 = 0;
        let mut exact: bool = false;
        if shift < 40 {
            proof {
                lemma_u64_pow2_no_overflow(shift as nat);
                lemma_u64_shl_is_mul(1, shift as u64);
            }
            let divisor: u64 = 1u64 << shift;
            quotient = n / divisor;
            exact = n % divisor == 0;
        } else {
            // `n` is below 2^40, so the quotient is zero and something is left
            proof {
                lemma2_to64_rest();
                if shift > 40 {
                    lemma_pow2_strictly_increases(40, shift as nat);
                }
                lemma_basic_div(n as int, p);
                lemma_small_mod(n as nat, p as nat);
            }
        }
        let floor: i64 = if !negative {
            quotient as i64
        } else if exact {
            -(quotient as i64)
        } else {
            -(quotient as i64) - 1
        };
        if -(bound as i64) <= floor && floor <= bound as i64 {
            Some(floor as i32)
        } else {
            None
        }
    }
}

/// A finite number is above zero where its sign bit is clear and another bit
/// is set, zero where no other bit is set, and below zero otherwise.
pub proof fn lemma_sign_of_finite(number: Binary32)
    requires
        number.finite(),
    ensures
        number.exceeds_zero() <==> number@ > 0real,
        number.significand() == 0 <==> number@ == 0real,
{
    let m = number.significand();
    let e = number.exponent();
    if e >= 0 {
        let p = pow2(e as nat);
        lemma_pow2_pos(e as nat);
        assert(m * p > 0 <==> m > 0) by (nonlinear_arith)
            requires
                p > 0,
                m >= 0,
        ;
    } else {
        let p = pow2((-e) as nat) as int;
        lemma_pow2_pos((-e) as nat);
        lemma_ratio_lt(0, 1, m, p);
        lemma_ratio_whole(0);
    }
}

} // verus!

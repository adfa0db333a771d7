//! Binary64 numbers held as their bit patterns, with every operation computed on
//! integers.
//!
//! An operation returns the exact mathematical result rounded to the nearest number,
//! ties to even, so a run gives the same numbers on every machine. Comparisons, the
//! total order, infinities, signed zeros and NaN follow IEEE 754; an invalid operation
//! returns one fixed NaN.
use vstd::prelude::*;
use vstd::arithmetic::power2::*;
use vstd::arithmetic::div_mod::*;
use crate::rounding;
use crate::rounding::{P52, P53};

verus! {

/// The weight of the sign bit.
pub const SIGN: u64 = 0x8000_0000_0000_0000;

/// The magnitude index of infinity: one past the largest finite magnitude.
pub const INFINITE: u64 = 0x7ff0_0000_0000_0000;

/// The magnitude index of the NaN that invalid operations return.
pub const QUIET: u64 = 0x7ff8_0000_0000_0000;

/// How many binary digits stand behind the point of one unit.
pub const UNIT: u32 = 1074;

/// A binary64 number.
#[derive(Clone, Copy, Debug, PartialEq, Eq, Structural, Hash)]
pub struct Double {
    pub bits: u64,
}

/// The number with the given sign and magnitude index; an index past the finite ones
/// becomes infinity.
pub open spec fn pack(negative: bool, index: nat) -> Double {
    let top = if index < INFINITE {
        index
    } else {
        INFINITE as nat
    };
    Double {
        bits: (top + if negative {
            SIGN as nat
        } else {
            0nat
        }) as u64,
    }
}

/// The nearest number to a signed count of units.
pub open spec fn nearest(units: int) -> Double {
    if units < 0 {
        pack(true, rounding::round_ratio((-units) as nat, 1))
    } else {
        pack(false, rounding::round_ratio(units as nat, 1))
    }
}

/// The index of the magnitude nearest to `p * 2^t` units.
pub open spec fn dyadic(p: nat, t: int) -> nat {
    if t >= 0 {
        rounding::round_ratio(p * pow2(t as nat), 1)
    } else {
        rounding::round_ratio(p, pow2((-t) as nat))
    }
}

/// The numeric order as an order of integers; both zeros are 0.
pub open spec fn ordinal(x: Double) -> int {
    if x.negative() {
        -(x.index() as int)
    } else {
        x.index() as int
    }
}

/// The total order as an order of integers: negative NaN, negative numbers, -0, +0,
/// positive numbers, positive NaN.
pub open spec fn rank(x: Double) -> int {
    if x.negative() {
        -(x.index() as int) - 1
    } else {
        x.index() as int
    }
}

impl Double {
    pub open spec fn negative(self) -> bool {
        self.bits >= SIGN
    }

    /// The magnitude's place among all magnitudes, in increasing order.
    pub open spec fn index(self) -> nat {
        (self.bits % SIGN) as nat
    }

    pub open spec fn nan(self) -> bool {
        self.index() > INFINITE
    }

    pub open spec fn infinite(self) -> bool {
        self.index() == INFINITE
    }

    pub open spec fn finite(self) -> bool {
        self.index() < INFINITE
    }

    pub open spec fn is_zero(self) -> bool {
        self.index() == 0
    }

    /// The magnitude of a finite number, in units of 2^-1074.
    pub open spec fn units(self) -> nat {
        let i = self.index();
        if i < P52 {
            i
        } else {
            (P52 + i % (P52 as nat)) as nat * pow2((i / (P52 as nat) - 1) as nat)
        }
    }

    /// The value of a finite number, in units of 2^-1074.
    pub open spec fn value(self) -> int {
        if self.negative() {
            -(self.units() as int)
        } else {
            self.units() as int
        }
    }

    pub open spec fn spec_add(self, b: Double) -> Double {
        if self.nan() || b.nan() {
            pack_nan()
        } else if self.infinite() {
            if b.infinite() && self.negative() != b.negative() {
                pack_nan()
            } else {
                self
            }
        } else if b.infinite() {
            b
        } else {
            let sum = self.value() + b.value();
            if sum == 0 {
                pack(self.negative() && b.negative(), 0)
            } else {
                nearest(sum)
            }
        }
    }

    pub open spec fn spec_neg(self) -> Double {
        Double {
            bits: if self.negative() {
                (self.bits - SIGN) as u64
            } else {
                (self.bits + SIGN) as u64
            },
        }
    }

    pub open spec fn spec_sub(self, b: Double) -> Double {
        self.spec_add(b.spec_neg())
    }

    pub open spec fn spec_mul(self, b: Double) -> Double {
        let negative = self.negative() != b.negative();
        if self.nan() || b.nan() || (self.infinite() && b.is_zero()) || (self.is_zero()
            && b.infinite()) {
            pack_nan()
        } else if self.infinite() || b.infinite() {
            pack(negative, INFINITE as nat)
        } else {
            pack(negative, rounding::round_ratio(self.units() * b.units(), pow2(UNIT as nat)))
        }
    }

    pub open spec fn spec_div(self, b: Double) -> Double {
        let negative = self.negative() != b.negative();
        if self.nan() || b.nan() || (self.infinite() && b.infinite()) || (self.is_zero()
            && b.is_zero()) {
            pack_nan()
        } else if self.infinite() || b.is_zero() {
            pack(negative, INFINITE as nat)
        } else if b.infinite() {
            pack(negative, 0)
        } else {
            pack(negative, rounding::round_ratio(self.units() * pow2(UNIT as nat), b.units()))
        }
    }

    pub open spec fn spec_abs(self) -> Double {
        Double { bits: self.bits % SIGN }
    }

    pub open spec fn spec_lt(self, b: Double) -> bool {
        !self.nan() && !b.nan() && ordinal(self) < ordinal(b)
    }

    pub open spec fn spec_le(self, b: Double) -> bool {
        !self.nan() && !b.nan() && ordinal(self) <= ordinal(b)
    }

    pub open spec fn spec_gt(self, b: Double) -> bool {
        b.spec_lt(self)
    }

    pub open spec fn spec_ge(self, b: Double) -> bool {
        b.spec_le(self)
    }

    pub open spec fn spec_same(self, b: Double) -> bool {
        !self.nan() && !b.nan() && ordinal(self) == ordinal(b)
    }

    /// The larger of two numbers; a NaN loses to any number.
    pub open spec fn spec_max(self, b: Double) -> Double {
        if self.nan() || self.spec_lt(b) {
            b
        } else {
            self
        }
    }

    /// The smaller of two numbers; a NaN loses to any number.
    pub open spec fn spec_min(self, b: Double) -> Double {
        if self.nan() || b.spec_lt(self) {
            b
        } else {
            self
        }
    }

    pub open spec fn spec_whole(n: u64) -> Double {
        pack(false, rounding::round_ratio(n as nat * pow2(UNIT as nat), 1))
    }

    pub open spec fn spec_ratio(num: u64, den: u64) -> Double {
        Double::spec_whole(num).spec_div(Double::spec_whole(den))
    }

    pub open spec fn spec_zero() -> Double {
        Double { bits: 0 }
    }

    /// The largest whole number not above this one, clamped to the range of `i64`;
    /// 0 for NaN.
    pub open spec fn spec_floor(self) -> i64 {
        if self.nan() {
            0
        } else if self.infinite() {
            if self.negative() {
                i64::MIN
            } else {
                i64::MAX
            }
        } else {
            clamp64(self.value() / (pow2(UNIT as nat) as int))
        }
    }

    /// The number with the given bit pattern.
    pub fn from_bits(bits: u64) -> (r: Double)
        ensures
            r.bits == bits,
    {
        Double { bits }
    }

    /// The bit pattern of this number.
    pub fn to_bits(self) -> (bits: u64)
        ensures
            bits == self.bits,
    {
        self.bits
    }

    #[verifier::when_used_as_spec(spec_zero)]
    pub fn zero() -> (r: Double)
        ensures
            r == Double::spec_zero(),
            r == pack(false, 0),
    {
        Double { bits: 0 }
    }

    pub open spec fn spec_infinity() -> Double {
        Double { bits: INFINITE }
    }

    #[verifier::when_used_as_spec(spec_infinity)]
    pub fn infinity() -> (r: Double)
        ensures
            r == Double::spec_infinity(),
    {
        Double { bits: INFINITE }
    }

    pub open spec fn spec_largest() -> Double {
        Double { bits: 0x7fef_ffff_ffff_ffff }
    }

    /// The largest finite number.
    #[verifier::when_used_as_spec(spec_largest)]
    pub fn largest() -> (r: Double)
        ensures
            r == Double::spec_largest(),
    {
        Double { bits: 0x7fef_ffff_ffff_ffff }
    }

    /// The NaN that invalid operations return.
    pub fn not_a_number() -> (r: Double)
        ensures
            r == pack_nan(),
    {
        Double { bits: QUIET }
    }

    pub open spec fn spec_one() -> Double {
        Double { bits: 0x3ff0_0000_0000_0000 }
    }

    #[verifier::when_used_as_spec(spec_one)]
    pub fn one() -> (r: Double)
        ensures
            r == Double::spec_one(),
    {
        Double { bits: 0x3ff0_0000_0000_0000 }
    }

    pub fn is_negative(self) -> (r: bool)
        ensures
            r == self.negative(),
    {
        self.bits >= SIGN
    }

    pub fn is_nan(self) -> (r: bool)
        ensures
            r == self.nan(),
    {
        self.bits % SIGN > INFINITE
    }

    pub fn is_finite(self) -> (r: bool)
        ensures
            r == self.finite(),
    {
        self.bits % SIGN < INFINITE
    }

    pub fn is_infinite(self) -> (r: bool)
        ensures
            r == self.infinite(),
    {
        self.bits % SIGN == INFINITE
    }

    /// Significand and exponent of a finite number's magnitude, in units.
    pub fn parts(self) -> (r: (u64, u32))
        requires
            self.finite(),
        ensures
            self.units() == r.0 * pow2(r.1 as nat),
            self.index() == r.1 * P52 + r.0,
            r.0 < P53,
            r.1 <= 2045,
            r.1 == 0 || r.0 >= P52,
            r.0 == 0 <==> self.is_zero(),
    {
        let i = self.bits % SIGN;
        proof {
            lemma2_to64();
        }
        if i < P52 {
            assert(i * pow2(0) == i);
            (i, 0)
        } else {
            (P52 + i % P52, (i / P52 - 1) as u32)
        }
    }

    #[verifier::when_used_as_spec(spec_neg)]
    pub fn neg(self) -> (r: Double)
        ensures
            r == self.spec_neg(),
    {
        if self.bits >= SIGN {
            Double { bits: self.bits - SIGN }
        } else {
            Double { bits: self.bits + SIGN }
        }
    }

    #[verifier::when_used_as_spec(spec_abs)]
    pub fn abs(self) -> (r: Double)
        ensures
            r == self.spec_abs(),
    {
        Double { bits: self.bits % SIGN }
    }

    #[verifier::when_used_as_spec(spec_add)]
    pub fn add(self, b: Double) -> (r: Double)
        ensures
            r == self.spec_add(b),
    {
        if self.is_nan() || b.is_nan() {
            return Double { bits: QUIET };
        }
        if self.is_infinite() {
            if b.is_infinite() && self.is_negative() != b.is_negative() {
                return Double { bits: QUIET };
            }
            return self;
        }
        if b.is_infinite() {
            return b;
        }
        if (self.bits % SIGN) >= (b.bits % SIGN) {
            add_finite(self, b)
        } else {
            add_finite(b, self)
        }
    }

    #[verifier::when_used_as_spec(spec_sub)]
    pub fn sub(self, b: Double) -> (r: Double)
        ensures
            r == self.spec_sub(b),
    {
        self.add(b.neg())
    }

    #[verifier::when_used_as_spec(spec_mul)]
    pub fn mul(self, b: Double) -> (r: Double)
        ensures
            r == self.spec_mul(b),
    {
        let negative = self.is_negative() != b.is_negative();
        if self.is_nan() || b.is_nan() {
            return Double { bits: QUIET };
        }
        if self.is_infinite() || b.is_infinite() {
            if self.bits % SIGN == 0 || b.bits % SIGN == 0 {
                return Double { bits: QUIET };
            }
            return make(negative, INFINITE);
        }
        let (ma, ta) = self.parts();
        let (mb, tb) = b.parts();
        proof {
            assert(ma * mb < 0x1000_0000_0000_0000_0000_0000_0000) by (nonlinear_arith)
                requires
                    ma < P53,
                    mb < P53,
            ;
            lemma2_to64();
            lemma2_to64_rest();
            lemma_pow2_adds(60, 60);
            lemma_mul_dyadic(self, b, ma as nat, ta as nat, mb as nat, tb as nat);
        }
        let p: u128 = (ma as u128) * (mb as u128);
        make(negative, round_index(p, (ta + tb) as i32 - UNIT as i32))
    }

    #[verifier::when_used_as_spec(spec_div)]
    pub fn div(self, b: Double) -> (r: Double)
        ensures
            r == self.spec_div(b),
    {
        let negative = self.is_negative() != b.is_negative();
        let zero_a = self.bits % SIGN == 0;
        let zero_b = b.bits % SIGN == 0;
        if self.is_nan() || b.is_nan() || (self.is_infinite() && b.is_infinite()) || (zero_a
            && zero_b) {
            return Double { bits: QUIET };
        }
        if self.is_infinite() || zero_b {
            return make(negative, INFINITE);
        }
        if b.is_infinite() {
            return make(negative, 0);
        }
        if zero_a {
            proof {
                lemma_zero_over(self, b);
            }
            return make(negative, 0);
        }
        let (ma0, ta) = self.parts();
        let (mb0, tb) = b.parts();
        let (ma, sa) = normalize(ma0);
        let (mb, sb) = normalize(mb0);
        proof {
            lemma2_to64();
            lemma2_to64_rest();
            assert(ma * 0x200_0000_0000_0000 < 0x400_0000_0000_0000_0000_0000_0000_0000) by (nonlinear_arith)
                requires
                    ma < P53,
            ;
        }
        let top: u128 = (ma as u128) * 0x200_0000_0000_0000;
        let q: u128 = top / (mb as u128);
        let r: u128 = top % (mb as u128);
        proof {
            lemma_fundamental_div_mod(top as int, mb as int);
            assert(q <= 0x400_0000_0000_0000) by (nonlinear_arith)
                requires
                    mb * q <= ma * 0x200_0000_0000_0000,
                    ma <= 2 * mb,
                    mb > 0,
            ;
            assert(q >= 0x100_0000_0000_0000) by (nonlinear_arith)
                requires
                    mb * q + r == ma * 0x200_0000_0000_0000,
                    r < mb,
                    2 * ma >= mb,
                    mb > 0,
            ;
            lemma_pow2_strictly_increases(63, 120);
        }
        let p: u128 = 2 * q + if r == 0 {
            0
        } else {
            1
        };
        let t: i32 = ta as i32 - sa as i32 - tb as i32 + sb as i32 + (UNIT as i32) - 58;
        proof {
            assert(ma * 0x200_0000_0000_0000 == q * mb + r) by (nonlinear_arith)
                requires
                    ma * 0x200_0000_0000_0000 == mb * q + r,
            ;
            lemma_div_dyadic(
                self,
                b,
                ma0 as nat,
                ma as nat,
                sa as nat,
                ta as nat,
                mb0 as nat,
                mb as nat,
                sb as nat,
                tb as nat,
                p as nat,
                q as nat,
                r as nat,
                t as int,
            );
        }
        make(negative, round_index(p, t))
    }

    #[verifier::when_used_as_spec(spec_lt)]
    pub fn lt(self, b: Double) -> (r: bool)
        ensures
            r == self.spec_lt(b),
    {
        if self.is_nan() || b.is_nan() {
            return false;
        }
        let i = self.bits % SIGN;
        let j = b.bits % SIGN;
        if self.is_negative() {
            if b.is_negative() {
                j < i
            } else {
                i != 0 || j != 0
            }
        } else {
            !b.is_negative() && i < j
        }
    }

    #[verifier::when_used_as_spec(spec_le)]
    pub fn le(self, b: Double) -> (r: bool)
        ensures
            r == self.spec_le(b),
    {
        !self.is_nan() && !b.is_nan() && !b.lt(self)
    }

    #[verifier::when_used_as_spec(spec_gt)]
    pub fn gt(self, b: Double) -> (r: bool)
        ensures
            r == self.spec_gt(b),
    {
        b.lt(self)
    }

    #[verifier::when_used_as_spec(spec_ge)]
    pub fn ge(self, b: Double) -> (r: bool)
        ensures
            r == self.spec_ge(b),
    {
        b.le(self)
    }

    /// Numeric equality: both zeros are equal, NaN equals nothing.
    #[verifier::when_used_as_spec(spec_same)]
    pub fn same(self, b: Double) -> (r: bool)
        ensures
            r == self.spec_same(b),
    {
        self.le(b) && b.le(self)
    }

    #[verifier::when_used_as_spec(spec_max)]
    pub fn max(self, b: Double) -> (r: Double)
        ensures
            r == self.spec_max(b),
    {
        if self.is_nan() || self.lt(b) {
            b
        } else {
            self
        }
    }

    #[verifier::when_used_as_spec(spec_min)]
    pub fn min(self, b: Double) -> (r: Double)
        ensures
            r == self.spec_min(b),
    {
        if self.is_nan() || b.lt(self) {
            b
        } else {
            self
        }
    }

    /// Whether this number comes before `b` in the total order.
    pub fn total_lt(self, b: Double) -> (r: bool)
        ensures
            r == (rank(self) < rank(b)),
    {
        let i = self.bits % SIGN;
        let j = b.bits % SIGN;
        if self.is_negative() {
            !b.is_negative() || j < i
        } else {
            !b.is_negative() && i < j
        }
    }

    /// The number nearest to a whole number.
    #[verifier::when_used_as_spec(spec_whole)]
    pub fn whole(n: u64) -> (r: Double)
        ensures
            r == Double::spec_whole(n),
    {
        proof {
            lemma2_to64();
            lemma_pow2_strictly_increases(64, 120);
        }
        make(false, round_index(n as u128, UNIT as i32))
    }

    /// The quotient of two whole numbers: `ratio(5, 1000)` is the number written 0.005.
    #[verifier::when_used_as_spec(spec_ratio)]
    pub fn ratio(num: u64, den: u64) -> (r: Double)
        ensures
            r == Double::spec_ratio(num, den),
    {
        Double::whole(num).div(Double::whole(den))
    }

    /// Rounds down to a whole number in the range of `i64`.
    #[verifier::when_used_as_spec(spec_floor)]
    pub fn floor(self) -> (r: i64)
        ensures
            r == self.spec_floor(),
    {
        if self.is_nan() {
            return 0;
        }
        let negative = self.is_negative();
        if self.is_infinite() {
            return if negative {
                i64::MIN
            } else {
                i64::MAX
            };
        }
        let (m, t) = self.parts();
        let ghost un = pow2(UNIT as nat) as int;
        if t >= UNIT {
            let e: u32 = t - UNIT;
            proof {
                rounding::lemma_pow2_split(e as nat, UNIT as nat);
                lemma_whole_units(m as nat, e as nat, self.units());
                lemma2_to64();
                lemma2_to64_rest();
            }
            if e > 10 {
                proof {
                    lemma_pow2_pos(e as nat);
                    if e > 11 {
                        lemma_pow2_strictly_increases(11, e as nat);
                    }
                    assert(m * pow2(e as nat) >= 0x8000_0000_0000_0000) by (nonlinear_arith)
                        requires
                            m >= P52,
                            pow2(e as nat) >= 0x800,
                    ;
                }
                return if negative {
                    i64::MIN
                } else {
                    i64::MAX
                };
            }
            let w: i64 = power(e) as i64;
            proof {
                if e < 10 {
                    lemma_pow2_strictly_increases(e as nat, 10);
                }
                assert(0 <= m * w < 0x8000_0000_0000_0000) by (nonlinear_arith)
                    requires
                        m < P53,
                        0 < w <= 0x400,
                ;
            }
            let n: i64 = (m as i64) * w;
            if negative {
                -n
            } else {
                n
            }
        } else {
            let s: u32 = UNIT - t;
            proof {
                rounding::lemma_pow2_split(s as nat, t as nat);
                lemma_cancel(m as int, pow2(s as nat) as int, pow2(t as nat) as int);
                lemma_cancel(-(m as int), pow2(s as nat) as int, pow2(t as nat) as int);
                assert((-(m as int)) * pow2(t as nat) == -(m * pow2(t as nat))) by (nonlinear_arith);
                lemma2_to64();
                lemma2_to64_rest();
            }
            if s >= 64 {
                proof {
                    if s > 64 {
                        lemma_pow2_strictly_increases(64, s as nat);
                    }
                    lemma_small_floor(m as int, pow2(s as nat) as int);
                }
                return if negative && m != 0 {
                    -1
                } else {
                    0
                };
            }
            let w: u128 = power(s);
            let q: u128 = (m as u128) / w;
            let r: u128 = (m as u128) % w;
            proof {
                lemma_fundamental_div_mod(m as int, w as int);
                lemma_floor_negative(m as int, w as int);
                lemma_div_nonincreasing(m as int, w as int);
            }
            if negative {
                if r == 0 {
                    -(q as i64)
                } else {
                    -(q as i64) - 1
                }
            } else {
                q as i64
            }
        }
    }

    /// Rounds to the nearest whole number, halves away from zero.
    pub open spec fn spec_round(self) -> Double {
        if !self.finite() {
            self
        } else {
            pack(
                self.negative(),
                rounding::round_ratio(
                    ((2 * self.units() + pow2(UNIT as nat)) / (2 * pow2(UNIT as nat))) * pow2(
                        UNIT as nat,
                    ),
                    1,
                ),
            )
        }
    }

    #[verifier::when_used_as_spec(spec_round)]
    pub fn round(self) -> (r: Double)
        ensures
            r == self.spec_round(),
    {
        if !self.is_finite() {
            return self;
        }
        let (m, t) = self.parts();
        let ghost un = pow2(UNIT as nat);
        proof {
            lemma_pow2_pos(UNIT as nat);
        }
        if t >= UNIT {
            proof {
                let e = (t - UNIT) as nat;
                rounding::lemma_pow2_split(e, UNIT as nat);
                let n = m * pow2(e);
                assert(self.units() == n * un) by (nonlinear_arith)
                    requires
                        self.units() == m * pow2(t as nat),
                        pow2(t as nat) == pow2(e) * un,
                        n == m * pow2(e),
                ;
                assert(2 * (n * un) + un == (2 * un) * n + un) by (nonlinear_arith);
                lemma_fundamental_div_mod_converse(
                    (2 * self.units() + un) as int,
                    (2 * un) as int,
                    n as int,
                    un as int,
                );
                rounding::lemma_round_exact(m as nat, t as nat);
            }
            return self;
        }
        let s: u32 = UNIT - t;
        proof {
            rounding::lemma_pow2_split(s as nat, t as nat);
            let w = pow2(s as nat) as int;
            let c = pow2(t as nat) as int;
            assert(2 * (m * c) + w * c == (2 * m + w) * c) by (nonlinear_arith);
            assert(2 * (w * c) == (2 * w) * c) by (nonlinear_arith);
            lemma_cancel(2 * m + w, 2 * w, c);
            lemma2_to64();
            lemma2_to64_rest();
        }
        if s >= 64 {
            proof {
                if s > 64 {
                    lemma_pow2_strictly_increases(64, s as nat);
                }
                let w = pow2(s as nat) as int;
                lemma_fundamental_div_mod_converse(2 * m + w, 2 * w, 0, 2 * m + w);
                lemma_exact_zero(0);
                assert(0nat * un == 0);
                assert(0nat * pow2(0) == 0);
            }
            return make(self.is_negative(), 0);
        }
        let w: u128 = power(s);
        let q: u128 = (2 * (m as u128) + w) / (2 * w);
        proof {
            if s < 63 {
                lemma_pow2_strictly_increases(s as nat, 63);
            }
            lemma_div_nonincreasing(2 * m + w, 2 * w);
            lemma_pow2_strictly_increases(66, 120);
            lemma_pow2_adds(64, 2);
        }
        make(self.is_negative(), round_index(q, UNIT as i32))
    }

    /// The nearest number to the square root; NaN below zero.
    pub open spec fn spec_sqrt(self) -> Double {
        if self.nan() || (self.negative() && !self.is_zero()) {
            pack_nan()
        } else if self.infinite() || self.is_zero() {
            self
        } else {
            let n = self.units() * pow2(UNIT as nat);
            let r = root(n);
            pack(false, rounding::round_ratio(2 * r + if r * r == n {
                0nat
            } else {
                1nat
            }, 2))
        }
    }

    #[verifier::when_used_as_spec(spec_sqrt)]
    pub fn sqrt(self) -> (r: Double)
        ensures
            r == self.spec_sqrt(),
    {
        let zero = self.bits % SIGN == 0;
        if self.is_nan() || (self.is_negative() && !zero) {
            return Double { bits: QUIET };
        }
        if self.is_infinite() || zero {
            return self;
        }
        let (m0, t) = self.parts();
        let (m, sm) = normalize(m0);
        // m * 2^c * 2^(2h) is the radicand, with an even exponent left over
        let e: u32 = t + UNIT - sm;
        let c: u32 = if e % 2 == 0 {
            62
        } else {
            63
        };
        let h: u32 = (e - c) / 2;
        let w = power(c);
        proof {
            lemma2_to64();
            lemma2_to64_rest();
            assert(m * w < 0x10_0000_0000_0000_0000_0000_0000_0000) by (nonlinear_arith)
                requires
                    m < P53,
                    w <= 0x8000_0000_0000_0000,
            ;
            assert(m * w >= 0x4_0000_0000_0000_0000_0000_0000_0000) by (nonlinear_arith)
                requires
                    m >= P52,
                    w >= 0x4000_0000_0000_0000,
            ;
        }
        let n: u128 = (m as u128) * w;
        let s = integer_root(n);
        proof {
            assert(s >= 0x200_0000_0000_0000) by (nonlinear_arith)
                requires
                    n < (s + 1) * (s + 1),
                    n >= 0x4_0000_0000_0000_0000_0000_0000_0000,
            ;
            assert(s * s <= n);
            lemma_pow2_adds(60, 60);
        }
        let p: u128 = 2 * (s as u128) + if (s as u128) * (s as u128) == n {
            0
        } else {
            1
        };
        proof {
            rounding::lemma_pow2_split(sm as nat, e as nat);
            rounding::lemma_pow2_split(t as nat, UNIT as nat);
            rounding::lemma_pow2_split(c as nat, (2 * h) as nat);
            let rad = self.units() * pow2(UNIT as nat);
            let pe = pow2(e as nat);
            assert(rad * pow2(sm as nat) == (m0 * pow2(sm as nat)) * (pow2(sm as nat) * pe))
                by (nonlinear_arith)
                requires
                    rad == (m0 * pow2(t as nat)) * pow2(UNIT as nat),
                    pow2(t as nat) * pow2(UNIT as nat) == pow2(sm as nat) * pe,
            ;
            assert(rad == m * pe) by (nonlinear_arith)
                requires
                    rad * pow2(sm as nat) == m * (pow2(sm as nat) * pe),
                    pow2(sm as nat) > 0,
            ;
            assert(rad == n * pow2((2 * h) as nat)) by (nonlinear_arith)
                requires
                    rad == m * pe,
                    pe == w * pow2((2 * h) as nat),
                    n == m * w,
            ;
            lemma_sqrt_dyadic(n as nat, s as nat, h as nat, p as nat);
        }
        make(false, round_index(p, h as i32 - 1))
    }
}

pub open spec fn pack_nan() -> Double {
    Double { bits: QUIET }
}

/// The whole number nearest to `n` in the range of `i64`.
pub open spec fn clamp64(n: int) -> i64 {
    if n < i64::MIN {
        i64::MIN
    } else if n > i64::MAX {
        i64::MAX
    } else {
        n as i64
    }
}

pub fn power(n: u32) -> (r: u128)
    requires
        n <= 126,
    ensures
        r == pow2(n as nat),
{
    let mut r: u128 = 1;
    let mut i: u32 = 0;
    proof {
        lemma2_to64();
    }
    while i < n
        invariant
            i <= n <= 126,
            r == pow2(i as nat),
            r <= 0x1_0000_0000_0000_0000_0000_0000_0000_0000int / 4,
        decreases n - i,
    {
        proof {
            lemma_pow2_unfold((i + 1) as nat);
            lemma_power_bound((i + 1) as nat);
        }
        r = r * 2;
        i = i + 1;
    }
    r
}

pub proof fn lemma_power_bound(n: nat)
    requires
        n <= 126,
    ensures
        0 < pow2(n) <= 0x1_0000_0000_0000_0000_0000_0000_0000_0000int / 4,
{
    lemma_pow2_pos(n);
    lemma2_to64();
    lemma2_to64_rest();
    lemma_pow2_adds(63, 63);
    if n < 126 {
        lemma_pow2_strictly_increases(n, 126);
    }
    assert(pow2(126) == 0x8000_0000_0000_0000int * 0x8000_0000_0000_0000int);
}

/// The number of binary digits of `p`.
fn bit_length(p: u128) -> (n: u32)
    requires
        p < pow2(120),
    ensures
        n <= 120,
        p < pow2(n as nat),
        n == 0 ==> p == 0,
        n > 0 ==> p >= pow2((n - 1) as nat),
{
    let mut n: u32 = 0;
    let mut w: u128 = 1;
    proof {
        lemma2_to64();
    }
    while p >= w
        invariant
            n <= 120,
            w == pow2(n as nat),
            p < pow2(120),
            n > 0 ==> p >= pow2((n - 1) as nat),
        decreases 121 - n,
    {
        proof {
            assert(n < 120);
            lemma_pow2_unfold((n + 1) as nat);
            lemma_power_bound((n + 1) as nat);
        }
        w = w * 2;
        n = n + 1;
    }
    n
}

/// Rounds `p * 2^t` units to the nearest magnitude.
pub fn round_index(p: u128, t: i32) -> (r: u64)
    requires
        p < pow2(120),
        -5000 <= t <= 5000,
    ensures
        r == (if dyadic(p as nat, t as int) < INFINITE {
            dyadic(p as nat, t as int)
        } else {
            INFINITE as nat
        }),
{
    if p == 0 {
        proof {
            lemma_exact_zero(t as int);
        }
        return 0;
    }
    let len: i32 = bit_length(p) as i32;
    let k: i32 = if len + t > 53 {
        len + t - 53
    } else {
        0
    };
    let s: i32 = k - t;
    let mut q: u128 = 0;
    let mut up: bool = false;
    proof {
        rounding::lemma_p53();
    }
    if s <= 0 {
        let w = power((-s) as u32);
        proof {
            lemma_round_left(p as nat, t as nat, k as nat, len as nat);
        }
        q = p * w;
    } else if s <= 121 {
        let w = power(s as u32);
        proof {
            lemma_pow2_pos(s as nat);
        }
        q = p / w;
        let r: u128 = p % w;
        let half = power((s - 1) as u32);
        up = r > half || (r == half && q % 2 == 1);
        proof {
            lemma_pow2_unfold(s as nat);
            lemma_round_right(p as nat, t as int, k as nat, len as nat);
        }
    } else {
        proof {
            lemma_round_tiny(p as nat, (-t) as nat);
        }
    }
    assert(dyadic(p as nat, t as int) == k * P52 + q + (if up {
        1int
    } else {
        0
    }));
    if k >= 2047 {
        return INFINITE;
    }
    assert(q <= P53);
    let index = (k as u64) * P52 + (q as u64) + if up {
        1
    } else {
        0
    };
    if index < INFINITE {
        index
    } else {
        INFINITE
    }
}

proof fn lemma_exact_zero(t: int)
    ensures
        dyadic(0, t) == 0,
{
    rounding::lemma_p53();
    lemma2_to64();
    if t >= 0 {
        assert(0nat * pow2(t as nat) == 0);
        rounding::lemma_round_is(0, 1, 0, 0, 0);
    } else {
        let d = pow2((-t) as nat);
        lemma_pow2_pos((-t) as nat);
        assert(d * pow2(53) > 0) by (nonlinear_arith)
            requires
                d > 0,
                pow2(53) > 0,
        ;
        assert(0 * (d * pow2(0)) == 0);
        rounding::lemma_round_is(0, d, 0, 0, 0);
    }
}

proof fn lemma_round_left(p: nat, t: nat, k: nat, len: nat)
    requires
        0 < p < pow2(len),
        len > 0,
        p >= pow2((len - 1) as nat),
        k <= t,
        len + t <= 53 + k,
        k > 0 ==> len + t == 53 + k,
    ensures
        rounding::round_ratio(p * pow2(t), 1) == k * P52 + p * pow2((t - k) as nat),
        p * pow2((t - k) as nat) < P53,
        t - k <= 52,
{
    let s = (t - k) as nat;
    let q = p * pow2(s);
    rounding::lemma_p53();
    rounding::lemma_pow2_split(s, k);
    assert(p * (pow2(s) * pow2(k)) == q * pow2(k)) by (nonlinear_arith)
        requires
            q == p * pow2(s),
    ;
    rounding::lemma_pow2_split(len, s);
    assert(q < pow2(len + s)) by (nonlinear_arith)
        requires
            p < pow2(len),
            q == p * pow2(s),
            pow2(len + s) == pow2(len) * pow2(s),
            pow2(s) > 0,
    ;
    if len + s < 53 {
        lemma_pow2_strictly_increases(len + s, 53);
    }
    if k > 0 {
        let l1 = (len - 1) as nat;
        rounding::lemma_pow2_split(l1, s);
        assert(l1 + s == 52);
        assert(q >= P52) by (nonlinear_arith)
            requires
                p >= pow2(l1),
                q == p * pow2(s),
                P52 == pow2(l1) * pow2(s),
        ;
    }
    rounding::lemma_round_exact(q, k);
}

proof fn lemma_round_right(p: nat, t: int, k: nat, len: nat)
    requires
        p < pow2(len),
        len > 0 ==> p >= pow2((len - 1) as nat),
        len == 0 ==> p == 0,
        t < k,
        len + t <= 53 + k,
        k > 0 ==> len + t == 53 + k && len > 0,
    ensures
        ({
            let w = pow2((k - t) as nat);
            let q = p / w;
            &&& dyadic(p, t) == k * P52 + q + (if rounding::rounds_up(q, p % w, w) {
                1int
            } else {
                0
            })
            &&& q < P53
        }),
{
    let s = (k - t) as nat;
    let w = pow2(s);
    lemma_pow2_pos(s);
    let q = p / w;
    let r = p % w;
    lemma_fundamental_div_mod(p as int, w as int);
    lemma_mod_pos_bound(p as int, w as int);
    assert(p == q * w + r) by (nonlinear_arith)
        requires
            p == w * q + r,
    ;
    if t >= 0 {
        let tn = t as nat;
        let pt = pow2(tn);
        rounding::lemma_pow2_split(s, tn);
        assert(pow2(k) == w * pt);
        assert(p * pt == q * pow2(k) + r * pt) by (nonlinear_arith)
            requires
                p == q * w + r,
                pow2(k) == w * pt,
        ;
        assert(r * pt < pow2(k)) by (nonlinear_arith)
            requires
                r < w,
                pow2(k) == w * pt,
                pt > 0,
        ;
        rounding::lemma_pow2_split(len, tn);
        assert(p * pt < pow2(len + tn)) by (nonlinear_arith)
            requires
                p < pow2(len),
                pow2(len + tn) == pow2(len) * pt,
                pt > 0,
        ;
        if len + tn < 53 + k {
            lemma_pow2_strictly_increases(len + tn, 53 + k);
        }
        if k > 0 {
            let l1 = (len - 1) as nat;
            rounding::lemma_pow2_split(l1, tn);
            assert(l1 + tn == 52 + k);
            assert(p * pt >= pow2(52 + k)) by (nonlinear_arith)
                requires
                    p >= pow2(l1),
                    pow2(52 + k) == pow2(l1) * pt,
            ;
        }
        assert(1 * pow2(k) == pow2(k));
        rounding::lemma_round_is(p * pt, 1, k, q, r * pt);
        assert(2 * (r * pt) > w * pt <==> 2 * r > w) by (nonlinear_arith)
            requires
                pt > 0,
        ;
        assert(2 * (r * pt) == w * pt <==> 2 * r == w) by (nonlinear_arith)
            requires
                pt > 0,
        ;
    } else {
        let tn = (-t) as nat;
        let den = pow2(tn);
        rounding::lemma_pow2_split(tn, k);
        assert(tn + k == s);
        rounding::lemma_pow2_split(tn, 53 + k);
        assert(tn + (53 + k) >= len);
        if len < tn + (53 + k) {
            lemma_pow2_strictly_increases(len, tn + (53 + k));
        }
        if k > 0 {
            rounding::lemma_pow2_split(tn, 52 + k);
            assert(tn + (52 + k) == len - 1);
        }
        rounding::lemma_round_is(p, den, k, q, r);
    }
}

proof fn lemma_round_tiny(p: nat, n: nat)
    requires
        p < pow2(120),
        n >= 122,
    ensures
        rounding::round_ratio(p, pow2(n)) == 0,
{
    lemma_pow2_unfold(122);
    lemma_pow2_unfold(121);
    if n > 122 {
        lemma_pow2_strictly_increases(122, n);
    }
    let d = pow2(n);
    lemma2_to64();
    rounding::lemma_p53();
    assert(p < d * pow2(53)) by (nonlinear_arith)
        requires
            p < d,
            pow2(53) > 1,
    ;
    assert(d * pow2(0) == d);
    rounding::lemma_round_is(p, d, 0, 0, p);
}


/// Two ways to write one ratio round alike.
proof fn lemma_round_cross(n1: nat, d1: nat, n2: nat, d2: nat)
    requires
        d1 > 0,
        d2 > 0,
        n1 * d2 == n2 * d1,
    ensures
        rounding::round_ratio(n1, d1) == rounding::round_ratio(n2, d2),
{
    rounding::lemma_round_monotone(n1, d1, n2, d2);
    rounding::lemma_round_monotone(n2, d2, n1, d1);
}

/// A number too small to move its neighbour: adding it to, or taking it from, a
/// magnitude more than 56 binary places above rounds back to that magnitude.
proof fn lemma_round_far(m: nat, j: nat, s: nat)
    requires
        P52 <= m < P53,
        j >= 57,
        s < P53 * pow2((j - 57) as nat),
    ensures
        rounding::round_ratio(m * pow2(j) + s, 1) == j * P52 + m,
        m * pow2(j) >= s,
        rounding::round_ratio((m * pow2(j) - s) as nat, 1) == j * P52 + m,
{
    rounding::lemma_p53();
    lemma2_to64();
    let w = pow2(j);
    let b = pow2((j - 57) as nat);
    rounding::lemma_pow2_split(57, (j - 57) as nat);
    lemma2_to64_rest();
    assert(w == 16 * (P53 * b)) by (nonlinear_arith)
        requires
            w == pow2(57) * b,
            pow2(57) == 16 * P53,
    ;
    let sixteenth = P53 * b;
    rounding::lemma_pow2_split(53, j);
    rounding::lemma_pow2_split(52, j);
    // above
    assert(m * w + s < P53 * w) by (nonlinear_arith)
        requires
            m + 1 <= P53,
            s < w,
    ;
    assert(m * w >= P52 * w) by (nonlinear_arith)
        requires
            m >= P52,
    ;
    rounding::lemma_round_is(m * w + s, 1, j, m, s);
    // below
    if s == 0 {
        assert(m * w - s == m * w);
    } else if m > P52 {
        let n = (m * w - s) as nat;
        assert((m - 1) * w >= P52 * w) by (nonlinear_arith)
            requires
                m - 1 >= P52,
        ;
        assert(m * w == (m - 1) * w + w) by (nonlinear_arith);
        rounding::lemma_round_is(n, 1, j, (m - 1) as nat, (w - s) as nat);
    } else {
        let n = (m * w - s) as nat;
        let i = (j - 1) as nat;
        let h = pow2(i);
        lemma_pow2_unfold(j);
        rounding::lemma_pow2_split(53, i);
        rounding::lemma_pow2_split(52, i);
        assert(m * w == P53 * h) by (nonlinear_arith)
            requires
                m == P52,
                w == 2 * h,
                P53 == 2 * P52,
        ;
        assert(P53 * h == (P53 - 1) * h + h) by (nonlinear_arith);
        assert((P53 - 1) * h >= P52 * h) by (nonlinear_arith)
            requires
                h > 0,
        ;
        rounding::lemma_round_is(n, 1, i, (P53 - 1) as nat, (h - s) as nat);
        assert(i * P52 + P53 == j * P52 + P52) by (nonlinear_arith)
            requires
                i + 1 == j,
                P53 == 2 * P52,
        ;
    }
}

pub proof fn lemma_cancel(x: int, d: int, c: int)
    requires
        d > 0,
        c > 0,
    ensures
        (x * c) / (d * c) == x / d,
{
    let q = x / d;
    let r = x % d;
    lemma_fundamental_div_mod(x, d);
    lemma_mod_bound(x, d);
    assert(x * c == q * (d * c) + r * c) by (nonlinear_arith)
        requires
            x == d * q + r,
    ;
    assert(0 <= r * c < d * c) by (nonlinear_arith)
        requires
            0 <= r < d,
            c > 0,
    ;
    assert(d * c > 0) by (nonlinear_arith)
        requires
            d > 0,
            c > 0,
    ;
    lemma_fundamental_div_mod_converse(x * c, d * c, q, r * c);
}

pub fn make(negative: bool, index: u64) -> (r: Double)
    requires
        index <= INFINITE,
    ensures
        r == pack(negative, index as nat),
{
    if negative {
        Double { bits: index + SIGN }
    } else {
        Double { bits: index }
    }
}

fn normalize(m: u64) -> (r: (u64, u32))
    requires
        0 < m < P53,
    ensures
        r.0 == m * pow2(r.1 as nat),
        P52 <= r.0 < P53,
        r.1 <= 52,
{
    let mut v = m;
    let mut s: u32 = 0;
    proof {
        lemma2_to64();
        rounding::lemma_p53();
    }
    while v < P52
        invariant
            0 < m < P53,
            v == m * pow2(s as nat),
            0 < v < P53,
            s <= 52,
        decreases P53 - v,
    {
        proof {
            rounding::lemma_p53();
            if s >= 52 {
                assert(v >= P52) by (nonlinear_arith)
                    requires
                        v == m * pow2(52),
                        m >= 1,
                        pow2(52) == P52,
                ;
            }
            lemma_pow2_unfold((s + 1) as nat);
            assert(2 * v == m * pow2((s + 1) as nat)) by (nonlinear_arith)
                requires
                    v == m * pow2(s as nat),
                    pow2((s + 1) as nat) == 2 * pow2(s as nat),
            ;
        }
        v = v * 2;
        s = s + 1;
    }
    (v, s)
}

/// The sum of two finite numbers, the one of larger magnitude first.
fn add_finite(a: Double, b: Double) -> (r: Double)
    requires
        a.finite(),
        b.finite(),
        a.index() >= b.index(),
    ensures
        r == a.spec_add(b),
        r == b.spec_add(a),
{
    let (ma, ta) = a.parts();
    let (mb, tb) = b.parts();
    proof {
        lemma_exponents(ma as nat, ta as nat, mb as nat, tb as nat);
    }
    let d: u32 = ta - tb;
    if d > 56 {
        proof {
            lemma_pow2_pos((ta - 57) as nat);
            let small = mb * pow2(tb as nat);
            let limit = pow2((ta - 57) as nat);
            if tb < ta - 57 {
                lemma_pow2_strictly_increases(tb as nat, (ta - 57) as nat);
            }
            assert(small < P53 * limit) by (nonlinear_arith)
                requires
                    small == mb * pow2(tb as nat),
                    mb < P53,
                    pow2(tb as nat) <= limit,
                    limit > 0,
            ;
            lemma_round_far(ma as nat, ta as nat, b.units());
            assert(P53 * limit <= ma * pow2(ta as nat)) by {
                rounding::lemma_pow2_split(57, (ta - 57) as nat);
                lemma2_to64_rest();
                assert(P53 * limit <= ma * pow2(ta as nat)) by (nonlinear_arith)
                    requires
                        pow2(ta as nat) == pow2(57) * limit,
                        pow2(57) >= P53,
                        ma >= 1,
                        limit > 0,
                ;
            }
        }
        return a;
    }
    let w: u128 = power(d);
    let ghost ua = a.units();
    let ghost ub = b.units();
    proof {
        rounding::lemma_p53();
        rounding::lemma_pow2_split(d as nat, tb as nat);
        lemma2_to64_rest();
        lemma2_to64();
        if d < 56 {
            lemma_pow2_strictly_increases(d as nat, 56);
        }
        assert(ma * w <= 0x2000_0000_0000_0000_0000_0000_0000) by (nonlinear_arith)
            requires
                ma < P53,
                w <= 0x100_0000_0000_0000,
        ;
        assert(ua == (ma * w) * pow2(tb as nat)) by (nonlinear_arith)
            requires
                ua == ma * pow2(ta as nat),
                pow2(ta as nat) == w * pow2(tb as nat),
        ;
        lemma_pow2_adds(60, 60);
    }
    let wide: u128 = (ma as u128) * w;
    let narrow: u128 = mb as u128;
    let pt: Ghost<nat> = Ghost(pow2(tb as nat));
    proof {
        lemma_pow2_pos(tb as nat);
        assert(wide >= narrow) by {
            lemma_units_order(a, b);
            assert(wide >= narrow) by (nonlinear_arith)
                requires
                    wide * pt@ >= narrow * pt@,
                    pt@ > 0,
            ;
        }
    }
    if a.is_negative() == b.is_negative() {
        let p = wide + narrow;
        proof {
            assert(p * pt@ == wide * pt@ + narrow * pt@) by (nonlinear_arith)
                requires
                    p == wide + narrow,
            ;
            if p == 0 {
                lemma_exact_zero(tb as int);
                assert(0 * pt@ == 0);
            } else {
                assert(p * pt@ > 0) by (nonlinear_arith)
                    requires
                        p > 0,
                        pt@ > 0,
                ;
            }
        }
        make(a.is_negative(), round_index(p, tb as i32))
    } else {
        let p = wide - narrow;
        proof {
            assert(p * pt@ == wide * pt@ - narrow * pt@) by (nonlinear_arith)
                requires
                    p == wide - narrow,
            ;
            if p > 0 {
                assert(p * pt@ > 0) by (nonlinear_arith)
                    requires
                        p > 0,
                        pt@ > 0,
                ;
            } else {
                assert(0 * pt@ == 0);
            }
        }
        if p == 0 {
            return Double { bits: 0 };
        }
        make(a.is_negative(), round_index(p, tb as i32))
    }
}

proof fn lemma_exponents(ma: nat, ta: nat, mb: nat, tb: nat)
    requires
        ta * P52 + ma >= tb * P52 + mb,
        ma < P53,
        mb < P53,
        ta == 0 || ma >= P52,
        tb == 0 || mb >= P52,
    ensures
        ta >= tb,
{
    if ta < tb {
        assert(ta * P52 + P52 <= tb * P52) by (nonlinear_arith)
            requires
                ta + 1 <= tb,
        ;
    }
}

/// A larger magnitude index means a larger magnitude.
pub proof fn lemma_units_order(a: Double, b: Double)
    requires
        a.finite(),
        b.finite(),
        a.index() >= b.index(),
    ensures
        a.units() >= b.units(),
{
    let i = a.index();
    let j = b.index();
    let p = P52 as nat;
    if j >= p {
        let ta = (i / p - 1) as nat;
        let tb = (j / p - 1) as nat;
        let ma = (p + i % p) as nat;
        let mb = (p + j % p) as nat;
        assert(ta >= tb);
        if ta == tb {
            assert(ma >= mb);
            assert(ma * pow2(ta) >= mb * pow2(ta)) by (nonlinear_arith)
                requires
                    ma >= mb,
            ;
        } else {
            lemma_pow2_unfold(ta);
            let h = pow2((ta - 1) as nat);
            if tb < ta - 1 {
                lemma_pow2_strictly_increases(tb, (ta - 1) as nat);
            }
            assert(ma * pow2(ta) >= mb * pow2(tb)) by (nonlinear_arith)
                requires
                    pow2(ta) == 2 * h,
                    pow2(tb) <= h,
                    ma >= p,
                    mb <= 2 * p,
            ;
        }
    } else if i >= p {
        let ta = (i / p - 1) as nat;
        let ma = (p + i % p) as nat;
        lemma_pow2_pos(ta);
        assert(ma * pow2(ta) >= ma) by (nonlinear_arith)
            requires
                pow2(ta) >= 1,
        ;
    }
}

proof fn lemma_mul_dyadic(a: Double, b: Double, ma: nat, ta: nat, mb: nat, tb: nat)
    requires
        a.units() == ma * pow2(ta),
        b.units() == mb * pow2(tb),
    ensures
        rounding::round_ratio(a.units() * b.units(), pow2(UNIT as nat)) == dyadic(
            ma * mb,
            ta + tb - UNIT,
        ),
{
    let p = ma * mb;
    let e = ta + tb;
    let un = pow2(UNIT as nat);
    lemma_pow2_pos(UNIT as nat);
    rounding::lemma_pow2_split(ta, tb);
    let ab = a.units() * b.units();
    assert(ab == p * pow2(e)) by (nonlinear_arith)
        requires
            a.units() == ma * pow2(ta),
            b.units() == mb * pow2(tb),
            ab == a.units() * b.units(),
            p == ma * mb,
            pow2(e) == pow2(ta) * pow2(tb),
    ;
    let t = e - UNIT;
    if t >= 0 {
        rounding::lemma_pow2_split(t as nat, UNIT as nat);
        assert(p * pow2(e) == (p * pow2(t as nat)) * un) by (nonlinear_arith)
            requires
                pow2(e) == pow2(t as nat) * un,
        ;
        rounding::lemma_round_scale(p * pow2(t as nat), 1, un);
        assert(1 * un == un);
    } else {
        rounding::lemma_pow2_split((-t) as nat, e);
        rounding::lemma_round_scale(p, pow2((-t) as nat), pow2(e));
    }
}

proof fn lemma_zero_over(a: Double, b: Double)
    requires
        a.is_zero(),
        b.finite(),
        !b.is_zero(),
    ensures
        rounding::round_ratio(a.units() * pow2(UNIT as nat), b.units()) == 0,
{
    assert(a.units() == 0);
    assert(0nat * pow2(UNIT as nat) == 0);
    lemma_units_positive(b);
    let d = b.units();
    lemma2_to64();
    lemma_pow2_pos(53);
    assert(d * pow2(53) > 0) by (nonlinear_arith)
        requires
            d > 0,
            pow2(53) > 0,
    ;
    assert(0 * (d * pow2(0)) == 0);
    rounding::lemma_round_is(0, d, 0, 0, 0);
}

/// Only the zeros have magnitude zero.
pub proof fn lemma_units_positive(x: Double)
    requires
        x.finite(),
    ensures
        x.units() == 0 <==> x.is_zero(),
{
    let i = x.index();
    let p = P52 as nat;
    if i >= p {
        let t = (i / p - 1) as nat;
        lemma_pow2_pos(t);
        let m = (p + i % p) as nat;
        assert(m * pow2(t) > 0) by (nonlinear_arith)
            requires
                m > 0,
                pow2(t) > 0,
        ;
    }
}

proof fn lemma_div_dyadic(
    a: Double,
    b: Double,
    ma0: nat,
    ma: nat,
    sa: nat,
    ta: nat,
    mb0: nat,
    mb: nat,
    sb: nat,
    tb: nat,
    p: nat,
    q: nat,
    r: nat,
    t: int,
)
    requires
        b.finite(),
        !b.is_zero(),
        a.units() == ma0 * pow2(ta),
        b.units() == mb0 * pow2(tb),
        ma == ma0 * pow2(sa),
        mb == mb0 * pow2(sb),
        mb > 0,
        ma * 0x200_0000_0000_0000 == q * mb + r,
        r < mb,
        p == 2 * q + (if r == 0 {
            0int
        } else {
            1
        }),
        p >= 4 * P53,
        t == ta - sa - tb + sb + UNIT - 58,
    ensures
        rounding::round_ratio(a.units() * pow2(UNIT as nat), b.units()) == dyadic(p, t),
{
    let ua = a.units();
    let ub = b.units();
    lemma_units_positive(b);
    let un = pow2(UNIT as nat);
    let u: nat = if t >= 0 {
        t as nat
    } else {
        0
    };
    let v: nat = if t >= 0 {
        0
    } else {
        (-t) as nat
    };
    lemma2_to64();
    lemma2_to64_rest();
    let num = ma * pow2(58);
    assert(num == 2 * (q * mb + r)) by (nonlinear_arith)
        requires
            ma * 0x200_0000_0000_0000 == q * mb + r,
            num == ma * 0x400_0000_0000_0000,
            pow2(58) == 0x400_0000_0000_0000,
    ;
    let pu = pow2(u);
    let pv = pow2(v);
    lemma_pow2_pos(u);
    lemma_pow2_pos(v);
    assert(mb * pv > 0) by (nonlinear_arith)
        requires
            mb > 0,
            pv > 0,
    ;
    // the same ratio, written over the normalized significands
    let x = pow2(sa);
    let y = pow2(sb);
    let e = pow2(ta);
    let f = pow2(tb);
    lemma_pow2_pos(sa);
    lemma_pow2_pos(sb);
    let lhs = e * un * pv * y;
    let rhs = pow2(58) * pu * f * x;
    assert(lhs == rhs) by {
        rounding::lemma_pow2_split(ta, UNIT as nat);
        rounding::lemma_pow2_split(ta + UNIT as nat, v);
        rounding::lemma_pow2_split(ta + UNIT as nat + v, sb);
        rounding::lemma_pow2_split(58, u);
        rounding::lemma_pow2_split(58 + u, tb);
        rounding::lemma_pow2_split(58 + u + tb, sa);
        assert(ta + UNIT as nat + v + sb == 58 + u + tb + sa);
    }
    let left = (ua * un) * (mb * pv);
    let right = (num * pu) * ub;
    assert(left * (x * y) == right * (x * y)) by {
        assert(ua * x == ma * e) by (nonlinear_arith)
            requires
                ua == ma0 * e,
                ma == ma0 * x,
        ;
        assert(ub * y == mb * f) by (nonlinear_arith)
            requires
                ub == mb0 * f,
                mb == mb0 * y,
        ;
        let s58 = pow2(58);
        assert(((ua * un) * (mb * pv)) * (x * y) == (ua * x) * (un * mb * pv * y)) by (nonlinear_arith);
        assert((ma * e) * (un * mb * pv * y) == (ma * mb) * (e * un * pv * y)) by (nonlinear_arith);
        assert((((ma * s58) * pu) * ub) * (x * y) == (ub * y) * (ma * s58 * pu * x)) by (nonlinear_arith);
        assert((mb * f) * (ma * s58 * pu * x) == (ma * mb) * (s58 * pu * f * x)) by (nonlinear_arith);
    }
    assert(left == right) by (nonlinear_arith)
        requires
            left * (x * y) == right * (x * y),
            x > 0,
            y > 0,
    ;
    lemma_round_cross(ua * un, ub, num * pu, mb * pv);
    if r == 0 {
        assert(num * pu == (p * pu) * mb) by (nonlinear_arith)
            requires
                num == 2 * (q * mb),
                p == 2 * q,
        ;
        assert(mb * pv == pv * mb) by (nonlinear_arith);
        rounding::lemma_round_scale(p * pu, pv, mb);
    } else {
        assert((p - 1) * mb < num) by (nonlinear_arith)
            requires
                num == 2 * (q * mb + r),
                p - 1 == 2 * q,
                r > 0,
        ;
        assert(num < (p + 1) * mb) by (nonlinear_arith)
            requires
                num == 2 * (q * mb + r),
                p + 1 == 2 * q + 2,
                r < mb,
        ;
        rounding::lemma_round_sticky(num, mb, p, u, v);
    }
    if t >= 0 {
        assert(pow2(0) == 1);
    } else {
        assert(p * pow2(0) == p);
    }
}

proof fn lemma_whole_units(m: nat, e: nat, units: nat)
    requires
        units == m * pow2(e + UNIT as nat),
    ensures
        (units as int) / (pow2(UNIT as nat) as int) == m * pow2(e),
        (-(units as int)) / (pow2(UNIT as nat) as int) == -(m * pow2(e)),
{
    let un = pow2(UNIT as nat) as int;
    let n = (m * pow2(e)) as int;
    rounding::lemma_pow2_split(e, UNIT as nat);
    assert(units == n * un) by (nonlinear_arith)
        requires
            units == m * (pow2(e) * un),
            n == m * pow2(e),
    ;
    assert(-(units as int) == (-n) * un) by (nonlinear_arith)
        requires
            units == n * un,
    ;
    lemma_fundamental_div_mod_converse(units as int, un, n, 0);
    lemma_fundamental_div_mod_converse(-(units as int), un, -n, 0);
}

proof fn lemma_small_floor(m: int, w: int)
    requires
        0 <= m < w,
    ensures
        m / w == 0,
        (-m) / w == if m == 0 {
            0int
        } else {
            -1
        },
{
    lemma_fundamental_div_mod_converse(m, w, 0, m);
    if m > 0 {
        lemma_fundamental_div_mod_converse(-m, w, -1, w - m);
    } else {
        lemma_fundamental_div_mod_converse(-m, w, 0, 0);
    }
}

proof fn lemma_floor_negative(m: int, w: int)
    requires
        0 <= m,
        0 < w,
    ensures
        (-m) / w == if m % w == 0 {
            -(m / w)
        } else {
            -(m / w) - 1
        },
{
    let q = m / w;
    let r = m % w;
    lemma_fundamental_div_mod(m, w);
    lemma_mod_bound(m, w);
    if r == 0 {
        assert(-m == (-q) * w) by (nonlinear_arith)
            requires
                m == w * q,
        ;
        lemma_fundamental_div_mod_converse(-m, w, -q, 0);
    } else {
        assert(-m == (-q - 1) * w + (w - r)) by (nonlinear_arith)
            requires
                m == w * q + r,
        ;
        lemma_fundamental_div_mod_converse(-m, w, -q - 1, w - r);
    }
}

/// The largest whole number whose square is at most `n`.
pub open spec fn root(n: nat) -> nat {
    choose|r: nat| is_root(n, r)
}

pub open spec fn is_root(n: nat, r: nat) -> bool {
    r * r <= n < (r + 1) * (r + 1)
}

proof fn lemma_root_is(n: nat, r: nat)
    requires
        r * r <= n,
        n < (r + 1) * (r + 1),
    ensures
        root(n) == r,
{
    assert(is_root(n, r));
    let s = root(n);
    assert(is_root(n, s));
    if s < r {
        assert(false) by (nonlinear_arith)
            requires
                s + 1 <= r,
                n < (s + 1) * (s + 1),
                r * r <= n,
        ;
    }
    if r < s {
        assert(false) by (nonlinear_arith)
            requires
                r + 1 <= s,
                n < (r + 1) * (r + 1),
                s * s <= n,
        ;
    }
}

proof fn lemma_root_exists(n: nat) -> (r: nat)
    ensures
        r * r <= n < (r + 1) * (r + 1),
    decreases n,
{
    if n == 0 {
        assert(0nat * 0 <= 0nat < (0 + 1) * (0 + 1)) by (nonlinear_arith);
        0
    } else {
        let s = lemma_root_exists((n - 1) as nat);
        if n < (s + 1) * (s + 1) {
            s
        } else {
            assert((s + 1) * (s + 1) <= n);
            assert(n < (s + 1 + 1) * (s + 1 + 1)) by (nonlinear_arith)
                requires
                    n - 1 < (s + 1) * (s + 1),
            ;
            s + 1
        }
    }
}

/// The whole part of a square root.
fn integer_root(n: u128) -> (r: u64)
    requires
        n < 0x10_0000_0000_0000_0000_0000_0000_0000,
    ensures
        r * r <= n < (r + 1) * (r + 1),
        r < 0x400_0000_0000_0000,
{
    let mut lo: u64 = 0;
    let mut hi: u64 = 0x400_0000_0000_0000;
    while hi - lo > 1
        invariant
            lo < hi <= 0x400_0000_0000_0000,
            lo * lo <= n,
            n < hi * hi,
        decreases hi - lo,
    {
        let mid = lo + (hi - lo) / 2;
        proof {
            assert(mid * mid < 0x100_0000_0000_0000_0000_0000_0000_0000) by (nonlinear_arith)
                requires
                    mid <= 0x400_0000_0000_0000,
            ;
        }
        if (mid as u128) * (mid as u128) <= n {
            lo = mid;
        } else {
            hi = mid;
        }
    }
    assert(hi == lo + 1);
    lo
}

proof fn lemma_sqrt_dyadic(n: nat, s: nat, h: nat, p: nat)
    requires
        s * s <= n < (s + 1) * (s + 1),
        p == 2 * s + (if s * s == n {
            0int
        } else {
            1
        }),
        p >= 4 * P53,
        h >= 1,
    ensures
        ({
            let rad = n * pow2(2 * h);
            let r = root(rad);
            rounding::round_ratio(2 * r + if r * r == rad {
                0nat
            } else {
                1nat
            }, 2) == dyadic(p, h - 1)
        }),
{
    let w = pow2(h);
    let half = pow2((h - 1) as nat);
    lemma_pow2_pos(h);
    lemma_pow2_pos((h - 1) as nat);
    lemma_pow2_unfold(h);
    rounding::lemma_pow2_split(h, h);
    assert(h + h == 2 * h);
    let rad = n * pow2(2 * h);
    let r = lemma_root_exists(rad);
    lemma_root_is(rad, r);
    let sw = s * w;
    assert(sw * sw <= rad) by (nonlinear_arith)
        requires
            sw == s * w,
            s * s <= n,
            rad == n * (w * w),
            w > 0,
    ;
    assert((sw + w) * (sw + w) > rad) by (nonlinear_arith)
        requires
            sw == s * w,
            n < (s + 1) * (s + 1),
            rad == n * (w * w),
            w > 0,
    ;
    assert(r >= sw) by (nonlinear_arith)
        requires
            sw * sw <= rad,
            rad < (r + 1) * (r + 1),
    ;
    assert(r < sw + w) by (nonlinear_arith)
        requires
            (sw + w) * (sw + w) > rad,
            r * r <= rad,
    ;
    let st: nat = if r * r == rad {
        0
    } else {
        1
    };
    let num = 2 * r + st;
    if s * s == n {
        assert(sw * sw == rad) by (nonlinear_arith)
            requires
                sw == s * w,
                s * s == n,
                rad == n * (w * w),
        ;
        assert(rad < (sw + 1) * (sw + 1)) by (nonlinear_arith)
            requires
                sw * sw == rad,
        ;
        lemma_root_is(rad, sw);
        assert(num == (p * half) * 2) by (nonlinear_arith)
            requires
                num == 2 * (s * w),
                w == 2 * half,
                p == 2 * s,
        ;
        rounding::lemma_round_scale(p * half, 1, 2);
        assert(1nat * 2 == 2);
    } else {
        if r == sw {
            assert(sw * sw < rad) by (nonlinear_arith)
                requires
                    sw == s * w,
                    s * s < n,
                    rad == n * (w * w),
                    w > 0,
            ;
        }
        assert((p - 1) * w < num) by (nonlinear_arith)
            requires
                num > 2 * sw,
                sw == s * w,
                p - 1 == 2 * s,
        ;
        assert(num < (p + 1) * w) by (nonlinear_arith)
            requires
                num < 2 * (sw + w),
                sw == s * w,
                p + 1 == 2 * s + 2,
        ;
        lemma2_to64();
        rounding::lemma_round_sticky(num, w, p, (h - 1) as nat, 0);
        assert(w * pow2(0) == w);
        assert(w == 2 * half);
        rounding::lemma_round_scale(num, 2, half);
    }
}

} // verus!

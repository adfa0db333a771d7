//! Laws of [`Double`]: its order is the numeric order, and rounding keeps it.
use vstd::prelude::*;
use vstd::arithmetic::power2::*;
use crate::double;
use crate::double::{Double, INFINITE, SIGN, UNIT};
use crate::rounding;
use crate::rounding::P52;

verus! {

/// A finite number is the nearest number to its own value.
pub proof fn a_number_rounds_to_itself(x: Double)
    requires
        x.finite(),
    ensures
        rounding::round_ratio(x.units(), 1) == x.index(),
{
    let i = x.index();
    let p = P52 as nat;
    if i < p {
        lemma2_to64();
        rounding::lemma_round_exact(i, 0);
        assert(i * pow2(0) == i);
    } else {
        rounding::lemma_round_exact((p + i % p) as nat, (i / p - 1) as nat);
    }
}

/// Among finite numbers `lt`, `le` and `same` compare values.
pub proof fn order_is_numeric(a: Double, b: Double)
    requires
        a.finite(),
        b.finite(),
    ensures
        a.lt(b) <==> a.value() < b.value(),
        a.le(b) <==> a.value() <= b.value(),
        a.same(b) <==> a.value() == b.value(),
{
    a_number_rounds_to_itself(a);
    a_number_rounds_to_itself(b);
    double::lemma_units_positive(a);
    double::lemma_units_positive(b);
    if a.index() >= b.index() {
        double::lemma_units_order(a, b);
    } else {
        double::lemma_units_order(b, a);
    }
}

proof fn lemma_pack(negative: bool, index: nat)
    ensures
        ({
            let x = double::pack(negative, index);
            &&& x.negative() == negative
            &&& x.index() == (if index < INFINITE {
                index
            } else {
                INFINITE as nat
            })
            &&& !x.nan()
        }),
{
}

/// Rounding a value never passes another value's rounding.
pub proof fn nearest_keeps_order(s: int, t: int)
    requires
        s <= t,
    ensures
        double::nearest(s).le(double::nearest(t)),
{
    lemma_pack(s < 0, rounding::round_ratio((if s < 0 {
        -s
    } else {
        s
    }) as nat, 1));
    lemma_pack(t < 0, rounding::round_ratio((if t < 0 {
        -t
    } else {
        t
    }) as nat, 1));
    if s >= 0 {
        rounding::lemma_round_monotone(s as nat, 1, t as nat, 1);
    } else if t < 0 {
        rounding::lemma_round_monotone((-t) as nat, 1, (-s) as nat, 1);
    }
}

proof fn lemma_sum_is_nearest(a: Double, c: Double)
    requires
        a.finite(),
        c.finite(),
    ensures
        !a.add(c).nan(),
        double::ordinal(a.add(c)) == double::ordinal(double::nearest(a.value() + c.value())),
{
    let s = a.value() + c.value();
    lemma_pack(s < 0, rounding::round_ratio((if s < 0 {
        -s
    } else {
        s
    }) as nat, 1));
    if s == 0 {
        let z = Double::zero();
        assert(z.units() == 0);
        a_number_rounds_to_itself(z);
    }
}

/// Adding the same finite number to both sides keeps the order.
pub proof fn sum_keeps_order(a: Double, b: Double, c: Double)
    requires
        a.finite(),
        b.finite(),
        c.finite(),
        a.le(b),
    ensures
        a.add(c).le(b.add(c)),
{
    order_is_numeric(a, b);
    lemma_sum_is_nearest(a, c);
    lemma_sum_is_nearest(b, c);
    nearest_keeps_order(a.value() + c.value(), b.value() + c.value());
}

/// A finite number does not fall when a finite number that is not negative is added.
pub proof fn sum_with_non_negative(a: Double, c: Double)
    requires
        a.finite(),
        c.finite(),
        Double::zero().le(c),
    ensures
        a.le(a.add(c)),
{
    let z = Double::zero();
    assert(z.units() == 0);
    order_is_numeric(z, c);
    lemma_sum_is_nearest(a, c);
    nearest_keeps_order(a.value(), a.value() + c.value());
    lemma_value_is_nearest(a);
}

/// Taking a finite number that is not negative from a finite number never raises it.
pub proof fn difference_with_non_negative(a: Double, c: Double)
    requires
        a.finite(),
        c.finite(),
        Double::zero().le(c),
    ensures
        a.sub(c).le(a),
{
    let z = Double::zero();
    assert(z.units() == 0);
    order_is_numeric(z, c);
    let n = c.neg();
    assert(n.index() == c.index());
    assert(n.units() == c.units());
    lemma_sum_is_nearest(a, n);
    double::lemma_units_positive(c);
    nearest_keeps_order(a.value() + n.value(), a.value());
    lemma_value_is_nearest(a);
}

/// The difference of two finite numbers is not positive when the first is not larger.
pub proof fn difference_sign(a: Double, b: Double)
    requires
        a.finite(),
        b.finite(),
        a.le(b),
    ensures
        a.sub(b).le(Double::zero()),
        Double::zero().le(b.sub(a)),
{
    let z = Double::zero();
    assert(z.units() == 0);
    order_is_numeric(a, b);
    let nb = b.neg();
    let na = a.neg();
    assert(nb.index() == b.index() && na.index() == a.index());
    assert(nb.units() == b.units() && na.units() == a.units());
    lemma_sum_is_nearest(a, nb);
    lemma_sum_is_nearest(b, na);
    nearest_keeps_order(a.value() + nb.value(), 0);
    nearest_keeps_order(0, b.value() + na.value());
    a_number_rounds_to_itself(z);
}

proof fn lemma_value_is_nearest(a: Double)
    requires
        a.finite(),
    ensures
        double::ordinal(a) == double::ordinal(double::nearest(a.value())),
        !double::nearest(a.value()).nan(),
{
    a_number_rounds_to_itself(a);
    double::lemma_units_positive(a);
    let s = a.value();
    lemma_pack(s < 0, rounding::round_ratio((if s < 0 {
        -s
    } else {
        s
    }) as nat, 1));
}

/// A product of finite numbers is no NaN, and its sign is the product of the signs.
pub proof fn product_sign(a: Double, b: Double)
    requires
        a.finite(),
        b.finite(),
    ensures
        !a.mul(b).nan(),
        a.mul(b).negative() == (a.negative() != b.negative()),
        Double::zero().le(a) && Double::zero().le(b) ==> Double::zero().le(a.mul(b)),
        a.le(Double::zero()) && Double::zero().le(b) ==> a.mul(b).le(Double::zero()),
{
    let n = a.units() * b.units();
    let un = pow2(UNIT as nat);
    lemma_pow2_pos(UNIT as nat);
    lemma_pack(a.negative() != b.negative(), rounding::round_ratio(n, un));
    if a.is_zero() || b.is_zero() {
        double::lemma_units_positive(a);
        double::lemma_units_positive(b);
        assert(n == 0) by (nonlinear_arith)
            requires
                n == a.units() * b.units(),
                a.units() == 0 || b.units() == 0,
        ;
        let z = Double::zero();
        assert(z.units() == 0);
        a_number_rounds_to_itself(z);
        rounding::lemma_round_monotone(0, un, 0, 1);
        rounding::lemma_round_monotone(0, 1, 0, un);
        assert(rounding::round_ratio(n, un) == 0);
    }
}

/// Multiplying both sides by a finite number that is not negative keeps the order of
/// two finite numbers that are not negative.
pub proof fn product_keeps_order(a: Double, b: Double, c: Double)
    requires
        a.finite(),
        b.finite(),
        c.finite(),
        Double::zero().le(a),
        Double::zero().le(c),
        a.le(b),
    ensures
        a.mul(c).le(b.mul(c)),
{
    let un = pow2(UNIT as nat);
    lemma_pow2_pos(UNIT as nat);
    let z = Double::zero();
    assert(z.units() == 0);
    order_is_numeric(a, b);
    order_is_numeric(z, a);
    order_is_numeric(z, b);
    order_is_numeric(z, c);
    product_sign(a, c);
    product_sign(b, c);
    lemma_pack(a.negative() != c.negative(), rounding::round_ratio(a.units() * c.units(), un));
    lemma_pack(b.negative() != c.negative(), rounding::round_ratio(b.units() * c.units(), un));
    double::lemma_units_positive(a);
    double::lemma_units_positive(b);
    double::lemma_units_positive(c);
    let x = a.units() * c.units();
    let y = b.units() * c.units();
    assert(x * un <= y * un) by (nonlinear_arith)
        requires
            x == a.units() * c.units(),
            y == b.units() * c.units(),
            a.units() <= b.units(),
            un > 0,
    ;
    rounding::lemma_round_monotone(x, un, y, un);
}

/// One is neutral for multiplication.
pub proof fn product_with_one(a: Double)
    requires
        a.finite(),
    ensures
        a.mul(Double::one()) == a,
{
    let one = Double::one();
    let un = pow2(UNIT as nat);
    lemma_pow2_pos(UNIT as nat);
    rounding::lemma_p53();
    rounding::lemma_pow2_split(52, 1022);
    assert(one.units() == un);
    let n = a.units() * one.units();
    rounding::lemma_round_scale(a.units(), 1, un);
    assert(1 * un == un);
    a_number_rounds_to_itself(a);
    lemma_pack(a.negative(), a.index());
    if a.negative() {
        assert(a.bits == a.index() + SIGN);
    } else {
        assert(a.bits == a.index());
    }
}

/// A factor of at least one never lowers a finite number that is not negative.
pub proof fn product_with_at_least_one(a: Double, c: Double)
    requires
        a.finite(),
        c.finite(),
        Double::zero().le(a),
        Double::one().le(c),
    ensures
        a.le(a.mul(c)),
{
    product_with_one(a);
    products_commute(a, c);
    products_commute(a, Double::one());
    product_keeps_order(Double::one(), c, a);
}

/// A factor between zero and one never raises a finite number that is not negative.
pub proof fn product_with_at_most_one(a: Double, c: Double)
    requires
        a.finite(),
        c.finite(),
        Double::zero().le(a),
        Double::zero().le(c),
        c.le(Double::one()),
    ensures
        a.mul(c).le(a),
{
    product_with_one(a);
    products_commute(a, c);
    products_commute(a, Double::one());
    product_keeps_order(c, Double::one(), a);
}

/// Multiplication commutes.
pub proof fn products_commute(a: Double, b: Double)
    ensures
        a.mul(b) == b.mul(a),
{
    assert(a.units() * b.units() == b.units() * a.units()) by (nonlinear_arith);
}

/// Addition commutes.
pub proof fn sums_commute(a: Double, b: Double)
    ensures
        a.add(b) == b.add(a),
{
}

/// Negating a factor negates the product.
pub proof fn negated_product(a: Double, b: Double)
    requires
        a.finite(),
        b.finite(),
    ensures
        a.neg().mul(b) == a.mul(b).neg(),
        a.neg().neg() == a,
{
    assert(a.neg().index() == a.index());
    assert(a.neg().units() == a.units());
    let i = rounding::round_ratio(a.units() * b.units(), pow2(UNIT as nat));
    lemma_pack(a.negative() != b.negative(), i);
    lemma_pack(a.negative() == b.negative(), i);
}

/// A finite product has finite factors.
pub proof fn finite_products_have_finite_factors(a: Double, b: Double)
    requires
        a.mul(b).finite(),
    ensures
        a.finite(),
        b.finite(),
{
}

/// Multiplying by minus one turns the sign.
pub proof fn product_with_minus_one(a: Double)
    requires
        a.finite(),
    ensures
        a.mul(Double::one().neg()) == a.neg(),
        Double::zero().le(a) ==> a.neg().le(Double::zero()),
{
    product_with_one(a);
    products_commute(a, Double::one().neg());
    products_commute(a, Double::one());
    negated_product(Double::one(), a);
}

/// Taking two numbers that are not negative from a number that is not positive leaves one
/// that is not positive.
pub proof fn differences_stay_not_positive(a: Double, b: Double, c: Double)
    requires
        a.finite(),
        b.finite(),
        c.finite(),
        a.le(Double::zero()),
        Double::zero().le(b),
        Double::zero().le(c),
    ensures
        a.sub(b).sub(c).le(Double::zero()),
{
    difference_with_non_negative(a, b);
    let after = a.sub(b);
    if after.finite() {
        difference_with_non_negative(after, c);
    } else {
        assert(after.infinite() && after.negative());
        assert(after.sub(c) == after);
    }
}

/// One and one make two, the largest number that a factor in this library needs.
pub proof fn one_and_one()
    ensures
        Double::one().add(Double::one()).bits == 0x4000_0000_0000_0000,
{
    let one = Double::one();
    let two = Double { bits: 0x4000_0000_0000_0000 };
    lemma_pow2_unfold(1023);
    assert(one.units() == (P52 as nat) * pow2(1022));
    assert(two.units() == (P52 as nat) * pow2(1023));
    assert((P52 as nat) * (2 * pow2(1022)) == 2 * ((P52 as nat) * pow2(1022))) by (nonlinear_arith);
    lemma_pow2_pos(1022);
    assert(one.units() > 0) by (nonlinear_arith)
        requires
            one.units() == P52 * pow2(1022),
            pow2(1022) > 0,
    ;
    a_number_rounds_to_itself(two);
    lemma_pack(false, two.index());
}

/// What is nearest to a whole number is a number, of either sign.
pub proof fn whole_numbers_are_numbers(n: u64)
    ensures
        !Double::whole(n).nan(),
        !Double::whole(n).neg().nan(),
{
    lemma_pack(false, rounding::round_ratio(n as nat * pow2(UNIT as nat), 1));
}

/// A whole number that is not zero is finite and at least one, and one is one.
pub proof fn whole_numbers_are_at_least_one(n: u64)
    requires
        n > 0,
    ensures
        Double::whole(n).finite(),
        Double::one().le(Double::whole(n)),
{
    let un = pow2(UNIT as nat);
    lemma_pow2_pos(UNIT as nat);
    let one = Double::one();
    rounding::lemma_p53();
    rounding::lemma_pow2_split(52, 1022);
    assert(one.units() == un);
    a_number_rounds_to_itself(one);
    let big = Double { bits: 0x43f0_0000_0000_0000 };
    rounding::lemma_pow2_split(64, 1022);
    rounding::lemma_pow2_split(52, 1086);
    lemma2_to64();
    lemma2_to64_rest();
    assert(big.index() == 0x43f0_0000_0000_0000);
    assert(big.index() / (P52 as nat) == 1087);
    assert(big.units() == (P52 as nat) * pow2(1086));
    rounding::lemma_pow2_split(64, 1074);
    assert(big.units() == pow2(64) * un);
    a_number_rounds_to_itself(big);
    let x = n as nat * un;
    assert(un * 1 <= x * 1) by (nonlinear_arith)
        requires
            x == n * un,
            n > 0,
            un > 0,
    ;
    assert(x * 1 <= big.units() * 1) by (nonlinear_arith)
        requires
            x == n * un,
            big.units() == pow2(64) * un,
            n <= pow2(64),
            un > 0,
    ;
    rounding::lemma_round_monotone(un, 1, x, 1);
    rounding::lemma_round_monotone(x, 1, big.units(), 1);
    lemma_pack(false, rounding::round_ratio(x, 1));
}

/// The quotient of a finite number that is not negative and a finite positive one is a number
/// that is not negative.
pub proof fn quotient_sign(a: Double, b: Double)
    requires
        a.finite(),
        b.finite(),
        Double::zero().le(a),
        Double::zero().lt(b),
    ensures
        !a.div(b).nan(),
        Double::zero().le(a.div(b)),
{
    let un = pow2(UNIT as nat);
    lemma_pow2_pos(UNIT as nat);
    double::lemma_units_positive(b);
    let n = a.units() * un;
    lemma_pack(a.negative() != b.negative(), rounding::round_ratio(n, b.units()));
    if a.is_zero() {
        double::lemma_units_positive(a);
        let z = Double::zero();
        assert(z.units() == 0);
        a_number_rounds_to_itself(z);
        assert(n == 0) by (nonlinear_arith)
            requires
                n == a.units() * un,
                a.units() == 0,
        ;
        rounding::lemma_round_monotone(0, b.units(), 0, 1);
    }
}

/// Dividing both sides by a finite positive number keeps the order of two finite numbers that
/// are not negative.
pub proof fn quotient_keeps_order(a: Double, b: Double, c: Double)
    requires
        a.finite(),
        b.finite(),
        c.finite(),
        Double::zero().le(a),
        a.le(b),
        Double::zero().lt(c),
    ensures
        a.div(c).le(b.div(c)),
{
    let un = pow2(UNIT as nat);
    lemma_pow2_pos(UNIT as nat);
    let z = Double::zero();
    assert(z.units() == 0);
    quotient_sign(a, c);
    quotient_sign(b, c);
    order_is_numeric(a, b);
    order_is_numeric(z, a);
    order_is_numeric(z, b);
    double::lemma_units_positive(a);
    double::lemma_units_positive(b);
    double::lemma_units_positive(c);
    let x = a.units() * un;
    let y = b.units() * un;
    assert(x * c.units() <= y * c.units()) by (nonlinear_arith)
        requires
            x == a.units() * un,
            y == b.units() * un,
            a.units() <= b.units(),
            un > 0,
    ;
    rounding::lemma_round_monotone(x, c.units(), y, c.units());
    lemma_pack(a.negative() != c.negative(), rounding::round_ratio(x, c.units()));
    lemma_pack(b.negative() != c.negative(), rounding::round_ratio(y, c.units()));
}

/// A larger divisor never gives a larger quotient.
pub proof fn quotient_falls_with_divisor(a: Double, c: Double, d: Double)
    requires
        a.finite(),
        c.finite(),
        d.finite(),
        Double::zero().le(a),
        Double::zero().lt(c),
        c.le(d),
    ensures
        a.div(d).le(a.div(c)),
{
    let un = pow2(UNIT as nat);
    lemma_pow2_pos(UNIT as nat);
    let z = Double::zero();
    assert(z.units() == 0);
    quotient_sign(a, c);
    quotient_sign(a, d);
    order_is_numeric(c, d);
    order_is_numeric(z, c);
    order_is_numeric(z, d);
    double::lemma_units_positive(a);
    double::lemma_units_positive(c);
    double::lemma_units_positive(d);
    let x = a.units() * un;
    assert(x * c.units() <= x * d.units()) by (nonlinear_arith)
        requires
            c.units() <= d.units(),
            x >= 0,
    ;
    rounding::lemma_round_monotone(x, d.units(), x, c.units());
    lemma_pack(a.negative() != c.negative(), rounding::round_ratio(x, c.units()));
    lemma_pack(a.negative() != d.negative(), rounding::round_ratio(x, d.units()));
}

/// One is neutral as a divisor.
pub proof fn quotient_by_one(a: Double)
    requires
        a.finite(),
    ensures
        a.div(Double::one()) == a,
{
    let one = Double::one();
    let un = pow2(UNIT as nat);
    lemma_pow2_pos(UNIT as nat);
    rounding::lemma_p53();
    rounding::lemma_pow2_split(52, 1022);
    assert(one.units() == un);
    rounding::lemma_round_scale(a.units(), 1, un);
    assert(1 * un == un);
    a_number_rounds_to_itself(a);
    lemma_pack(a.negative(), a.index());
    if a.negative() {
        assert(a.bits == a.index() + SIGN);
    } else {
        assert(a.bits == a.index());
    }
}

/// A divisor of at least one never raises a finite number that is not negative.
pub proof fn quotient_by_at_least_one(a: Double, c: Double)
    requires
        a.finite(),
        c.finite(),
        Double::zero().le(a),
        Double::one().le(c),
    ensures
        a.div(c).le(a),
        a.div(c).finite(),
        Double::zero().le(a.div(c)),
{
    quotient_by_one(a);
    quotient_falls_with_divisor(a, Double::one(), c);
    quotient_sign(a, c);
}

/// A finite positive number divided by itself is one.
pub proof fn quotient_of_itself(a: Double)
    requires
        a.finite(),
        Double::zero().lt(a),
    ensures
        a.div(a) == Double::one(),
{
    let one = Double::one();
    let un = pow2(UNIT as nat);
    lemma_pow2_pos(UNIT as nat);
    rounding::lemma_p53();
    rounding::lemma_pow2_split(52, 1022);
    assert(one.units() == un);
    double::lemma_units_positive(a);
    rounding::lemma_round_scale(un, 1, a.units());
    assert(a.units() * un == un * a.units()) by (nonlinear_arith);
    assert(1 * a.units() == a.units());
    a_number_rounds_to_itself(one);
    lemma_pack(false, one.index());
}

/// The ratio of two whole numbers that are not zero is a finite number that is not negative;
/// one of a smaller to a larger is at most one.
pub proof fn ratios_are_numbers(num: u64, den: u64)
    requires
        num > 0,
        den > 0,
    ensures
        Double::ratio(num, den).finite(),
        Double::zero().le(Double::ratio(num, den)),
        num <= den ==> Double::ratio(num, den).le(Double::one()),
{
    whole_numbers_are_at_least_one(num);
    whole_numbers_are_at_least_one(den);
    quotient_by_at_least_one(Double::whole(num), Double::whole(den));
    if num <= den {
        let un = pow2(UNIT as nat);
        lemma_pow2_pos(UNIT as nat);
        assert((num as nat * un) * 1 <= (den as nat * un) * 1) by (nonlinear_arith)
            requires
                num <= den,
                un > 0,
        ;
        rounding::lemma_round_monotone(num as nat * un, 1, den as nat * un, 1);
        lemma_pack(false, rounding::round_ratio(num as nat * un, 1));
        lemma_pack(false, rounding::round_ratio(den as nat * un, 1));
        quotient_keeps_order(Double::whole(num), Double::whole(den), Double::whole(den));
        quotient_of_itself(Double::whole(den));
    }
}

} // verus!

//! The nearest number to a decimal text.
use vstd::prelude::*;
use vstd::arithmetic::power2::*;
use vstd::arithmetic::div_mod::*;
use crate::bignat;
use crate::decimal;
use crate::double;
use crate::double::{Double, INFINITE, UNIT};
use crate::parsing;
use crate::rounding;
use crate::rounding::{P52, P53};

verus! {

/// The magnitude nearest to `d * 10^e`, by its index.
pub open spec fn decimal_index(d: nat, e: int) -> nat {
    if e >= 0 {
        rounding::round_ratio(d * decimal::tens(e as nat) * pow2(UNIT as nat), 1)
    } else {
        rounding::round_ratio(d * pow2(UNIT as nat), decimal::tens((-e) as nat))
    }
}

/// The number nearest to `d * 10^e` with a sign.
pub open spec fn nearest_decimal(negative: bool, d: nat, e: int) -> Double {
    double::pack(negative, decimal_index(d, e))
}

/// A part of a number's scale that stands in its numerator.
spec fn upper(e: int) -> nat {
    if e >= 0 {
        decimal::tens(e as nat)
    } else {
        1
    }
}

/// A part of a number's scale that stands in its denominator.
spec fn lower(e: int) -> nat {
    if e >= 0 {
        1
    } else {
        decimal::tens((-e) as nat)
    }
}

proof fn lemma_decimal_index(d: nat, e: int)
    ensures
        decimal_index(d, e) == rounding::round_ratio(d * upper(e) * pow2(UNIT as nat), lower(e)),
        lower(e) > 0,
        upper(e) > 0,
{
    if e >= 0 {
        decimal::lemma_tens_positive(e as nat);
    } else {
        decimal::lemma_tens_positive((-e) as nat);
        assert(d * 1 == d);
    }
}

/// Less than half of the smallest magnitude rounds to nothing.
proof fn lemma_small(num: nat, den: nat)
    requires
        2 * num < den,
    ensures
        rounding::round_ratio(num, den) == 0,
{
    rounding::lemma_p53();
    lemma2_to64();
    assert(num < den * pow2(53)) by (nonlinear_arith)
        requires
            2 * num < den,
            pow2(53) > 1,
    ;
    assert(den * pow2(0) == den) by (nonlinear_arith)
        requires
            pow2(0) == 1,
    ;
    rounding::lemma_round_is(num, den, 0, 0, num);
}

/// From 2^1024 on a magnitude rounds to infinity.
proof fn lemma_large(num: nat, den: nat)
    requires
        den > 0,
        num >= den * pow2(2098),
    ensures
        rounding::round_ratio(num, den) >= INFINITE,
{
    rounding::lemma_p53();
    rounding::lemma_pow2_split(52, 2046);
    rounding::lemma_round_exact(P52 as nat, 2046);
    assert(pow2(2098) * den <= num * 1) by (nonlinear_arith)
        requires
            num >= den * pow2(2098),
    ;
    rounding::lemma_round_monotone(pow2(2098), 1, num, den);
}

proof fn lemma_eights(j: nat)
    ensures
        pow2(3 * j) <= decimal::tens(j),
    decreases j,
{
    lemma2_to64();
    if j > 0 {
        lemma_eights((j - 1) as nat);
        rounding::lemma_pow2_split(3, (3 * (j - 1)) as nat);
        assert(3 + 3 * (j - 1) == 3 * j);
    }
}

proof fn lemma_tens_add(a: nat, b: nat)
    ensures
        decimal::tens(a + b) == decimal::tens(a) * decimal::tens(b),
    decreases a,
{
    if a == 0 {
        assert(1 * decimal::tens(b) == decimal::tens(b));
    } else {
        lemma_tens_add((a - 1) as nat, b);
        assert((a - 1) as nat + b == (a + b - 1) as nat);
        let x = decimal::tens((a - 1) as nat);
        let y = decimal::tens(b);
        assert(10 * (x * y) == (10 * x) * y) by (nonlinear_arith);
    }
}

/// A positive count with a large exponent is out of range.
proof fn lemma_huge(d: nat, e: int)
    requires
        d > 0,
        e > 400,
    ensures
        decimal_index(d, e) >= INFINITE,
{
    let un = pow2(UNIT as nat);
    let t = decimal::tens(e as nat);
    lemma_eights(400);
    lemma_tens_add(400, (e - 400) as nat);
    decimal::lemma_tens_positive((e - 400) as nat);
    let x = decimal::tens(400);
    let y = decimal::tens((e - 400) as nat);
    lemma_pow2_strictly_increases(1024, 1200);
    rounding::lemma_pow2_split(1024, 1074);
    assert(x * y >= x) by (nonlinear_arith)
        requires
            y >= 1,
    ;
    assert(d * t * un >= pow2(1024) * un) by (nonlinear_arith)
        requires
            d >= 1,
            t >= pow2(1024),
            un > 0,
    ;
    lemma_large(d * t * un, 1);
}

/// A count with far more decimals than digits rounds to nothing.
proof fn lemma_minute(d: nat, n: nat, e: int)
    requires
        d < decimal::tens(n),
        e < -(n + 400),
    ensures
        decimal_index(d, e) == 0,
{
    let k = (-e) as nat;
    let un = pow2(UNIT as nat);
    lemma_eights(400);
    lemma_tens_add(n, (k - n) as nat);
    lemma_tens_add(400, (k - n - 400) as nat);
    decimal::lemma_tens_positive((k - n - 400) as nat);
    let x = decimal::tens(n);
    let y = decimal::tens((k - n) as nat);
    let z = decimal::tens(400);
    assert(y >= z) by (nonlinear_arith)
        requires
            y == z * decimal::tens((k - n - 400) as nat),
            decimal::tens((k - n - 400) as nat) >= 1,
    ;
    lemma_pow2_strictly_increases(1075, 1200);
    lemma_pow2_unfold(1075);
    lemma_pow2_pos(UNIT as nat);
    assert(2 * (d * un) < x * y) by (nonlinear_arith)
        requires
            d < x,
            2 * un <= y,
            un > 0,
    ;
    lemma_small(d * un, decimal::tens(k));
}

/// Rounding by the leading bits: `top` is the whole part of `num / den` and `loose` says
/// that it is not exact.
proof fn lemma_leading(
    x: nat,
    scale: nat,
    num: nat,
    shift: nat,
    top: nat,
    loose: bool,
)
    requires
        scale > 0,
        num == x * pow2(1152),
        top * (scale * pow2(shift)) <= num < top * (scale * pow2(shift)) + scale * pow2(shift),
        loose == (num > top * (scale * pow2(shift))),
        shift == 0 || (shift >= 32 && top >= pow2(64)),
    ensures
        rounding::round_ratio(x * pow2(UNIT as nat), scale) == double::dyadic(
            2 * top + if loose {
                1nat
            } else {
                0nat
            },
            shift - 79,
        ),
{
    let w = pow2(shift);
    let den = scale * w;
    let p = 2 * top + if loose {
        1nat
    } else {
        0nat
    };
    let un = pow2(UNIT as nat);
    let c = pow2(79);
    let wide = scale * c;
    let n = 2 * num;
    lemma_pow2_pos(shift);
    lemma_pow2_pos(79);
    lemma2_to64();
    rounding::lemma_pow2_split(1074, 79);
    lemma_pow2_unfold(1153);
    assert(den > 0) by (nonlinear_arith)
        requires
            scale > 0,
            w > 0,
            den == scale * w,
    ;
    assert(wide > 0) by (nonlinear_arith)
        requires
            scale > 0,
            c > 0,
            wide == scale * c,
    ;
    // the ratio, with numerator and denominator widened
    rounding::lemma_round_scale(x * un, scale, c);
    assert(x * un * c == n) by (nonlinear_arith)
        requires
            pow2(1153) == un * c,
            pow2(1153) == 2 * pow2(1152),
            num == x * pow2(1152),
            n == 2 * num,
    ;
    let u = if shift >= 79 {
        (shift - 79) as nat
    } else {
        0nat
    };
    let v = if shift >= 79 {
        0nat
    } else {
        (79 - shift) as nat
    };
    rounding::lemma_pow2_split(79, u);
    rounding::lemma_pow2_split(shift, v);
    assert(79 + u == shift + v);
    assert(w * pow2(v) == c * pow2(u));
    let pu = pow2(u);
    let pv = pow2(v);
    assert(den * pv == wide * pu) by (nonlinear_arith)
        requires
            den == scale * w,
            wide == scale * c,
            w * pv == c * pu,
    ;
    rounding::lemma_round_scale(n, wide, pu);
    assert(double::dyadic(p, shift - 79) == rounding::round_ratio(p * pu, pv)) by {
        if shift >= 79 {
            assert(pv == 1);
        } else {
            assert(pu == 1);
            assert(p * pu == p) by (nonlinear_arith)
                requires
                    pu == 1,
            ;
        }
    }
    if !loose {
        assert(n * pu == p * pu * den) by (nonlinear_arith)
            requires
                n == 2 * (top * den),
                p == 2 * top,
        ;
        rounding::lemma_round_scale(p * pu, pv, den);
        assert(pv * den == wide * pu) by (nonlinear_arith)
            requires
                den * pv == wide * pu,
        ;
    } else {
        assert((p - 1) * den < n) by (nonlinear_arith)
            requires
                p == 2 * top + 1,
                n == 2 * num,
                num > top * den,
        ;
        assert(n < (p + 1) * den) by (nonlinear_arith)
            requires
                p == 2 * top + 1,
                n == 2 * num,
                num < top * den + den,
        ;
        if p >= 4 * P53 {
            rounding::lemma_round_sticky(n, den, p, u, v);
        } else {
            lemma2_to64_rest();
            assert(shift == 0);
            assert(w == 1);
            assert(scale * w == scale) by (nonlinear_arith)
                requires
                    w == 1,
            ;
            lemma_pow2_strictly_increases(57, 79);
            rounding::lemma_pow2_split(2, 55);
            rounding::lemma_pow2_split(2, 53);
            rounding::lemma_p53();
            assert(2 * n < wide) by (nonlinear_arith)
                requires
                    n < (p + 1) * den,
                    p < 4 * P53,
                    den == scale,
                    wide == scale * c,
                    c > 16 * P53,
                    scale > 0,
            ;
            lemma_small(n, wide);
            assert(u == 0 && v == 79);
            lemma_small(p * pu, pv);
        }
    }
}

/// A whole number below 2^53 is exact.
proof fn lemma_exact(q: nat, k: nat)
    requires
        0 < q < P53,
        k <= 1100,
        q * pow2(k) >= P52,
    ensures
        ({
            let x = double::pack(false, rounding::round_ratio(q * pow2(k), 1));
            &&& x.finite()
            &&& !x.negative()
            &&& x.units() == q * pow2(k)
        }),
    decreases k,
{
    let p = P52 as nat;
    if q >= P52 {
        rounding::lemma_round_exact(q, k);
        let i = (k * p + q) as nat;
        assert(i / p == k + 1 && i % p == q - p) by {
            lemma_fundamental_div_mod_converse(i as int, p as int, k as int + 1, q - p);
        }
        assert(i < INFINITE);
    } else {
        lemma2_to64();
        if k == 0 {
            assert(q * pow2(0) == q) by (nonlinear_arith)
                requires
                    pow2(0) == 1,
            ;
        }
        lemma_pow2_unfold(k);
        let h = pow2((k - 1) as nat);
        assert(q * (2 * h) == (2 * q) * h) by (nonlinear_arith);
        lemma_exact(2 * q, (k - 1) as nat);
    }
}

proof fn lemma_whole(n: u64)
    requires
        n < P53,
    ensures
        Double::whole(n).finite(),
        !Double::whole(n).negative(),
        Double::whole(n).units() == n * pow2(UNIT as nat),
{
    let un = pow2(UNIT as nat);
    lemma_pow2_pos(UNIT as nat);
    if n == 0 {
        lemma_small(0, 1);
        assert(0 * un == 0);
    } else {
        rounding::lemma_p53();
        lemma_pow2_strictly_increases(52, 1074);
        assert(n * un >= P52) by (nonlinear_arith)
            requires
                n >= 1,
                un >= P52,
        ;
        lemma_exact(n as nat, UNIT as nat);
    }
}

/// The nearest number to a short decimal, by one exact multiplication or division.
fn short_decimal(negative: bool, d: u64, e: i32) -> (r: Double)
    requires
        d < P53,
        -15 <= e <= 15,
    ensures
        r == nearest_decimal(negative, d as nat, e as int),
{
    let places: u32 = if e >= 0 {
        e as u32
    } else {
        (-e) as u32
    };
    let mut ten: u64 = 1;
    let mut i: u32 = 0;
    proof {
        reveal_with_fuel(decimal::tens, 17);
    }
    while i < places
        invariant
            i <= places <= 15,
            ten == decimal::tens(i as nat),
            ten <= 1_000_000_000_000_000,
            decimal::tens(15) == 1_000_000_000_000_000,
        decreases places - i,
    {
        proof {
            lemma_tens_rise((i + 1) as nat, 15);
        }
        ten = ten * 10;
        i = i + 1;
    }
    let a = Double::whole(d);
    let b = Double::whole(ten);
    proof {
        lemma_whole(d);
        lemma_whole(ten);
        lemma_pow2_pos(UNIT as nat);
        let un = pow2(UNIT as nat);
        let t = ten as nat;
        if e >= 0 {
            assert(a.units() * b.units() == (d as nat * t * un) * un) by (nonlinear_arith)
                requires
                    a.units() == d as nat * un,
                    b.units() == t * un,
            ;
            rounding::lemma_round_scale(d as nat * t * un, 1, un);
            assert(1 * un == un);
        } else {
            assert(a.units() * un == (d as nat * un) * un);
            rounding::lemma_round_scale(d as nat * un, t, un);
            if d == 0 {
                assert(0 * un == 0);
                lemma_small(0, t);
            }
        }
    }
    let r = if e >= 0 {
        a.mul(b)
    } else {
        a.div(b)
    };
    proof {
        let index = decimal_index(d as nat, e as int);
        assert(!b.is_zero()) by {
            double::lemma_units_positive(b);
            assert(b.units() > 0) by (nonlinear_arith)
                requires
                    b.units() == ten as nat * pow2(UNIT as nat),
                    ten >= 1,
                    pow2(UNIT as nat) > 0,
            ;
        }
        double::lemma_units_positive(a);
        if e < 0 && a.is_zero() {
            assert(d == 0) by (nonlinear_arith)
                requires
                    d as nat * pow2(UNIT as nat) == 0,
                    pow2(UNIT as nat) > 0,
            ;
        }
        assert(r == double::pack(false, index));
    }
    if negative {
        r.neg()
    } else {
        r
    }
}

proof fn lemma_tens_rise(a: nat, b: nat)
    requires
        a <= b,
    ensures
        decimal::tens(a) <= decimal::tens(b),
{
    lemma_tens_add(a, (b - a) as nat);
    decimal::lemma_tens_positive((b - a) as nat);
    decimal::lemma_tens_positive(a);
    let x = decimal::tens(a);
    let y = decimal::tens((b - a) as nat);
    assert(x * y >= x) by (nonlinear_arith)
        requires
            y >= 1,
    ;
}

/// The nearest number to a decimal given by its digits and its exponent.
fn long_decimal(negative: bool, digits: &Vec<char>, e: i128) -> (r: Double)
    requires
        parsing::all_digits(digits@),
        -0x10_0000_0000_0000_0000_0000_0000 <= e <= 400,
    ensures
        r == nearest_decimal(negative, parsing::count(digits@), e as int),
{
    let ghost d = parsing::count(digits@);
    let mut big: Vec<u32> = Vec::new();
    let mut i: usize = 0;
    assert(digits@.take(0) =~= Seq::<char>::empty());
    while i < digits.len()
        invariant
            i <= digits@.len(),
            parsing::all_digits(digits@),
            bignat::trimmed(big@),
            bignat::natural(big@) == parsing::count(digits@.take(i as int)),
        decreases digits@.len() - i,
    {
        assert(digits@.take(i + 1).drop_last() =~= digits@.take(i as int));
        let c = digits[i];
        assert(parsing::is_digit(digits@[i as int]));
        let n: u32 = c as u32 - '0' as u32;
        bignat::multiply(&mut big, 10, n);
        i = i + 1;
    }
    assert(digits@.take(i as int) =~= digits@);
    let ghost mut raised: nat = 1;
    assert(d * 1 == d);
    if e > 0 {
        let mut j: i128 = 0;
        while j < e
            invariant
                0 <= j <= e,
                bignat::trimmed(big@),
                raised == decimal::tens(j as nat),
                bignat::natural(big@) == d * raised,
            decreases e - j,
        {
            bignat::multiply(&mut big, 10, 0);
            proof {
                assert((d * raised) * 10 + 0 == d * (10 * raised)) by (nonlinear_arith);
                raised = 10 * raised;
            }
            j = j + 1;
        }
    }
    let ghost x = d * raised;
    bignat::shift(&mut big, 36);
    let ghost num = bignat::natural(big@);
    assert(num == x * pow2(1152)) by {
        assert(32nat * 36nat == 1152);
    }
    let ghost mut scale: nat = 1;
    let ghost mut rest: nat = 0;
    let mut loose = false;
    assert(num * 1 + 0 == num);
    if e < 0 {
        let k: i128 = -e;
        let mut j: i128 = 0;
        while j < k
            invariant
                0 <= j <= k,
                bignat::trimmed(big@),
                scale == decimal::tens(j as nat),
                num == bignat::natural(big@) * scale + rest,
                rest < scale,
                loose == (rest > 0),
            decreases k - j,
        {
            let ghost before = bignat::natural(big@);
            let r = bignat::divide(&mut big, 10);
            proof {
                let q = bignat::natural(big@);
                let low = r as nat;
                assert((q * 10 + low) * scale + rest == q * (10 * scale) + (low * scale + rest))
                    by (nonlinear_arith);
                assert(low * scale + rest < 10 * scale) by (nonlinear_arith)
                    requires
                        low < 10,
                        rest < scale,
                ;
                assert(low * scale + rest > 0 <==> low > 0 || rest > 0) by (nonlinear_arith)
                    requires
                        scale > 0,
                ;
                rest = low * scale + rest;
                scale = 10 * scale;
            }
            if r > 0 {
                loose = true;
            }
            j = j + 1;
        }
    }
    proof {
        lemma_decimal_index(d, e as int);
        assert(raised == upper(e as int));
        assert(scale == lower(e as int));
    }
    let (top, left, more) = bignat::leading(&big);
    let ghost shift = 32 * left as nat;
    let ghost w = pow2(shift);
    proof {
        let q = bignat::natural(big@);
        let t = top as nat;
        lemma_pow2_pos(shift);
        assert(t * (scale * w) == (t * w) * scale) by (nonlinear_arith);
        assert((t * w) * scale <= q * scale) by (nonlinear_arith)
            requires
                t * w <= q,
        ;
        assert((q + 1) * scale <= (t * w + w) * scale) by (nonlinear_arith)
            requires
                q + 1 <= t * w + w,
        ;
        assert((q + 1) * scale == q * scale + scale) by (nonlinear_arith);
        assert((t * w + w) * scale == (t * w) * scale + scale * w) by (nonlinear_arith);
        if more {
            assert(q * scale > (t * w) * scale) by (nonlinear_arith)
                requires
                    q > t * w,
                    scale > 0,
            ;
        } else {
            assert(q == t * w);
        }
        lemma_leading(x, scale, num, shift, t, loose || more);
    }
    proof {
        lemma2_to64();
        lemma2_to64_rest();
        rounding::lemma_pow2_split(32, 64);
        lemma_pow2_unfold(97);
        lemma_pow2_strictly_increases(97, 120);
    }
    let p: u128 = 2 * top + if loose || more {
        1
    } else {
        0
    };
    if left > 70 {
        proof {
            lemma_top_is_infinite(p as nat, shift);
        }
        return double::make(negative, INFINITE);
    }
    let t: i32 = 32 * (left as i32) - 79;
    double::make(negative, double::round_index(p, t))
}

/// Leading bits far to the left are out of range.
proof fn lemma_top_is_infinite(p: nat, shift: nat)
    requires
        p >= pow2(64),
        shift > 2200,
    ensures
        double::dyadic(p, shift - 79) >= INFINITE,
{
    let u = (shift - 79) as nat;
    lemma_pow2_strictly_increases(2098, u);
    lemma_pow2_pos(64);
    assert(p * pow2(u) >= pow2(u)) by (nonlinear_arith)
        requires
            p >= 1,
    ;
    assert(1 * pow2(2098) == pow2(2098));
    lemma_large(p * pow2(u), 1);
}

proof fn lemma_count_bound(s: Seq<char>)
    requires
        parsing::all_digits(s),
    ensures
        parsing::count(s) < decimal::tens(s.len()),
    decreases s.len(),
{
    if s.len() > 0 {
        assert(parsing::is_digit(s.last()));
        let before = s.drop_last();
        assert forall|i: int| 0 <= i < before.len() implies parsing::is_digit(
            #[trigger] before[i],
        ) by {
            assert(parsing::is_digit(s[i]));
        }
        lemma_count_bound(before);
    }
}

/// The nearest number to a decimal given by its digits, its sign and its exponent. Of an
/// exponent past 2^100 only the sign counts.
fn decimal_double(negative: bool, digits: &Vec<char>, e: i128) -> (r: Double)
    requires
        parsing::all_digits(digits@),
        -0x20_0000_0000_0000_0000_0000_0000 <= e <= 0x20_0000_0000_0000_0000_0000_0000,
    ensures
        r == nearest_decimal(negative, parsing::count(digits@), e as int),
        forall|f: int|
            (f >= e > 400 || f <= e < -(digits@.len() + 400)) ==> r == #[trigger] nearest_decimal(
                negative,
                parsing::count(digits@),
                f,
            ),
{
    let ghost d = parsing::count(digits@);
    let n = digits.len();
    let mut any = false;
    let mut short: u64 = 0;
    let mut i: usize = 0;
    assert(digits@.take(0) =~= Seq::<char>::empty());
    while i < n
        invariant
            n == digits@.len(),
            i <= n,
            parsing::all_digits(digits@),
            any == (parsing::count(digits@.take(i as int)) > 0),
            i <= 15 ==> short == parsing::count(digits@.take(i as int)),
            i <= 15 ==> short < decimal::tens(i as nat),
        decreases n - i,
    {
        assert(digits@.take(i + 1).drop_last() =~= digits@.take(i as int));
        let c = digits[i];
        assert(parsing::is_digit(digits@[i as int]));
        if c != '0' {
            any = true;
        }
        if i < 15 {
            proof {
                lemma_tens_rise((i + 1) as nat, 15);
                reveal_with_fuel(decimal::tens, 17);
            }
            short = 10 * short + (c as u32 - '0' as u32) as u64;
        }
        i = i + 1;
    }
    assert(digits@.take(i as int) =~= digits@);
    if !any {
        proof {
            assert forall|f: int| #[trigger] nearest_decimal(negative, d, f) == double::pack(
                negative,
                0,
            ) by {
                lemma_decimal_index(0, f);
                let un = pow2(UNIT as nat);
                assert(0 * upper(f) * un == 0) by (nonlinear_arith);
                lemma_small(0, lower(f));
            }
        }
        return double::make(negative, 0);
    }
    proof {
        lemma_count_bound(digits@);
    }
    if e > 400 {
        proof {
            assert forall|f: int| f >= e implies #[trigger] nearest_decimal(negative, d, f)
                == double::pack(negative, INFINITE as nat) by {
                lemma_huge(d, f);
            }
            assert(nearest_decimal(negative, d, e as int) == double::pack(
                negative,
                INFINITE as nat,
            ));
        }
        return double::make(negative, INFINITE);
    }
    if e < -((n as i128) + 400) {
        proof {
            assert forall|f: int| f <= e implies #[trigger] nearest_decimal(negative, d, f)
                == double::pack(negative, 0) by {
                lemma_minute(d, n as nat, f);
            }
            assert(nearest_decimal(negative, d, e as int) == double::pack(negative, 0));
        }
        return double::make(negative, 0);
    }
    if n <= 15 && -15 <= e && e <= 15 {
        proof {
            lemma_tens_rise(n as nat, 15);
            reveal_with_fuel(decimal::tens, 17);
        }
        return short_decimal(negative, short, e as i32);
    }
    long_decimal(negative, digits, e)
}

/// The exponent at the end of a number: nothing, or `e` with an optional sign and digits.
pub open spec fn exponent_of(s: Seq<char>) -> Option<int> {
    if s.len() == 0 {
        Some(0)
    } else if s[0] != 'e' && s[0] != 'E' {
        None
    } else {
        let signed = s.len() > 1 && (s[1] == '+' || s[1] == '-');
        let body = s.skip(
            if signed {
                2
            } else {
                1
            },
        );
        if body.len() == 0 || !parsing::all_digits(body) {
            None
        } else if signed && s[1] == '-' {
            Some(-(parsing::count(body) as int))
        } else {
            Some(parsing::count(body) as int)
        }
    }
}

/// The digits and the exponent of a decimal number without sign: digits, with an optional
/// point among, before or behind them, and an optional exponent.
pub open spec fn number_of(s: Seq<char>) -> Option<(Seq<char>, int)> {
    let a = parsing::digit_run(s) as int;
    let point = a < s.len() && s[a] == '.';
    let b = if point {
        parsing::digit_run(s.skip(a + 1)) as int
    } else {
        0
    };
    let end = if point {
        a + 1 + b
    } else {
        a
    };
    let digits = s.take(a) + if point {
        s.subrange(a + 1, end)
    } else {
        Seq::empty()
    };
    if a + b == 0 {
        None
    } else {
        match exponent_of(s.skip(end)) {
            Some(x) => Some((digits, x - b)),
            None => None,
        }
    }
}

pub open spec fn lowered(c: char) -> char {
    if 'A' <= c && c <= 'Z' {
        (c as u32 + 32) as u32 as char
    } else {
        c
    }
}

/// Two texts are the same but for the case of ASCII letters.
pub open spec fn same_letters(a: Seq<char>, b: Seq<char>) -> bool {
    &&& a.len() == b.len()
    &&& forall|i: int| 0 <= i < a.len() ==> lowered(#[trigger] a[i]) == lowered(b[i])
}

/// The number that a text stands for: a decimal number, `inf`, `infinity` or `nan` in any
/// case, with an optional sign; the nearest number, ties to even.
pub open spec fn double_of(s: Seq<char>) -> Option<Double> {
    let signed = s.len() > 0 && (s[0] == '+' || s[0] == '-');
    let negative = signed && s[0] == '-';
    let body = if signed {
        s.drop_first()
    } else {
        s
    };
    match number_of(body) {
        Some((digits, e)) => Some(nearest_decimal(negative, parsing::count(digits), e)),
        None => if same_letters(body, "inf"@) || same_letters(body, "infinity"@) {
            Some(double::pack(negative, INFINITE as nat))
        } else if same_letters(body, "nan"@) {
            Some(
                if negative {
                    double::pack_nan().neg()
                } else {
                    double::pack_nan()
                },
            )
        } else {
            None
        },
    }
}

proof fn lemma_run(s: Seq<char>, n: int)
    requires
        0 <= n <= s.len(),
        parsing::all_digits(s.take(n)),
        n == s.len() || !parsing::is_digit(s[n]),
    ensures
        parsing::digit_run(s) == n,
    decreases n,
{
    if n > 0 {
        assert(parsing::is_digit(s.take(n)[0]));
        let rest = s.drop_first();
        assert forall|i: int| 0 <= i < n - 1 implies parsing::is_digit(
            #[trigger] rest.take(n - 1)[i],
        ) by {
            assert(rest.take(n - 1)[i] == s.take(n)[i + 1]);
        }
        lemma_run(rest, n - 1);
    }
}

/// The end of the digits that start at a place.
fn run_end(s: &Vec<char>, from: usize) -> (end: usize)
    requires
        from <= s@.len(),
    ensures
        from <= end <= s@.len(),
        end - from == parsing::digit_run(s@.skip(from as int)),
        parsing::all_digits(s@.subrange(from as int, end as int)),
{
    let mut i: usize = from;
    while i < s.len() && '0' <= s[i] && s[i] <= '9'
        invariant
            from <= i <= s@.len(),
            parsing::all_digits(s@.subrange(from as int, i as int)),
        decreases s@.len() - i,
    {
        i = i + 1;
        proof {
            let run = s@.subrange(from as int, i as int);
            assert forall|j: int| 0 <= j < run.len() implies parsing::is_digit(
                #[trigger] run[j],
            ) by {
                if j < run.len() - 1 {
                    assert(run[j] == s@.subrange(from as int, i - 1)[j]);
                }
            }
        }
    }
    proof {
        let rest = s@.skip(from as int);
        assert(rest.take(i - from) =~= s@.subrange(from as int, i as int));
        lemma_run(rest, i - from);
    }
    i
}

/// The number that the digits from a place on stand for, at most 2^100.
fn capped(s: &Vec<char>, from: usize) -> (r: i128)
    requires
        from <= s@.len(),
        parsing::all_digits(s@.skip(from as int)),
    ensures
        0 <= r <= 0x10_0000_0000_0000_0000_0000_0000,
        r == parsing::count(s@.skip(from as int)) || (r
            == 0x10_0000_0000_0000_0000_0000_0000 && parsing::count(s@.skip(from as int)) >= r),
{
    let ghost body = s@.skip(from as int);
    let mut r: i128 = 0;
    let mut i: usize = from;
    assert(body.take(0) =~= Seq::<char>::empty());
    while i < s.len()
        invariant
            from <= i <= s@.len(),
            body == s@.skip(from as int),
            parsing::all_digits(body),
            0 <= r < 0x10_0000_0000_0000_0000_0000_0000,
            r == parsing::count(body.take(i - from)),
        decreases s@.len() - i,
    {
        assert(body.take(i - from + 1).drop_last() =~= body.take(i - from));
        assert(parsing::is_digit(body[i - from]));
        let c = s[i];
        r = 10 * r + (c as u32 - '0' as u32) as i128;
        proof {
            parsing::lemma_count_grows(body, i - from + 1);
        }
        if r >= 0x10_0000_0000_0000_0000_0000_0000 {
            return 0x10_0000_0000_0000_0000_0000_0000;
        }
        i = i + 1;
    }
    assert(body.take(i - from) =~= body);
    r
}

/// Whether a text from a place on is a word, but for the case of ASCII letters.
fn is_word(s: &Vec<char>, from: usize, word: &str) -> (r: bool)
    requires
        from <= s@.len(),
    ensures
        r == same_letters(s@.skip(from as int), word@),
{
    let w = parsing::characters(word);
    let ghost body = s@.skip(from as int);
    let n = s.len();
    if n - from != w.len() {
        return false;
    }
    let mut i: usize = 0;
    while i < w.len()
        invariant
            i <= w@.len(),
            n == s@.len(),
            w@ == word@,
            body == s@.skip(from as int),
            body.len() == w@.len(),
            s@.len() == from + w@.len(),
            forall|j: int| 0 <= j < i ==> lowered(#[trigger] body[j]) == lowered(word@[j]),
        decreases w@.len() - i,
    {
        assert(body[i as int] == s@[from + i]);
        if lower_char(s[from + i]) != lower_char(w[i]) {
            return false;
        }
        i = i + 1;
    }
    true
}

/// Whether two texts are the same but for the case of ASCII letters.
pub fn same_word(s: &str, word: &str) -> (r: bool)
    ensures
        r == same_letters(s@, word@),
{
    let cs = parsing::characters(s);
    assert(cs@.skip(0) =~= cs@);
    is_word(&cs, 0, word)
}

fn lower_char(c: char) -> (r: char)
    ensures
        r == lowered(c),
{
    if 'A' <= c && c <= 'Z' {
        ((c as u8) + 32) as char
    } else {
        c
    }
}

/// Reads the exponent at the end of a number, from a place on; past 2^100 it is cut.
fn scan_exponent(s: &Vec<char>, from: usize) -> (r: Option<i128>)
    requires
        from <= s@.len(),
    ensures
        match (r, exponent_of(s@.skip(from as int))) {
            (None, None) => true,
            (Some(e), Some(f)) => {
                &&& -0x10_0000_0000_0000_0000_0000_0000 <= e
                    <= 0x10_0000_0000_0000_0000_0000_0000
                &&& (e == f || (e == 0x10_0000_0000_0000_0000_0000_0000 && f >= e) || (e
                    == -0x10_0000_0000_0000_0000_0000_0000 && f <= e))
            },
            _ => false,
        },
{
    let ghost tail = s@.skip(from as int);
    let n = s.len();
    if from == n {
        return Some(0);
    }
    assert(tail[0] == s@[from as int]);
    if s[from] != 'e' && s[from] != 'E' {
        return None;
    }
    let signed = from + 1 < n && (s[from + 1] == '+' || s[from + 1] == '-');
    assert(from + 1 < n ==> tail[1] == s@[from + 1]);
    let start: usize = if signed {
        from + 2
    } else {
        from + 1
    };
    let stop = run_end(s, start);
    let ghost body = tail.skip(start - from);
    proof {
        assert(s@.skip(start as int) =~= body);
        if stop == n {
            assert(s@.subrange(start as int, n as int) =~= body);
        } else {
            lemma_run_is_maximal(body, stop - start);
        }
    }
    if start == n || stop != n {
        return None;
    }
    let size = capped(s, start);
    if signed && s[from + 1] == '-' {
        Some(-size)
    } else {
        Some(size)
    }
}

proof fn lemma_join_digits(a: Seq<char>, b: Seq<char>)
    requires
        parsing::all_digits(a),
        parsing::all_digits(b),
    ensures
        parsing::all_digits(a + b),
{
    assert forall|j: int| 0 <= j < (a + b).len() implies parsing::is_digit(
        #[trigger] (a + b)[j],
    ) by {
        if j < a.len() {
            assert((a + b)[j] == a[j]);
        } else {
            assert((a + b)[j] == b[j - a.len()]);
        }
    }
}

/// Appends a stretch of one list to another.
fn extend(r: &mut Vec<char>, s: &Vec<char>, from: usize, to: usize)
    requires
        from <= to <= s@.len(),
    ensures
        final(r)@ == old(r)@ + s@.subrange(from as int, to as int),
{
    let ghost start = r@;
    let mut i: usize = from;
    assert(start + s@.subrange(from as int, from as int) =~= start);
    while i < to
        invariant
            from <= i <= to <= s@.len(),
            r@ == start + s@.subrange(from as int, i as int),
        decreases to - i,
    {
        r.push(s[i]);
        i = i + 1;
        assert(r@ =~= start + s@.subrange(from as int, i as int));
    }
}

/// Reads the digits and the exponent of a number without sign, from a place on. An exponent
/// past 2^100 is cut.
fn scan_number(s: &Vec<char>, from: usize) -> (r: Option<(Vec<char>, i128)>)
    requires
        from <= s@.len(),
    ensures
        match (r, number_of(s@.skip(from as int))) {
            (None, None) => true,
            (Some((digits, e)), Some((all, f))) => {
                &&& digits@ == all
                &&& parsing::all_digits(digits@)
                &&& -0x20_0000_0000_0000_0000_0000_0000 <= e
                    <= 0x20_0000_0000_0000_0000_0000_0000
                &&& (e == f || f >= e > 400 || f <= e < -(digits@.len() + 400))
            },
            _ => false,
        },
{
    let ghost body = s@.skip(from as int);
    let n = s.len();
    let a_end = run_end(s, from);
    let ghost a = a_end - from;
    let point = a_end < n && s[a_end] == '.';
    proof {
        if a_end < n {
            assert(body[a] == s@[a_end as int]);
        }
        assert(point == (a < body.len() && body[a] == '.'));
        assert(body.take(a) =~= s@.subrange(from as int, a_end as int));
    }
    let mut digits: Vec<char> = Vec::new();
    extend(&mut digits, s, from, a_end);
    assert(digits@ =~= body.take(a));
    let mut end = a_end;
    let mut b: usize = 0;
    if point {
        end = run_end(s, a_end + 1);
        b = end - (a_end + 1);
        proof {
            assert(s@.skip(a_end + 1) =~= body.skip(a + 1));
            assert(body.subrange(a + 1, a + 1 + b) =~= s@.subrange(a_end + 1, end as int));
            lemma_join_digits(digits@, s@.subrange(a_end + 1, end as int));
        }
        extend(&mut digits, s, a_end + 1, end);
    } else {
        assert(body.take(a) + Seq::<char>::empty() =~= body.take(a));
    }
    assert(s@.skip(end as int) =~= body.skip(end - from));
    if a_end == from && b == 0 {
        return None;
    }
    match scan_exponent(s, end) {
        Some(x) => Some((digits, x - (b as i128))),
        None => None,
    }
}

/// A run that ends before the text does is followed by no digit.
proof fn lemma_run_is_maximal(s: Seq<char>, n: int)
    requires
        n == parsing::digit_run(s),
        n < s.len(),
    ensures
        !parsing::all_digits(s),
    decreases s.len(),
{
    if n > 0 {
        lemma_run_is_maximal(s.drop_first(), n - 1);
        if parsing::all_digits(s) {
            assert forall|i: int| 0 <= i < s.drop_first().len() implies parsing::is_digit(
                #[trigger] s.drop_first()[i],
            ) by {
                assert(parsing::is_digit(s[i + 1]));
            }
        }
    } else {
        assert(!parsing::is_digit(s[0]));
    }
}

/// Reads a number.
pub fn parse_double(s: &str) -> (r: Option<Double>)
    ensures
        r == double_of(s@),
{
    let cs = parsing::characters(s);
    let signed = cs.len() > 0 && (cs[0] == '+' || cs[0] == '-');
    let negative = signed && cs[0] == '-';
    let from: usize = if signed {
        1
    } else {
        0
    };
    proof {
        assert(cs@.skip(0) =~= cs@);
        if signed {
            assert(cs@.skip(1) =~= cs@.drop_first());
        }
    }
    match scan_number(&cs, from) {
        Some((digits, e)) => {
            return Some(decimal_double(negative, &digits, e));
        },
        None => {},
    }
    if is_word(&cs, from, "inf") || is_word(&cs, from, "infinity") {
        Some(double::make(negative, INFINITE))
    } else if is_word(&cs, from, "nan") {
        Some(
            if negative {
                Double::not_a_number().neg()
            } else {
                Double::not_a_number()
            },
        )
    } else {
        None
    }
}

} // verus!

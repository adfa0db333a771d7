//! Numbers as decimal text with a fixed count of decimals.
use vstd::prelude::*;
use vstd::arithmetic::power2::*;
use vstd::arithmetic::div_mod::*;
use crate::double;
use crate::double::{Double, UNIT};
use crate::rounding;
use crate::rounding::P53;
use crate::text;

verus! {

/// The most decimals that a number is written with.
pub const MOST_DECIMALS: u32 = 9;

/// A power of ten.
pub open spec fn tens(n: nat) -> nat
    decreases n,
{
    if n == 0 {
        1
    } else {
        10 * tens((n - 1) as nat)
    }
}

/// `num / den` rounded to a whole number, ties to even.
pub open spec fn half_even(num: nat, den: nat) -> nat {
    let q = num / den;
    q + if rounding::rounds_up(q, num % den, den) {
        1nat
    } else {
        0nat
    }
}

/// The magnitude of a finite number in steps of the last decimal.
pub open spec fn steps(x: Double, decimals: nat) -> nat {
    half_even(x.units() * tens(decimals), pow2(UNIT as nat))
}

/// The text of a number with a fixed count of decimals, rounded to nearest with ties to
/// even; `plus` puts a sign before a number that is not negative too.
pub open spec fn fixed_text(x: Double, decimals: nat, plus: bool) -> Seq<char> {
    let sign = if x.negative() {
        seq!['-']
    } else if plus {
        seq!['+']
    } else {
        Seq::<char>::empty()
    };
    if x.nan() {
        "NaN"@
    } else if x.infinite() {
        sign + "inf"@
    } else {
        let n = steps(x, decimals);
        let whole = sign + text::digits(n / tens(decimals));
        if decimals == 0 {
            whole
        } else {
            whole + seq!['.'] + text::padded(n % tens(decimals), decimals)
        }
    }
}

pub proof fn lemma_tens_positive(n: nat)
    ensures
        tens(n) > 0,
    decreases n,
{
    if n > 0 {
        lemma_tens_positive((n - 1) as nat);
    }
}

fn power_of_ten(n: u32) -> (r: u64)
    requires
        n <= MOST_DECIMALS,
    ensures
        r == tens(n as nat),
        1 <= r <= 1_000_000_000,
        n > 0 ==> r % 2 == 0,
{
    proof {
        reveal_with_fuel(tens, 10);
    }
    if n == 0 {
        1
    } else if n == 1 {
        10
    } else if n == 2 {
        100
    } else if n == 3 {
        1_000
    } else if n == 4 {
        10_000
    } else if n == 5 {
        100_000
    } else if n == 6 {
        1_000_000
    } else if n == 7 {
        10_000_000
    } else if n == 8 {
        100_000_000
    } else {
        1_000_000_000
    }
}

/// The number that some digits stand for, lowest first.
spec fn counted(ds: Seq<u8>) -> nat
    decreases ds.len(),
{
    if ds.len() == 0 {
        0
    } else {
        counted(ds.drop_last()) + ds.last() as nat * tens((ds.len() - 1) as nat)
    }
}

spec fn all_digits(ds: Seq<u8>) -> bool {
    forall|i: int| 0 <= i < ds.len() ==> #[trigger] ds[i] < 10
}

proof fn lemma_counted_first(ds: Seq<u8>)
    requires
        ds.len() > 0,
    ensures
        counted(ds) == ds[0] + 10 * counted(ds.drop_first()),
    decreases ds.len(),
{
    if ds.len() == 1 {
        assert(ds.drop_last().len() == 0);
        assert(ds.drop_first().len() == 0);
        reveal_with_fuel(counted, 2);
        assert(tens(0) == 1);
        assert(ds.last() as nat * tens(0) == ds.last()) by (nonlinear_arith)
            requires
                tens(0) == 1,
        ;
        assert(counted(ds.drop_last()) == 0);
        assert(counted(ds.drop_first()) == 0);
    } else {
        let rest = ds.drop_first();
        lemma_counted_first(ds.drop_last());
        assert(ds.drop_last().drop_first() =~= rest.drop_last());
        let n = (ds.len() - 1) as nat;
        assert(tens(n) == 10 * tens((n - 1) as nat));
        assert(ds.last() as nat * (10 * tens((n - 1) as nat)) == 10 * (ds.last() as nat * tens(
            (n - 1) as nat,
        ))) by (nonlinear_arith);
    }
}

proof fn lemma_counted_positive(ds: Seq<u8>)
    requires
        ds.len() > 0,
        ds.last() > 0,
    ensures
        counted(ds) > 0,
{
    lemma_tens_positive((ds.len() - 1) as nat);
    assert(ds.last() as nat * tens((ds.len() - 1) as nat) > 0) by (nonlinear_arith)
        requires
            ds.last() > 0,
            tens((ds.len() - 1) as nat) > 0,
    ;
}

/// Doubles a number held as digits, lowest first and without leading zeros.
fn double_digits(ds: &mut Vec<u8>)
    requires
        all_digits(old(ds)@),
        old(ds)@.len() == 0 || old(ds)@.last() > 0,
    ensures
        all_digits(final(ds)@),
        counted(final(ds)@) == 2 * counted(old(ds)@),
        final(ds)@.len() == 0 || final(ds)@.last() > 0,
{
    let ghost start = ds@;
    let n = ds.len();
    let mut carry: u8 = 0;
    let mut i: usize = 0;
    while i < n
        invariant
            n == ds@.len() == start.len(),
            i <= n,
            carry <= 1,
            all_digits(start),
            all_digits(ds@),
            n == 0 || start.last() > 0,
            i == n && n > 0 ==> carry > 0 || ds@.last() > 0,
            forall|j: int| i <= j < n ==> #[trigger] ds@[j] == start[j],
            counted(ds@.take(i as int)) + carry as nat * tens(i as nat) == 2 * counted(
                start.take(i as int),
            ),
        decreases n - i,
    {
        let ghost before = ds@;
        let d = ds[i];
        assert(d < 10);
        let s: u8 = 2 * d + carry;
        let low: u8 = s % 10;
        let high: u8 = s / 10;
        ds.set(i, low);
        proof {
            let x = tens(i as nat);
            assert(start.take(i + 1).drop_last() =~= start.take(i as int));
            assert(ds@.take(i + 1).drop_last() =~= before.take(i as int));
            assert(tens((i + 1) as nat) == 10 * x);
            assert(low as nat * x + high as nat * (10 * x) == (2 * d as nat + carry as nat) * x)
                by (nonlinear_arith)
                requires
                    low + 10 * high == 2 * d + carry,
            ;
            assert((2 * d as nat + carry as nat) * x == 2 * (d as nat * x) + carry as nat * x)
                by (nonlinear_arith);
        }
        carry = high;
        i = i + 1;
    }
    assert(ds@.take(n as int) =~= ds@);
    assert(start.take(n as int) =~= start);
    let ghost done = ds@;
    if carry > 0 {
        ds.push(carry);
        assert(ds@.drop_last() =~= done);
    } else {
        assert(carry as nat * tens(n as nat) == 0) by (nonlinear_arith)
            requires
                carry == 0,
        ;
    }
}

/// The digits of a whole number, lowest first and without leading zeros.
fn low_digits(n: u64) -> (r: Vec<u8>)
    ensures
        all_digits(r@),
        counted(r@) == n,
        r@.len() == 0 || r@.last() > 0,
{
    let mut r: Vec<u8> = Vec::new();
    let mut rest: u64 = n;
    let ghost mut scale: nat = 1;
    while rest > 0
        invariant
            all_digits(r@),
            scale == tens(r@.len()),
            counted(r@) + rest * scale == n,
            rest == 0 ==> r@.len() == 0 || r@.last() > 0,
        decreases rest,
    {
        let d: u8 = (rest % 10) as u8;
        let ghost before = r@;
        proof {
            let q = rest / 10;
            assert(rest * scale == d as nat * scale + q * (10 * scale)) by (nonlinear_arith)
                requires
                    rest == d + 10 * q,
            ;
        }
        r.push(d);
        proof {
            assert(r@.drop_last() =~= before);
            scale = 10 * scale;
        }
        rest = rest / 10;
    }
    r
}

/// The decimal text of a number held as digits.
fn digit_text(ds: &Vec<u8>) -> (r: String)
    requires
        all_digits(ds@),
        ds@.len() == 0 || ds@.last() > 0,
    ensures
        r@ == text::digits(counted(ds@)),
{
    let n = ds.len();
    if n == 0 {
        return text::decimal(0);
    }
    let mut i: usize = n - 1;
    let mut r = text::decimal(ds[n - 1] as u64);
    proof {
        let top = ds@.skip(n - 1);
        lemma_counted_first(top);
        assert(top.drop_first().len() == 0);
        assert(top[0] == ds@[n - 1]);
    }
    while i > 0
        invariant
            i < n == ds@.len(),
            all_digits(ds@),
            ds@.last() > 0,
            r@ == text::digits(counted(ds@.skip(i as int))),
        decreases i,
    {
        let ghost before = r@;
        proof {
            let here = ds@.skip(i - 1);
            lemma_counted_first(here);
            assert(here.drop_first() =~= ds@.skip(i as int));
            assert(here[0] == ds@[i - 1]);
            assert(ds@.skip(i as int).last() == ds@.last());
            lemma_counted_positive(ds@.skip(i as int));
        }
        i = i - 1;
        r.append(text::digit(ds[i] as u64));
        assert(r@ =~= before.push(text::digit_char(ds@[i as int] as nat)));
    }
    assert(ds@.skip(0) =~= ds@);
    r
}

/// The last `width` decimal digits of a whole number, zeros in front.
fn padded_text(n: u64, width: u32) -> (r: String)
    ensures
        r@ == text::padded(n as nat, width as nat),
    decreases width,
{
    if width == 0 {
        return String::new();
    }
    let mut r = padded_text(n / 10, width - 1);
    let ghost before = r@;
    r.append(text::digit(n % 10));
    assert(r@ =~= before.push(text::digit_char((n % 10) as nat)));
    r
}

proof fn lemma_split_steps(m: nat, ten: nat, w: nat, whole: nat, part: nat)
    requires
        w > 0,
        ten > 0,
        whole == m / w,
        part == (m % w) * ten,
    ensures
        (m * ten) / w == whole * ten + part / w,
        (m * ten) % w == part % w,
{
    lemma_fundamental_div_mod(m as int, w as int);
    lemma_fundamental_div_mod(part as int, w as int);
    lemma_mod_bound(part as int, w as int);
    let q = part / w;
    let r = part % w;
    let k = m % w;
    assert((w * whole + k) * ten == w * (whole * ten) + k * ten) by (nonlinear_arith);
    assert((whole * ten + q) * w == w * (whole * ten) + w * q) by (nonlinear_arith);
    assert(m * ten == (whole * ten + q) * w + r);
    lemma_fundamental_div_mod_converse(
        (m * ten) as int,
        w as int,
        (whole * ten + q) as int,
        r as int,
    );
}

proof fn lemma_cancel_steps(m: nat, t: nat, s: nat, ten: nat)
    requires
        t + s == UNIT,
    ensures
        half_even(m * pow2(t) * ten, pow2(UNIT as nat)) == half_even(m * ten, pow2(s)),
{
    let c = pow2(t);
    let d = pow2(s);
    lemma_pow2_pos(t);
    lemma_pow2_pos(s);
    rounding::lemma_pow2_split(s, t);
    let x = m * ten;
    assert(m * c * ten == x * c) by (nonlinear_arith)
        requires
            x == m * ten,
    ;
    double::lemma_cancel(x as int, d as int, c as int);
    let q = x / d;
    let r = x % d;
    lemma_fundamental_div_mod(x as int, d as int);
    lemma_mod_bound(x as int, d as int);
    assert(x * c == q * (d * c) + r * c) by (nonlinear_arith)
        requires
            x == d * q + r,
    ;
    assert(0 <= r * c < d * c) by (nonlinear_arith)
        requires
            0 <= r < d,
            c > 0,
    ;
    lemma_fundamental_div_mod_converse(
        (x * c) as int,
        (d * c) as int,
        q as int,
        (r * c) as int,
    );
    assert(2 * (r * c) > d * c <==> 2 * r > d) by (nonlinear_arith)
        requires
            c > 0,
    ;
    assert(2 * (r * c) == d * c <==> 2 * r == d) by (nonlinear_arith)
        requires
            c > 0,
    ;
}

/// The whole part and the decimals of a magnitude below 2^53, rounded.
fn rounded_parts(m: u64, s: u32, decimals: u32) -> (r: (u64, u64))
    requires
        m < P53,
        1 <= s,
        decimals <= MOST_DECIMALS,
    ensures
        half_even(m as nat * tens(decimals as nat), pow2(s as nat)) == r.0 * tens(decimals as nat)
            + r.1,
        r.1 < tens(decimals as nat),
{
    let ten: u64 = power_of_ten(decimals);
    proof {
        lemma_pow2_pos(s as nat);
        lemma2_to64();
        lemma2_to64_rest();
        rounding::lemma_p53();
    }
    if s >= 100 {
        proof {
            let x = m as nat * ten as nat;
            let w = pow2(s as nat);
            lemma_pow2_adds(50, 50);
            if s > 100 {
                lemma_pow2_strictly_increases(100, s as nat);
            }
            assert(2 * x < w) by (nonlinear_arith)
                requires
                    x == m * ten,
                    m < P53,
                    ten <= 1_000_000_000,
                    w >= 0x4_0000_0000_0000int * 0x4_0000_0000_0000int,
            ;
            lemma_fundamental_div_mod_converse(x as int, w as int, 0, x as int);
            assert(0 * tens(decimals as nat) == 0);
        }
        return (0, 0);
    }
    let w: u128 = double::power(s);
    let whole: u64 = ((m as u128) / w) as u64;
    let rest: u128 = (m as u128) % w;
    proof {
        lemma_div_nonincreasing(m as int, w as int);
        lemma_mod_bound(m as int, w as int);
        lemma_mod_decreases(m as nat, w as nat);
        assert(rest * ten < 0x100_0000_0000_0000_0000_0000) by (nonlinear_arith)
            requires
                0 <= rest < P53,
                ten <= 1_000_000_000,
        ;
    }
    let part: u128 = rest * (ten as u128);
    let q: u128 = part / w;
    let r: u128 = part % w;
    proof {
        lemma_split_steps(m as nat, ten as nat, w as nat, whole as nat, part as nat);
        lemma_mod_bound(part as int, w as int);
        lemma_fundamental_div_mod(part as int, w as int);
        assert(q < ten) by (nonlinear_arith)
            requires
                part == rest * ten,
                rest < w,
                part == w * q + r,
                r >= 0,
                ten > 0,
                w > 0,
        ;
        double::lemma_power_bound(s as nat);
    }
    let odd = if decimals == 0 {
        whole % 2 == 1
    } else {
        q % 2 == 1
    };
    proof {
        let full = whole as nat * ten as nat + q as nat;
        if decimals == 0 {
            assert(ten == 1);
            assert(whole as nat * ten as nat == whole) by (nonlinear_arith)
                requires
                    ten == 1,
            ;
            assert(q == 0);
        } else {
            assert((whole as nat * ten as nat) % 2 == 0) by {
                let h = ten as nat / 2;
                assert(whole as nat * ten as nat == 2 * (whole as nat * h)) by (nonlinear_arith)
                    requires
                        ten == 2 * h,
                ;
            }
        }
        assert((full % 2 == 1) == odd);
    }
    let up = r > w - r || (r == w - r && odd);
    if up {
        if q as u64 + 1 == ten {
            proof {
                assert((whole + 1) * ten == whole * ten + ten) by (nonlinear_arith);
            }
            (whole + 1, 0)
        } else {
            (whole, q as u64 + 1)
        }
    } else {
        (whole, q as u64)
    }
}

/// Writes a number with a fixed count of decimals.
pub fn fixed(x: Double, decimals: u32, plus: bool) -> (r: String)
    requires
        decimals <= MOST_DECIMALS,
    ensures
        r@ == fixed_text(x, decimals as nat, plus),
{
    if x.is_nan() {
        return "NaN".to_owned();
    }
    proof {
        reveal_strlit("-");
        reveal_strlit("+");
        reveal_strlit("");
        reveal_strlit(".");
    }
    let sign = if x.is_negative() {
        "-"
    } else if plus {
        "+"
    } else {
        ""
    };
    let ghost sign_text = if x.negative() {
        seq!['-']
    } else if plus {
        seq!['+']
    } else {
        Seq::<char>::empty()
    };
    assert(sign@ =~= sign_text);
    let mut r = sign.to_owned();
    if x.is_infinite() {
        r.append("inf");
        return r;
    }
    let (m, t) = x.parts();
    let ghost ten = tens(decimals as nat);
    let ghost n = steps(x, decimals as nat);
    proof {
        lemma_tens_positive(decimals as nat);
        lemma_pow2_pos(UNIT as nat);
    }
    let whole: String;
    let part: u64;
    if t >= UNIT {
        let e: u32 = t - UNIT;
        let mut ds = low_digits(m);
        let mut i: u32 = 0;
        proof {
            lemma2_to64();
        }
        while i < e
            invariant
                i <= e,
                all_digits(ds@),
                ds@.len() == 0 || ds@.last() > 0,
                counted(ds@) == m * pow2(i as nat),
            decreases e - i,
        {
            proof {
                lemma_pow2_unfold((i + 1) as nat);
                assert(2 * (m * pow2(i as nat)) == m * (2 * pow2(i as nat))) by (nonlinear_arith);
            }
            double_digits(&mut ds);
            i = i + 1;
        }
        whole = digit_text(&ds);
        part = 0;
        proof {
            let v = counted(ds@);
            let un = pow2(UNIT as nat);
            rounding::lemma_pow2_split(e as nat, UNIT as nat);
            let y = v * ten;
            assert(x.units() * ten == y * un) by (nonlinear_arith)
                requires
                    x.units() == m * (pow2(e as nat) * un),
                    v == m * pow2(e as nat),
                    y == v * ten,
            ;
            lemma_fundamental_div_mod_converse((y * un) as int, un as int, y as int, 0);
            assert(n == v * ten);
            lemma_fundamental_div_mod_converse(n as int, ten as int, v as int, 0);
        }
    } else {
        let s: u32 = UNIT - t;
        let (w, f) = rounded_parts(m, s, decimals);
        whole = text::decimal(w);
        part = f;
        proof {
            lemma_cancel_steps(m as nat, t as nat, s as nat, ten);
            lemma_fundamental_div_mod_converse(n as int, ten as int, w as int, f as int);
        }
    }
    r.append(whole.as_str());
    if decimals > 0 {
        r.append(".");
        assert("."@ =~= seq!['.']);
        r.append(padded_text(part, decimals).as_str());
    }
    r
}

} // verus!

//! Rounding of an exact non-negative ratio to a 53-bit binary significand.
//!
//! A magnitude is measured in units of the smallest positive binary64 number, so
//! every magnitude that binary64 can hold is a whole number of units.
use vstd::prelude::*;
use vstd::arithmetic::power2::*;
use vstd::arithmetic::div_mod::*;
use vstd::arithmetic::mul::*;

verus! {

/// 2 to the power 52: the number of binary64 magnitudes in one binade.
pub const P52: u64 = 0x10_0000_0000_0000;

/// 2 to the power 53: every whole number below it is a binary64 magnitude.
pub const P53: u64 = 0x20_0000_0000_0000;

/// The least `k` with `num / den < 2^(53 + k)`: how many low bits of the ratio the
/// significand has no room for.
pub open spec fn binade(num: nat, den: nat) -> nat
    decreases num - den,
{
    if den == 0 || num < den * P53 {
        0
    } else {
        1 + binade(num, 2 * den)
    }
}

/// Whether a remainder `r` of a division by `d` with quotient `q` rounds the quotient
/// up: past the half, or at the half with an odd quotient.
pub open spec fn rounds_up(q: nat, r: nat, d: nat) -> bool {
    2 * r > d || (2 * r == d && q % 2 == 1)
}

/// `num / den`, rounded to the nearest binary64 magnitude, ties to even, as the index of
/// that magnitude in increasing order. Indexes past the largest finite one mean overflow.
pub open spec fn round_ratio(num: nat, den: nat) -> nat {
    let k = binade(num, den);
    let d = den * pow2(k);
    let q = num / d;
    let r = num % d;
    k * (P52 as nat) + q + if rounds_up(q, r, d) {
        1nat
    } else {
        0nat
    }
}

pub proof fn lemma_p53()
    ensures
        pow2(52) == P52,
        pow2(53) == P53,
{
    lemma2_to64_rest();
}

pub proof fn lemma_pow2_split(a: nat, b: nat)
    ensures
        pow2(a + b) == pow2(a) * pow2(b),
        pow2(a) > 0,
        pow2(b) > 0,
{
    lemma_pow2_adds(a, b);
    lemma_pow2_pos(a);
    lemma_pow2_pos(b);
}

/// The two bounds that single out the binade.
pub proof fn lemma_binade_is(num: nat, den: nat, k: nat)
    requires
        den > 0,
        num < den * pow2(53 + k),
        k == 0 || num >= den * pow2(52 + k),
    ensures
        binade(num, den) == k,
    decreases k,
{
    lemma_p53();
    if k > 0 {
        let j = (k - 1) as nat;
        lemma_pow2_unfold(53 + k);
        lemma_pow2_unfold(52 + k);
        assert(53 + k - 1 == 53 + j);
        assert(52 + k - 1 == 52 + j);
        assert(den * (2 * pow2(53 + j)) == (2 * den) * pow2(53 + j)) by (nonlinear_arith);
        assert(den * (2 * pow2(52 + j)) == (2 * den) * pow2(52 + j)) by (nonlinear_arith);
        if j > 0 {
            lemma_pow2_strictly_increases(53, 52 + k);
        }
        assert(den * pow2(52 + k) >= den * pow2(53)) by (nonlinear_arith)
            requires
                pow2(52 + k) >= pow2(53),
        ;
        lemma_binade_is(num, 2 * den, j);
    }
}

pub proof fn lemma_binade_bounds(num: nat, den: nat)
    requires
        den > 0,
    ensures
        num < den * pow2(53 + binade(num, den)),
        binade(num, den) == 0 || num >= den * pow2(52 + binade(num, den)),
    decreases num - den,
{
    lemma_p53();
    let k = binade(num, den);
    if num < den * P53 {
    } else {
        lemma_binade_bounds(num, 2 * den);
        let j = binade(num, 2 * den);
        assert(k == j + 1);
        lemma_pow2_unfold(53 + k);
        lemma_pow2_unfold(52 + k);
        assert(53 + k - 1 == 53 + j);
        assert(52 + k - 1 == 52 + j);
        assert(den * (2 * pow2(53 + j)) == (2 * den) * pow2(53 + j)) by (nonlinear_arith);
        assert(den * (2 * pow2(52 + j)) == (2 * den) * pow2(52 + j)) by (nonlinear_arith);
    }
}

/// A division at the right binade decides the rounded index.
pub proof fn lemma_round_is(num: nat, den: nat, k: nat, q: nat, r: nat)
    requires
        den > 0,
        num < den * pow2(53 + k),
        k == 0 || num >= den * pow2(52 + k),
        num == q * (den * pow2(k)) + r,
        r < den * pow2(k),
    ensures
        round_ratio(num, den) == k * P52 + q + (if rounds_up(q, r, den * pow2(k)) {
            1int
        } else {
            0
        }),
        q < P53,
        k == 0 || q >= P52,
{
    lemma_binade_is(num, den, k);
    let d = den * pow2(k);
    lemma_pow2_pos(k);
    assert(d > 0) by (nonlinear_arith)
        requires
            den > 0,
            pow2(k) > 0,
            d == den * pow2(k),
    ;
    lemma_fundamental_div_mod_converse(num as int, d as int, q as int, r as int);
    lemma_p53();
    lemma_pow2_split(53, k);
    lemma_pow2_split(52, k);
    assert(den * (pow2(53) * pow2(k)) == pow2(53) * d) by (nonlinear_arith)
        requires
            d == den * pow2(k),
    ;
    assert(den * (pow2(52) * pow2(k)) == pow2(52) * d) by (nonlinear_arith)
        requires
            d == den * pow2(k),
    ;
    assert(q < P53) by (nonlinear_arith)
        requires
            q * d + r < P53 * d,
            r >= 0,
            d > 0,
    ;
    if k > 0 {
        assert(q >= P52) by (nonlinear_arith)
            requires
                q * d + r >= P52 * d,
                r < d,
                d > 0,
        ;
    }
}

/// The quotient and remainder that [`round_ratio`] speaks of, with their bounds.
pub proof fn lemma_round_parts(num: nat, den: nat) -> (parts: (nat, nat, nat))
    requires
        den > 0,
    ensures
        ({
            let (k, q, r) = parts;
            &&& k == binade(num, den)
            &&& num == q * (den * pow2(k)) + r
            &&& r < den * pow2(k)
            &&& q < P53
            &&& k == 0 || q >= P52
            &&& den * pow2(k) > 0
            &&& round_ratio(num, den) == k * P52 + q + (if rounds_up(q, r, den * pow2(k)) {
                1int
            } else {
                0
            })
        }),
{
    let k = binade(num, den);
    let d = den * pow2(k);
    lemma_pow2_pos(k);
    assert(d > 0) by (nonlinear_arith)
        requires
            den > 0,
            pow2(k) > 0,
            d == den * pow2(k),
    ;
    let q = num / d;
    let r = num % d;
    lemma_fundamental_div_mod(num as int, d as int);
    assert(num == q * d + r) by (nonlinear_arith)
        requires
            num == d * q + r,
    ;
    lemma_binade_bounds(num, den);
    lemma_round_is(num, den, k, q, r);
    (k, q, r)
}

/// Rounding depends on the ratio alone, not on how it is written.
pub proof fn lemma_round_scale(num: nat, den: nat, c: nat)
    requires
        den > 0,
        c > 0,
    ensures
        round_ratio(num * c, den * c) == round_ratio(num, den),
{
    let (k, q, r) = lemma_round_parts(num, den);
    let d = den * pow2(k);
    lemma_binade_bounds(num, den);
    assert((den * c) * pow2(k) == d * c) by (nonlinear_arith)
        requires
            d == den * pow2(k),
    ;
    assert(num * c == q * (d * c) + r * c) by (nonlinear_arith)
        requires
            num == q * d + r,
    ;
    assert(r * c < d * c) by (nonlinear_arith)
        requires
            r < d,
            c > 0,
    ;
    let u = pow2(53 + k);
    assert(num * c < (den * c) * u) by (nonlinear_arith)
        requires
            num < den * u,
            c > 0,
    ;
    if k > 0 {
        let l = pow2(52 + k);
        assert(num * c >= (den * c) * l) by (nonlinear_arith)
            requires
                num >= den * l,
                c > 0,
        ;
    }
    assert(den * c > 0) by (nonlinear_arith)
        requires
            den > 0,
            c > 0,
    ;
    lemma_round_is(num * c, den * c, k, q, r * c);
    assert(2 * (r * c) > d * c <==> 2 * r > d) by (nonlinear_arith)
        requires
            c > 0,
    ;
    assert(2 * (r * c) == d * c <==> 2 * r == d) by (nonlinear_arith)
        requires
            c > 0,
    ;
}

/// A ratio that is a magnitude of its own rounds to itself.
pub proof fn lemma_round_exact(q: nat, k: nat)
    requires
        q < P53,
        k == 0 || q >= P52,
    ensures
        round_ratio(q * pow2(k), 1) == k * P52 + q,
{
    lemma_p53();
    lemma_pow2_split(53, k);
    lemma_pow2_split(52, k);
    let p = pow2(k);
    assert(q * p < P53 * p) by (nonlinear_arith)
        requires
            q < P53,
            p > 0,
    ;
    if k > 0 {
        assert(q * p >= P52 * p) by (nonlinear_arith)
            requires
                q >= P52,
                p > 0,
        ;
    }
    lemma_round_is(q * p, 1, k, q, 0);
}

/// Rounding never reverses an order.
pub proof fn lemma_round_monotone(num1: nat, den1: nat, num2: nat, den2: nat)
    requires
        den1 > 0,
        den2 > 0,
        num1 * den2 <= num2 * den1,
    ensures
        round_ratio(num1, den1) <= round_ratio(num2, den2),
{
    let (k1, q1, r1) = lemma_round_parts(num1, den1);
    let (k2, q2, r2) = lemma_round_parts(num2, den2);
    lemma_binade_bounds(num1, den1);
    lemma_binade_bounds(num2, den2);
    if k1 > k2 {
        let l = pow2(52 + k1);
        let u = pow2(53 + k2);
        if 53 + k2 < 52 + k1 {
            lemma_pow2_strictly_increases(53 + k2, 52 + k1);
        }
        assert(false) by (nonlinear_arith)
            requires
                num1 * den2 <= num2 * den1,
                num1 >= den1 * l,
                num2 < den2 * u,
                u <= l,
                den1 > 0,
                den2 > 0,
        ;
    } else if k1 < k2 {
        assert(k1 * P52 + P53 <= k2 * P52 + P52) by (nonlinear_arith)
            requires
                k1 + 1 <= k2,
                P53 == 2 * P52,
        ;
    } else {
        let p = pow2(k1);
        let d1 = den1 * p;
        let d2 = den2 * p;
        lemma_pow2_pos(k1);
        assert(num1 * d2 <= num2 * d1) by (nonlinear_arith)
            requires
                num1 * den2 <= num2 * den1,
                d1 == den1 * p,
                d2 == den2 * p,
                p > 0,
        ;
        // (q1 * d1 + r1) * d2 <= (q2 * d2 + r2) * d1
        if q1 > q2 {
            assert(false) by (nonlinear_arith)
                requires
                    (q1 * d1 + r1) * d2 <= (q2 * d2 + r2) * d1,
                    q1 >= q2 + 1,
                    0 <= r1,
                    r2 < d2,
                    d1 > 0,
                    d2 > 0,
            ;
        } else if q1 == q2 {
            assert(r1 * d2 <= r2 * d1) by (nonlinear_arith)
                requires
                    (q1 * d1 + r1) * d2 <= (q2 * d2 + r2) * d1,
                    q1 == q2,
            ;
            if rounds_up(q1, r1, d1) && !rounds_up(q2, r2, d2) {
                if 2 * r1 > d1 {
                    assert(false) by (nonlinear_arith)
                        requires
                            r1 * d2 <= r2 * d1,
                            2 * r1 > d1,
                            2 * r2 <= d2,
                            d1 > 0,
                            d2 > 0,
                    ;
                } else {
                    assert(false) by (nonlinear_arith)
                        requires
                            r1 * d2 <= r2 * d1,
                            2 * r1 == d1,
                            2 * r2 < d2,
                            d1 > 0,
                            d2 > 0,
                    ;
                }
            }
        }
    }
}

/// An odd stand-in `p` for a ratio strictly between `p - 1` and `p + 1` rounds as the
/// ratio itself does, once it has bits to spare.
pub proof fn lemma_round_sticky(num: nat, den: nat, p: nat, u: nat, v: nat)
    requires
        den > 0,
        p % 2 == 1,
        p >= 4 * P53,
        (p - 1) * den < num,
        num < (p + 1) * den,
    ensures
        round_ratio(num * pow2(u), den * pow2(v)) == round_ratio(p * pow2(u), pow2(v)),
{
    let pu = pow2(u);
    let pv = pow2(v);
    lemma_pow2_pos(u);
    lemma_pow2_pos(v);
    lemma_p53();
    let (k, q0, r0) = lemma_round_parts(p * pu, pv);
    lemma_binade_bounds(p * pu, pv);
    // p * 2^u < 2^(v + 53 + k), with p at least 2^55
    lemma_pow2_split(v, 53 + k);
    lemma_pow2_split(2, 53);
    lemma_pow2_split(55, u);
    lemma2_to64();
    assert(pow2(55) == 4 * P53) by {
        assert(2nat + 53nat == 55nat);
    }
    assert(pow2(55 + u) <= p * pu) by (nonlinear_arith)
        requires
            pow2(55 + u) == 4 * P53 * pu,
            p >= 4 * P53,
    ;
    if v + 53 + k <= 55 + u {
        if v + 53 + k < 55 + u {
            lemma_pow2_strictly_increases(v + 53 + k, 55 + u);
        }
        assert(v + (53 + k) == v + 53 + k);
        assert(false);
    }
    let g = (v + k - u) as nat;
    assert(g >= 3);
    let gp = pow2(g);
    let h = pow2((g - 2) as nat);
    lemma_pow2_unfold(g);
    lemma_pow2_unfold((g - 1) as nat);
    assert(gp == 4 * h);
    lemma_pow2_split(g, u);
    lemma_pow2_split(v, k);
    assert(pv * pow2(k) == gp * pu);
    // dividing p by 2^g
    let q = p / gp;
    let r = p % gp;
    lemma_fundamental_div_mod(p as int, gp as int);
    lemma_mod_pos_bound(p as int, gp as int);
    assert(p == q * gp + r) by (nonlinear_arith)
        requires
            p == gp * q + r,
    ;
    assert(q * gp == 4 * (q * h)) by (nonlinear_arith)
        requires
            gp == 4 * h,
    ;
    assert(r % 2 == 1);
    assert(p * pu == q * (pv * pow2(k)) + r * pu) by (nonlinear_arith)
        requires
            p == q * gp + r,
            pv * pow2(k) == gp * pu,
    ;
    assert(r * pu < pv * pow2(k)) by (nonlinear_arith)
        requires
            r < gp,
            pu > 0,
            pv * pow2(k) == gp * pu,
    ;
    lemma_round_is(p * pu, pv, k, q, r * pu);
    assert(2 * (r * pu) > gp * pu <==> 2 * r > gp) by (nonlinear_arith)
        requires
            pu > 0,
    ;
    assert(2 * (r * pu) == gp * pu <==> 2 * r == gp) by (nonlinear_arith)
        requires
            pu > 0,
    ;
    // the same quotient for the ratio itself
    let d = den * pv;
    let dk = d * pow2(k);
    assert(dk == (den * gp) * pu) by (nonlinear_arith)
        requires
            d == den * pv,
            dk == d * pow2(k),
            pv * pow2(k) == gp * pu,
    ;
    assert(num >= q * (den * gp)) by (nonlinear_arith)
        requires
            (p - 1) * den < num,
            p == q * gp + r,
            r >= 1,
            den > 0,
    ;
    let ra = (num - q * (den * gp)) as nat;
    assert(ra < (r + 1) * den) by (nonlinear_arith)
        requires
            num < (p + 1) * den,
            p == q * gp + r,
            ra == num - q * (den * gp),
    ;
    assert(ra > (r - 1) * den) by (nonlinear_arith)
        requires
            num > (p - 1) * den,
            p == q * gp + r,
            ra == num - q * (den * gp),
    ;
    assert((r + 1) * den <= den * gp) by (nonlinear_arith)
        requires
            r + 1 <= gp,
            den > 0,
    ;
    assert(num * pu == q * dk + ra * pu) by (nonlinear_arith)
        requires
            ra == num - q * (den * gp),
            dk == (den * gp) * pu,
    ;
    assert(ra * pu < dk) by (nonlinear_arith)
        requires
            ra < den * gp,
            pu > 0,
            dk == (den * gp) * pu,
    ;
    assert(d > 0) by (nonlinear_arith)
        requires
            d == den * pv,
            den > 0,
            pv > 0,
    ;
    // the same binade
    let t = pow2(53 + k);
    assert(num * pu < d * t) by {
        lemma_pow2_split(53, k);
        assert(pv * t == P53 * gp * pu) by (nonlinear_arith)
            requires
                t == P53 * pow2(k),
                pv * pow2(k) == gp * pu,
        ;
        assert(p < P53 * gp) by (nonlinear_arith)
            requires
                p * pu < pv * t,
                pv * t == P53 * gp * pu,
                pu > 0,
        ;
        assert(P53 * gp == 4 * (P53 * h)) by (nonlinear_arith)
            requires
                gp == 4 * h,
        ;
        assert(num * pu < d * t) by (nonlinear_arith)
            requires
                num < (p + 1) * den,
                p + 1 <= P53 * gp,
                pv * t == P53 * gp * pu,
                d == den * pv,
                pu > 0,
                den > 0,
        ;
    }
    if k > 0 {
        let l = pow2(52 + k);
        lemma_pow2_split(52, k);
        assert(pv * l == P52 * gp * pu) by (nonlinear_arith)
            requires
                l == P52 * pow2(k),
                pv * pow2(k) == gp * pu,
        ;
        assert(p >= P52 * gp) by (nonlinear_arith)
            requires
                p * pu >= pv * l,
                pv * l == P52 * gp * pu,
                pu > 0,
        ;
        assert(P52 * gp == 4 * (P52 * h)) by (nonlinear_arith)
            requires
                gp == 4 * h,
        ;
        assert(num * pu >= d * l) by (nonlinear_arith)
            requires
                num > (p - 1) * den,
                p - 1 >= P52 * gp,
                pv * l == P52 * gp * pu,
                d == den * pv,
                pu > 0,
                den > 0,
        ;
    }
    lemma_round_is(num * pu, d, k, q, ra * pu);
    // and the same side of the half
    assert(2 * (ra * pu) > (den * gp) * pu <==> 2 * ra > den * gp) by (nonlinear_arith)
        requires
            pu > 0,
    ;
    assert(2 * (ra * pu) == (den * gp) * pu <==> 2 * ra == den * gp) by (nonlinear_arith)
        requires
            pu > 0,
    ;
    assert(r != 2 * h);
    if r < 2 * h {
        assert(2 * ra < den * gp) by (nonlinear_arith)
            requires
                ra < (r + 1) * den,
                r + 1 <= 2 * h,
                gp == 4 * h,
                den > 0,
        ;
    } else {
        assert(2 * ra > den * gp) by (nonlinear_arith)
            requires
                ra > (r - 1) * den,
                r - 1 >= 2 * h,
                gp == 4 * h,
                den > 0,
        ;
    }
}

} // verus!

//! Natural numbers of any size, as 32-bit limbs, lowest first.
use vstd::prelude::*;
use vstd::arithmetic::power2::*;
use vstd::arithmetic::div_mod::*;
use crate::rounding;

verus! {

/// One more than the largest limb.
pub const BASE: u64 = 0x1_0000_0000;

/// The number that some limbs stand for.
pub open spec fn natural(limbs: Seq<u32>) -> nat
    decreases limbs.len(),
{
    if limbs.len() == 0 {
        0
    } else {
        limbs[0] as nat + BASE as nat * natural(limbs.drop_first())
    }
}

/// No limb stands in front of the number in vain.
pub open spec fn trimmed(limbs: Seq<u32>) -> bool {
    limbs.len() == 0 || limbs.last() > 0
}

proof fn lemma_base(i: nat)
    ensures
        pow2(32 * (i + 1)) == BASE * pow2(32 * i),
        pow2(0) == 1,
        pow2(32) == BASE,
{
    lemma2_to64();
    lemma2_to64_rest();
    rounding::lemma_pow2_split(32, 32 * i);
    assert(32 + 32 * i == 32 * (i + 1)) by (nonlinear_arith);
}

/// The last limb counts for its place.
proof fn lemma_natural_last(limbs: Seq<u32>)
    requires
        limbs.len() > 0,
    ensures
        natural(limbs) == natural(limbs.drop_last()) + limbs.last() as nat * pow2(
            (32 * (limbs.len() - 1)) as nat,
        ),
    decreases limbs.len(),
{
    if limbs.len() == 1 {
        assert(limbs.drop_first().len() == 0);
        assert(limbs.drop_last().len() == 0);
        lemma_base(0);
        assert(natural(limbs.drop_first()) == 0);
        assert(limbs.last() as nat * pow2(0) == limbs.last()) by (nonlinear_arith)
            requires
                pow2(0) == 1,
        ;
        assert(BASE as nat * natural(limbs.drop_first()) == 0) by (nonlinear_arith)
            requires
                natural(limbs.drop_first()) == 0,
        ;
    } else {
        let rest = limbs.drop_first();
        lemma_natural_last(rest);
        assert(rest.drop_last() =~= limbs.drop_last().drop_first());
        let n = (limbs.len() - 2) as nat;
        lemma_base(n);
        let x = limbs.last() as nat;
        let w = pow2(32 * n);
        let low = natural(rest.drop_last());
        assert(BASE as nat * (low + x * w) == BASE as nat * low + x * (BASE * w))
            by (nonlinear_arith);
    }
}

/// Multiplies by a small number and adds another.
pub fn multiply(limbs: &mut Vec<u32>, factor: u32, extra: u32)
    requires
        trimmed(old(limbs)@),
        factor > 0,
    ensures
        natural(final(limbs)@) == natural(old(limbs)@) * factor + extra,
        trimmed(final(limbs)@),
        final(limbs)@.len() <= old(limbs)@.len() + 1,
{
    let ghost start = limbs@;
    let n = limbs.len();
    let mut carry: u64 = extra as u64;
    let mut i: usize = 0;
    proof {
        lemma_base(0);
        assert(start.take(0) =~= Seq::<u32>::empty());
        assert(limbs@.take(0) =~= Seq::<u32>::empty());
        assert(0nat * factor as nat == 0);
        assert(carry as nat * pow2(0) == carry) by (nonlinear_arith)
            requires
                pow2(0) == 1,
        ;
    }
    while i < n
        invariant
            n == limbs@.len() == start.len(),
            i <= n,
            carry < BASE,
            factor > 0,
            trimmed(start),
            i == n && n > 0 ==> carry > 0 || limbs@.last() > 0,
            forall|j: int| i <= j < n ==> #[trigger] limbs@[j] == start[j],
            natural(limbs@.take(i as int)) + carry as nat * pow2(32 * i as nat) == natural(
                start.take(i as int),
            ) * factor + extra,
        decreases n - i,
    {
        let ghost before = limbs@;
        let d = limbs[i];
        assert((d as u64) * (factor as u64) <= 0xffff_ffff * 0xffff_ffff) by (nonlinear_arith)
            requires
                d <= 0xffff_ffff,
                factor <= 0xffff_ffff,
        ;
        let s: u64 = (d as u64) * (factor as u64) + carry;
        let low: u32 = (s % BASE) as u32;
        let high: u64 = s / BASE;
        limbs.set(i, low);
        proof {
            let w = pow2(32 * i as nat);
            lemma_base(i as nat);
            assert(start.take(i + 1).drop_last() =~= start.take(i as int));
            assert(limbs@.take(i + 1).drop_last() =~= before.take(i as int));
            lemma_natural_last(start.take(i + 1));
            lemma_natural_last(limbs@.take(i + 1));
            let a = natural(start.take(i as int));
            assert(low as nat * w + high as nat * (BASE * w) == (d as nat * factor as nat
                + carry as nat) * w) by (nonlinear_arith)
                requires
                    low as nat + high as nat * BASE == d as nat * factor as nat + carry as nat,
            ;
            assert((d as nat * factor as nat + carry as nat) * w == (d as nat * w) * factor as nat
                + carry as nat * w) by (nonlinear_arith);
            assert((a + d as nat * w) * factor as nat == a * factor as nat + (d as nat * w)
                * factor as nat) by (nonlinear_arith);
            if i == n - 1 {
                assert(d > 0);
                assert(s > 0) by (nonlinear_arith)
                    requires
                        s == d * factor + carry,
                        d > 0,
                        factor > 0,
                ;
            }
            assert(high < BASE) by (nonlinear_arith)
                requires
                    high == s / BASE,
                    s <= 0xffff_ffff * 0xffff_ffff + 0xffff_ffff,
            ;
        }
        carry = high;
        i = i + 1;
    }
    assert(limbs@.take(n as int) =~= limbs@);
    assert(start.take(n as int) =~= start);
    let ghost done = limbs@;
    if carry > 0 {
        limbs.push(carry as u32);
        proof {
            lemma_natural_last(limbs@);
            assert(limbs@.drop_last() =~= done);
        }
    } else {
        assert(carry as nat * pow2(32 * n as nat) == 0) by (nonlinear_arith)
            requires
                carry == 0,
        ;
    }
}

/// Divides by a small number and returns the remainder.
pub fn divide(limbs: &mut Vec<u32>, divisor: u32) -> (remainder: u32)
    requires
        divisor > 0,
    ensures
        natural(old(limbs)@) == natural(final(limbs)@) * divisor + remainder,
        remainder < divisor,
        trimmed(final(limbs)@),
        final(limbs)@.len() <= old(limbs)@.len(),
{
    let ghost start = limbs@;
    let n = limbs.len();
    let mut rest: u64 = 0;
    let mut i: usize = n;
    assert(start.skip(n as int) =~= Seq::<u32>::empty());
    assert(limbs@.skip(n as int) =~= Seq::<u32>::empty());
    assert(0nat * divisor as nat == 0);
    while i > 0
        invariant
            n == limbs@.len() == start.len(),
            i <= n,
            divisor > 0,
            rest < divisor,
            forall|j: int| 0 <= j < i ==> #[trigger] limbs@[j] == start[j],
            natural(start.skip(i as int)) == natural(limbs@.skip(i as int)) * divisor + rest,
        decreases i,
    {
        let ghost before = limbs@;
        i = i - 1;
        let d = limbs[i];
        let s: u64 = rest * BASE + d as u64;
        let q: u64 = s / (divisor as u64);
        let r: u64 = s % (divisor as u64);
        proof {
            lemma_fundamental_div_mod(s as int, divisor as int);
            assert(q < BASE) by (nonlinear_arith)
                requires
                    s == divisor * q + r,
                    r >= 0,
                    s < divisor * BASE,
                    divisor > 0,
            ;
        }
        limbs.set(i, q as u32);
        rest = r;
        proof {
            assert(start.skip(i as int).drop_first() =~= start.skip(i + 1));
            assert(limbs@.skip(i as int).drop_first() =~= before.skip(i + 1));
            assert(start.skip(i as int)[0] == d);
            assert(limbs@.skip(i as int)[0] == q);
            let a = natural(before.skip(i + 1));
            let old_rest = (s - d) as nat / BASE as nat;
            let g = BASE as nat;
            let v = divisor as nat;
            assert(natural(start.skip(i + 1)) == a * v + old_rest);
            assert(g * (a * v + old_rest) == (g * a) * v + g * old_rest) by (nonlinear_arith);
            assert((q as nat + g * a) * v == q as nat * v + (g * a) * v) by (nonlinear_arith);
            assert(divisor * q == q as nat * v) by (nonlinear_arith)
                requires
                    v == divisor,
            ;
        }
    }
    assert(limbs@.skip(0) =~= limbs@);
    assert(start.skip(0) =~= start);
    trim(limbs);
    rest as u32
}

/// Takes the zero limbs in front away.
fn trim(limbs: &mut Vec<u32>)
    ensures
        natural(final(limbs)@) == natural(old(limbs)@),
        trimmed(final(limbs)@),
        final(limbs)@.len() <= old(limbs)@.len(),
{
    while limbs.len() > 0 && limbs[limbs.len() - 1] == 0
        invariant
            natural(limbs@) == natural(old(limbs)@),
            limbs@.len() <= old(limbs)@.len(),
        decreases limbs@.len(),
    {
        proof {
            lemma_natural_last(limbs@);
            assert(0nat * pow2((32 * (limbs@.len() - 1)) as nat) == 0) by (nonlinear_arith);
        }
        let ghost before = limbs@;
        let _ = limbs.pop();
        assert(limbs@ =~= before.drop_last());
    }
}

/// Multiplies by a power of the base.
pub fn shift(limbs: &mut Vec<u32>, places: usize)
    requires
        trimmed(old(limbs)@),
    ensures
        natural(final(limbs)@) == natural(old(limbs)@) * pow2(32 * places as nat),
        trimmed(final(limbs)@),
{
    proof {
        lemma_base(0);
        assert(natural(limbs@) * pow2(0) == natural(limbs@)) by (nonlinear_arith)
            requires
                pow2(0) == 1,
        ;
    }
    if limbs.len() == 0 {
        assert(natural(limbs@) * pow2(32 * places as nat) == 0) by (nonlinear_arith)
            requires
                natural(limbs@) == 0,
        ;
        return;
    }
    let mut i: usize = 0;
    while i < places
        invariant
            i <= places,
            trimmed(limbs@),
            limbs@.len() > 0,
            natural(limbs@) == natural(old(limbs)@) * pow2(32 * i as nat),
        decreases places - i,
    {
        let ghost before = limbs@;
        limbs.insert(0, 0);
        proof {
            assert(limbs@.drop_first() =~= before);
            assert(limbs@.last() == before.last());
            lemma_base(i as nat);
            let x = natural(old(limbs)@);
            let w = pow2(32 * i as nat);
            assert(BASE as nat * (x * w) == x * (BASE * w)) by (nonlinear_arith);
        }
        i = i + 1;
    }
}

/// The highest 96 bits of a number, at least 64 of them where limbs are left out, how many
/// limbs are left out, and whether any of those is not zero.
pub fn leading(limbs: &Vec<u32>) -> (r: (u128, usize, bool))
    requires
        trimmed(limbs@),
    ensures
        r.0 < pow2(96),
        r.1 > 0 ==> r.0 >= pow2(64),
        r.1 <= limbs@.len(),
        r.0 as nat * pow2(32 * r.1 as nat) <= natural(limbs@) < r.0 as nat * pow2(32 * r.1 as nat)
            + pow2(32 * r.1 as nat),
        r.2 == (natural(limbs@) > r.0 as nat * pow2(32 * r.1 as nat)),
{
    let n = limbs.len();
    let mut i: usize = 0;
    let mut loose = false;
    let ghost mut low: nat = 0;
    proof {
        lemma_base(0);
        assert(limbs@.skip(0) =~= limbs@);
        assert(natural(limbs@) * pow2(0) == natural(limbs@)) by (nonlinear_arith)
            requires
                pow2(0) == 1,
        ;
    }
    while n - i > 3
        invariant
            n == limbs@.len(),
            i <= n,
            i > 0 ==> n - i >= 3,
            natural(limbs@) == natural(limbs@.skip(i as int)) * pow2(32 * i as nat) + low,
            low < pow2(32 * i as nat),
            loose == (low > 0),
        decreases n - i,
    {
        let d = limbs[i];
        proof {
            lemma_base(i as nat);
            let w = pow2(32 * i as nat);
            let rest = natural(limbs@.skip(i + 1));
            assert(limbs@.skip(i as int).drop_first() =~= limbs@.skip(i + 1));
            assert(limbs@.skip(i as int)[0] == d);
            assert((d as nat + BASE as nat * rest) * w == rest * (BASE * w) + d as nat * w)
                by (nonlinear_arith);
            assert(d as nat * w + low < BASE * w) by (nonlinear_arith)
                requires
                    low < w,
                    d < BASE,
            ;
            assert(d as nat * w + low > 0 <==> d > 0 || low > 0) by (nonlinear_arith)
                requires
                    w > 0,
            ;
            low = d as nat * w + low;
        }
        if d > 0 {
            loose = true;
        }
        i = i + 1;
    }
    let mut top: u128 = 0;
    let mut j: usize = n;
    proof {
        lemma2_to64();
        lemma2_to64_rest();
        rounding::lemma_pow2_split(32, 64);
        assert(limbs@.skip(n as int) =~= Seq::<u32>::empty());
    }
    while j > i
        invariant
            n == limbs@.len(),
            i <= j <= n,
            n - i <= 3,
            top == natural(limbs@.skip(j as int)),
            n - j == 0 ==> top == 0,
            n - j == 1 ==> top < 0x1_0000_0000,
            n - j == 2 ==> top < 0x1_0000_0000_0000_0000,
            n - j == 3 ==> top < 0x1_0000_0000_0000_0000_0000_0000,
            trimmed(limbs@),
            n - j == 1 ==> top >= 1,
            n - j == 2 ==> top >= 0x1_0000_0000,
            n - j == 3 ==> top >= 0x1_0000_0000_0000_0000,
        decreases j,
    {
        j = j - 1;
        proof {
            assert(limbs@.skip(j as int).drop_first() =~= limbs@.skip(j + 1));
            assert(limbs@.skip(j as int)[0] == limbs@[j as int]);
        }
        top = top * 0x1_0000_0000 + limbs[j] as u128;
    }
    proof {
        assert(pow2(96) == 0x1_0000_0000_0000_0000_0000_0000);
        assert(natural(limbs@) == top as nat * pow2(32 * i as nat) + low);
    }
    (top, i, loose)
}

} // verus!

//! What a verdict on paper results means.
use vstd::prelude::*;
use crate::brain;
use crate::config::Settings;
use crate::double::Double;
use crate::figures;
use crate::number_laws;
use crate::readiness;

verus! {

/// Where an account stands after so many of its oldest results, given newest first.
pub open spec fn stand(pnls: Seq<Double>, count: int) -> Double
    decreases count,
{
    if count <= 0 {
        Double::zero()
    } else {
        stand(pnls, count - 1).add(pnls[pnls.len() - count])
    }
}

/// A verdict passes exactly when every condition of the settings is met by the figures it
/// shows: enough trades, an expectancy above the least, a profit factor of at least the least,
/// a drawdown of at most the largest share of the equity, and no data errors. Figures that are
/// no finite numbers count as nothing gained, and as everything lost.
pub proof fn a_verdict_passes_only_within_every_limit(
    pnls: Seq<Double>,
    errors: u64,
    settings: Settings,
)
    ensures
        ({
            let verdict = readiness::readiness_of(pnls, errors, settings);
            let m = verdict.metrics;
            &&& m.max_drawdown_pct.finite() && settings.max_live_drawdown_pct.lt(
                m.max_drawdown_pct,
            ) ==> !verdict.passed && !verdict.checks.drawdown
            &&& !m.max_drawdown_pct.finite() && settings.max_live_drawdown_pct.lt(Double::one())
                ==> !verdict.passed
            &&& m.expectancy.finite() && m.expectancy.le(settings.min_live_expectancy)
                ==> !verdict.passed && !verdict.checks.net_expectancy
            &&& !m.expectancy.finite() && Double::zero().le(settings.min_live_expectancy)
                ==> !verdict.passed
            &&& m.profit_factor.finite() && m.profit_factor.lt(settings.min_live_profit_factor)
                ==> !verdict.passed && !verdict.checks.profit_factor
            &&& !m.profit_factor.finite() && Double::zero().lt(settings.min_live_profit_factor)
                ==> !verdict.passed
            &&& m.trades < settings.min_live_trades ==> !verdict.passed
                && !verdict.checks.sample_size
            &&& errors > 0 ==> !verdict.passed && !verdict.checks.data_quality
            &&& {
                &&& m.trades >= settings.min_live_trades
                &&& errors == 0
                &&& m.expectancy.finite() && settings.min_live_expectancy.lt(m.expectancy)
                &&& m.profit_factor.finite() && settings.min_live_profit_factor.le(m.profit_factor)
                &&& m.max_drawdown_pct.finite() && m.max_drawdown_pct.le(
                    settings.max_live_drawdown_pct,
                )
            } ==> verdict.passed
            &&& !verdict.live_enabled
        }),
{
}

/// The figures of a verdict are those of the results: each is counted, the expectancy is their
/// mean, the profit factor is what was won over what was lost, and the drawdown is given as a
/// share of the equity too.
pub proof fn a_summary_is_of_its_results(pnls: Seq<Double>, equity: Double)
    requires
        pnls.len() <= u64::MAX,
        pnls.len() <= usize::MAX,
    ensures
        ({
            let m = readiness::summary_of(pnls, equity);
            let won = pnls.filter(|x: Double| Double::zero().lt(x));
            let lost = pnls.filter(|x: Double| x.lt(Double::zero()));
            let total = brain::sum(lost).abs();
            let n = Double::whole(pnls.len() as u64);
            &&& m.trades == pnls.len()
            &&& pnls.len() > 0 ==> m.expectancy == brain::sum(pnls).div(n)
            &&& pnls.len() > 0 ==> m.win_rate == Double::whole(won.len() as u64).div(n).mul(
                Double::whole(100),
            )
            &&& pnls.len() == 0 ==> m.expectancy == Double::zero() && m.profit_factor
                == Double::zero() && m.max_drawdown == Double::zero()
            &&& Double::zero().lt(total) ==> m.profit_factor == brain::sum(won).div(total)
            &&& !Double::zero().lt(total) && won.len() > 0 ==> m.profit_factor == Double::largest()
            &&& !Double::zero().lt(total) && won.len() == 0 ==> m.profit_factor == Double::zero()
            &&& m.max_drawdown_pct == m.max_drawdown.div(equity)
        }),
{
    gains_are_above_zero(pnls);
    if pnls.len() == 0 {
        assert(pnls.reverse() =~= Seq::empty());
        assert(figures::losses(pnls) =~= Seq::empty());
        assert(brain::sum(figures::losses(pnls)) == Double::zero());
        assert(Double::zero().abs() == Double::zero());
    }
}

/// What was won are the results above zero and what was lost those below, in their order.
pub proof fn gains_are_above_zero(pnls: Seq<Double>)
    ensures
        figures::gains(pnls) == pnls.filter(|x: Double| Double::zero().lt(x)),
        figures::losses(pnls) == pnls.filter(|x: Double| x.lt(Double::zero())),
    decreases pnls.len(),
{
    reveal(Seq::filter);
    if pnls.len() > 0 {
        gains_are_above_zero(pnls.drop_last());
    } else {
        assert(figures::gains(pnls) =~= pnls);
        assert(figures::losses(pnls) =~= pnls);
        assert(pnls.filter(|x: Double| Double::zero().lt(x)) =~= pnls);
        assert(pnls.filter(|x: Double| x.lt(Double::zero())) =~= pnls);
    }
}

proof fn lemma_running(pnls: Seq<Double>, k: int)
    requires
        0 <= k <= pnls.len(),
    ensures
        figures::course(pnls.reverse().take(k)).running == stand(pnls, k),
    decreases k,
{
    if k > 0 {
        lemma_running(pnls, k - 1);
        let r = pnls.reverse();
        assert(r.take(k).drop_last() =~= r.take(k - 1));
        assert(r.take(k).last() == pnls[pnls.len() - k]);
    }
}

/// The highest stand of the first `k`, and where it was.
proof fn lemma_peak(pnls: Seq<Double>, k: int) -> (a: int)
    requires
        0 <= k <= pnls.len(),
        forall|i: int| 0 <= i <= pnls.len() ==> (#[trigger] stand(pnls, i)).finite(),
    ensures
        0 <= a <= k,
        figures::course(pnls.reverse().take(k)).peak == stand(pnls, a),
        forall|i: int|
            0 <= i <= k ==> (#[trigger] stand(pnls, i)).le(
                figures::course(pnls.reverse().take(k)).peak,
            ),
    decreases k,
{
    if k == 0 {
        assert(stand(pnls, 0) == Double::zero());
        0
    } else {
        let r = pnls.reverse();
        let a = lemma_peak(pnls, k - 1);
        lemma_running(pnls, k);
        assert(r.take(k).drop_last() =~= r.take(k - 1));
        assert(stand(pnls, k).finite());
        let before = figures::course(r.take(k - 1)).peak;
        let after = figures::course(r.take(k)).peak;
        assert(after == before.max(stand(pnls, k)));
        assert forall|i: int| 0 <= i <= k implies (#[trigger] stand(pnls, i)).le(after) by {
            if i < k {
                assert(stand(pnls, i).le(before));
            }
        }
        if before.lt(stand(pnls, k)) {
            k
        } else {
            a
        }
    }
}

proof fn lemma_nothing_from_nothing()
    ensures
        Double::zero().sub(Double::zero()) == Double::zero(),
        Double::zero().le(Double::zero()),
{
    let z = Double::zero();
    assert(z.units() == 0 && z.neg().units() == 0);
}

proof fn lemma_lower_start(a: Double, b: Double, last: Double)
    requires
        a.finite(),
        b.finite(),
        last.finite(),
        a.le(b),
    ensures
        a.sub(last).le(b.sub(last)),
{
    let n = last.neg();
    assert(n.index() == last.index());
    number_laws::sum_keeps_order(a, b, n);
}

proof fn lemma_larger(x: Double, before: Double, fall: Double)
    ensures
        x.le(before) && !fall.nan() ==> x.le(before.max(fall)),
        x.le(fall) ==> x.le(before.max(fall)),
        before.max(fall) == before || before.max(fall) == fall,
{
}

proof fn lemma_last_fall(pnls: Seq<Double>, k: int) -> (p: int)
    requires
        0 < k <= pnls.len(),
        forall|i: int| 0 <= i <= pnls.len() ==> (#[trigger] stand(pnls, i)).finite(),
    ensures
        0 <= p <= k,
        ({
            let r = pnls.reverse();
            let fall = stand(pnls, p).sub(stand(pnls, k));
            &&& figures::course(r.take(k)).drawdown == figures::course(r.take(k - 1)).drawdown.max(
                fall,
            )
            &&& !fall.nan()
            &&& forall|i: int| 0 <= i <= k ==> (#[trigger] stand(pnls, i)).le(stand(pnls, p))
        }),
{
    let r = pnls.reverse();
    let p = lemma_peak(pnls, k);
    lemma_running(pnls, k);
    assert(r.take(k).drop_last() =~= r.take(k - 1));
    assert(stand(pnls, k).finite() && stand(pnls, p).finite());
    assert(stand(pnls, k).le(stand(pnls, p)));
    number_laws::difference_sign(stand(pnls, k), stand(pnls, p));
    p
}

proof fn lemma_no_deeper(pnls: Seq<Double>, k: int, i: int, j: int)
    requires
        0 <= i <= j <= k <= pnls.len(),
        forall|i: int| 0 <= i <= pnls.len() ==> (#[trigger] stand(pnls, i)).finite(),
    ensures
        stand(pnls, i).sub(stand(pnls, j)).le(figures::course(pnls.reverse().take(k)).drawdown),
    decreases k,
{
    if k == 0 {
        lemma_nothing_from_nothing();
        assert(pnls.reverse().take(0) =~= Seq::empty());
    } else {
        let r = pnls.reverse();
        let p = lemma_last_fall(pnls, k);
        let before = figures::course(r.take(k - 1)).drawdown;
        let fall = stand(pnls, p).sub(stand(pnls, k));
        let x = stand(pnls, i).sub(stand(pnls, j));
        lemma_larger(x, before, fall);
        if j < k {
            lemma_no_deeper(pnls, k - 1, i, j);
        } else {
            assert(stand(pnls, i).finite() && stand(pnls, p).finite() && stand(pnls, k).finite());
            lemma_lower_start(stand(pnls, i), stand(pnls, p), stand(pnls, k));
        }
    }
}

proof fn lemma_fall(pnls: Seq<Double>, k: int) -> (ab: (int, int))
    requires
        0 <= k <= pnls.len(),
        forall|i: int| 0 <= i <= pnls.len() ==> (#[trigger] stand(pnls, i)).finite(),
    ensures
        0 <= ab.0 <= ab.1 <= k,
        figures::course(pnls.reverse().take(k)).drawdown == stand(pnls, ab.0).sub(
            stand(pnls, ab.1),
        ),
    decreases k,
{
    if k == 0 {
        lemma_nothing_from_nothing();
        assert(pnls.reverse().take(0) =~= Seq::empty());
        (0, 0)
    } else {
        let r = pnls.reverse();
        let (a, b) = lemma_fall(pnls, k - 1);
        let p = lemma_last_fall(pnls, k);
        let before = figures::course(r.take(k - 1)).drawdown;
        let fall = stand(pnls, p).sub(stand(pnls, k));
        lemma_larger(fall, before, fall);
        if before.max(fall) == before {
            (a, b)
        } else {
            (p, k)
        }
    }
}

/// The drawdown is the deepest fall of the account through its results, oldest first: it is a
/// fall from some stand to a later one, the beginning included, and no fall is deeper.
pub proof fn the_drawdown_is_the_deepest_fall(pnls: Seq<Double>, equity: Double)
    requires
        forall|i: int| 0 <= i <= pnls.len() ==> (#[trigger] stand(pnls, i)).finite(),
    ensures
        ({
            let deepest = readiness::summary_of(pnls, equity).max_drawdown;
            &&& forall|i: int, j: int|
                0 <= i <= j <= pnls.len() ==> #[trigger] stand(pnls, i).sub(stand(pnls, j)).le(
                    deepest,
                )
            &&& exists|i: int, j: int|
                0 <= i <= j <= pnls.len() && deepest == #[trigger] stand(pnls, i).sub(
                    stand(pnls, j),
                )
        }),
{
    let n = pnls.len() as int;
    let (a, b) = lemma_fall(pnls, n);
    assert forall|i: int, j: int| 0 <= i <= j <= n implies #[trigger] stand(pnls, i).sub(
        stand(pnls, j),
    ).le(figures::course(pnls.reverse().take(n)).drawdown) by {
        lemma_no_deeper(pnls, n, i, j);
    }
    assert(pnls.reverse().take(pnls.len() as int) =~= pnls.reverse());
    assert(stand(pnls, a).sub(stand(pnls, b)) == readiness::summary_of(
        pnls,
        equity,
    ).max_drawdown);
}

/// The interval around a win rate is Wilson's for 1.96 standard deviations, cut off at nothing
/// and at everything, in percent.
pub proof fn the_interval_is_wilsons(pnls: Seq<Double>, equity: Double)
    ensures
        ({
            let m = readiness::summary_of(pnls, equity);
            let z = Double::ratio(196, 100);
            let n = Double::whole(pnls.len() as u64);
            let rate = Double::whole(figures::gains(pnls).len() as u64).div(n);
            let z2 = z.mul(z);
            let scale = Double::one().add(z2.div(n));
            let middle = rate.add(z2.div(Double::whole(2).mul(n))).div(scale);
            let inner = rate.mul(Double::one().sub(rate)).add(z2.div(Double::whole(4).mul(n))).div(
                n,
            );
            let half = z.mul(inner.sqrt()).div(scale);
            &&& pnls.len() as u64 > 0 && pnls.len() > 0 ==> {
                &&& m.win_rate_low == middle.sub(half).max(Double::zero()).mul(Double::whole(100))
                &&& m.win_rate_high == middle.add(half).min(Double::one()).mul(Double::whole(100))
            }
            &&& pnls.len() == 0 ==> m.win_rate_low == Double::zero().sub(Double::zero()).max(
                Double::zero(),
            ).mul(Double::whole(100))
        }),
{
}

} // verus!

//! Whether paper results would satisfy the conditions for anything more. Nothing here ever
//! enables live trading.
use vstd::prelude::*;
use crate::brain;
use crate::config::Settings;
use crate::double::Double;
use crate::figures;

verus! {

/// What a series of results comes to.
#[derive(Clone, Copy, Debug, PartialEq, Eq, Structural)]
pub struct Summary {
    pub trades: usize,
    pub win_rate: Double,
    pub win_rate_low: Double,
    pub win_rate_high: Double,
    pub expectancy: Double,
    pub profit_factor: Double,
    pub max_drawdown: Double,
    pub max_drawdown_pct: Double,
}

/// The middle and the half width of the Wilson interval for a win rate at 95 %.
pub open spec fn spec_wilson(win_rate: Double, count: u64) -> (Double, Double) {
    if count > 0 {
        let z = Double::ratio(196, 100);
        let n = Double::whole(count);
        let scale = Double::one().add(z.mul(z).div(n));
        let center = win_rate.add(z.mul(z).div(Double::whole(2).mul(n))).div(scale);
        let spread = win_rate.mul(Double::one().sub(win_rate)).add(
            z.mul(z).div(Double::whole(4).mul(n)),
        ).div(n);
        (center, z.mul(spread.sqrt()).div(scale))
    } else {
        (Double::zero(), Double::zero())
    }
}

#[verifier::when_used_as_spec(spec_wilson)]
pub fn wilson(win_rate: Double, count: u64) -> (r: (Double, Double))
    ensures
        r == spec_wilson(win_rate, count),
{
    if count > 0 {
        let z = Double::ratio(196, 100);
        let n = Double::whole(count);
        let scale = Double::one().add(z.mul(z).div(n));
        let center = win_rate.add(z.mul(z).div(Double::whole(2).mul(n))).div(scale);
        let spread = win_rate.mul(Double::one().sub(win_rate)).add(
            z.mul(z).div(Double::whole(4).mul(n)),
        ).div(n);
        (center, z.mul(spread.sqrt()).div(scale))
    } else {
        (Double::zero(), Double::zero())
    }
}

/// What is won for each unit lost; with gains and no losses the largest number, with
/// neither zero.
pub open spec fn profit_factor(gains: Seq<Double>, losses: Seq<Double>) -> Double {
    let lost = brain::sum(losses).abs();
    if lost.gt(Double::zero()) {
        brain::sum(gains).div(lost)
    } else if gains.len() > 0 {
        Double::largest()
    } else {
        Double::zero()
    }
}

/// A sum divided by a count, zero for none.
pub open spec fn mean(xs: Seq<Double>) -> Double {
    if xs.len() > 0 {
        brain::sum(xs).div(Double::whole(xs.len() as u64))
    } else {
        Double::zero()
    }
}

/// The mean of a list, zero for an empty one.
pub fn mean_of(xs: &Vec<Double>) -> (r: Double)
    ensures
        r == mean(xs@),
{
    if xs.len() > 0 {
        brain::sum_of(xs).div(Double::whole(xs.len() as u64))
    } else {
        Double::zero()
    }
}

/// What a series of results, newest first, comes to.
pub open spec fn summary_of(pnls: Seq<Double>, account_equity: Double) -> Summary {
    let hundred = Double::whole(100);
    let gains = figures::gains(pnls);
    let win_rate = if pnls.len() > 0 {
        Double::whole(gains.len() as u64).div(Double::whole(pnls.len() as u64))
    } else {
        Double::zero()
    };
    let (center, margin) = wilson(win_rate, pnls.len() as u64);
    let drawdown = figures::course(pnls.reverse()).drawdown;
    Summary {
        trades: pnls.len() as usize,
        win_rate: win_rate.mul(hundred),
        win_rate_low: center.sub(margin).max(Double::zero()).mul(hundred),
        win_rate_high: center.add(margin).min(Double::one()).mul(hundred),
        expectancy: mean(pnls),
        profit_factor: profit_factor(gains, figures::losses(pnls)),
        max_drawdown: drawdown,
        max_drawdown_pct: drawdown.div(account_equity),
    }
}

/// Sums up a series of results, newest first.
pub fn summarize(pnls: &Vec<Double>, settings: &Settings) -> (r: Summary)
    ensures
        r == summary_of(pnls@, settings.account_equity),
{
    let hundred = Double::whole(100);
    let count = pnls.len();
    let gains = figures::gains_of(pnls);
    let losses = figures::losses_of(pnls);
    let win_rate = if count > 0 {
        Double::whole(gains.len() as u64).div(Double::whole(count as u64))
    } else {
        Double::zero()
    };
    let (center, margin) = wilson(win_rate, count as u64);
    let drawdown = figures::course_back(pnls).drawdown;
    let lost = brain::sum_of(&losses).abs();
    let profit_factor = if lost.gt(Double::zero()) {
        brain::sum_of(&gains).div(lost)
    } else if gains.len() > 0 {
        Double::largest()
    } else {
        Double::zero()
    };
    Summary {
        trades: count,
        win_rate: win_rate.mul(hundred),
        win_rate_low: center.sub(margin).max(Double::zero()).mul(hundred),
        win_rate_high: center.add(margin).min(Double::one()).mul(hundred),
        expectancy: mean_of(pnls),
        profit_factor,
        max_drawdown: drawdown,
        max_drawdown_pct: drawdown.div(settings.account_equity),
    }
}

/// The conditions that paper results are held against.
#[derive(Clone, Copy, Debug, PartialEq, Eq, Structural)]
pub struct Checks {
    pub sample_size: bool,
    pub net_expectancy: bool,
    pub profit_factor: bool,
    pub drawdown: bool,
    pub data_quality: bool,
}

/// The verdict on paper results.
#[derive(Clone, Copy, Debug, PartialEq, Eq, Structural)]
pub struct Readiness {
    pub live_enabled: bool,
    pub checks: Checks,
    pub metrics: Summary,
    pub passed: bool,
}

/// A figure as a report shows it: one that is no finite number is missing there, and
/// something else stands for it.
pub open spec fn spec_shown_or(x: Double, missing: Double) -> Double {
    if x.finite() {
        x
    } else {
        missing
    }
}

#[verifier::when_used_as_spec(spec_shown_or)]
pub fn shown_or(x: Double, missing: Double) -> (r: Double)
    ensures
        r == spec_shown_or(x, missing),
{
    if x.is_finite() {
        x
    } else {
        missing
    }
}

/// The conditions that a summary meets.
pub open spec fn checks_of(summary: Summary, data_quality_errors: u64, s: Settings) -> Checks {
    Checks {
        sample_size: summary.trades >= s.min_live_trades,
        net_expectancy: shown_or(summary.expectancy, Double::zero()).gt(s.min_live_expectancy),
        profit_factor: shown_or(summary.profit_factor, Double::zero()).ge(
            s.min_live_profit_factor,
        ),
        drawdown: shown_or(summary.max_drawdown_pct, Double::one()).le(s.max_live_drawdown_pct),
        data_quality: data_quality_errors == 0,
    }
}

/// Every condition is met.
pub open spec fn all_met(checks: Checks) -> bool {
    checks.sample_size && checks.net_expectancy && checks.profit_factor && checks.drawdown
        && checks.data_quality
}

/// The verdict on paper results, newest first. Live trading is off whatever they are.
pub open spec fn readiness_of(pnls: Seq<Double>, data_quality_errors: u64, s: Settings) -> Readiness {
    let metrics = summary_of(pnls, s.account_equity);
    let checks = checks_of(metrics, data_quality_errors, s);
    Readiness { live_enabled: false, checks, metrics, passed: all_met(checks) }
}

/// Judges paper results, newest first.
pub fn live_readiness(pnls: &Vec<Double>, data_quality_errors: u64, settings: &Settings) -> (r:
    Readiness)
    ensures
        r == readiness_of(pnls@, data_quality_errors, *settings),
        !r.live_enabled,
        r.passed == all_met(r.checks),
{
    let metrics = summarize(pnls, settings);
    let checks = Checks {
        sample_size: metrics.trades >= settings.min_live_trades,
        net_expectancy: shown_or(metrics.expectancy, Double::zero()).gt(
            settings.min_live_expectancy,
        ),
        profit_factor: shown_or(metrics.profit_factor, Double::zero()).ge(
            settings.min_live_profit_factor,
        ),
        drawdown: shown_or(metrics.max_drawdown_pct, Double::one()).le(
            settings.max_live_drawdown_pct,
        ),
        data_quality: data_quality_errors == 0,
    };
    let passed = checks.sample_size && checks.net_expectancy && checks.profit_factor
        && checks.drawdown && checks.data_quality;
    Readiness { live_enabled: false, checks, metrics, passed }
}

impl Readiness {
    /// The status line of every verdict.
    pub fn status(&self) -> (r: &'static str)
        ensures
            r@ == "NOT READY FOR LIVE"@,
    {
        "NOT READY FOR LIVE"
    }

    /// The notice under every verdict.
    pub fn notice(&self) -> (r: &'static str)
        ensures
            r@ == "Paper/replay evidence is not a guarantee of future results."@,
    {
        "Paper/replay evidence is not a guarantee of future results."
    }
}

/// Nothing enables live trading: no results, however good, and no settings.
pub proof fn live_stays_disabled(pnls: Seq<Double>, data_quality_errors: u64, s: Settings)
    ensures
        !readiness_of(pnls, data_quality_errors, s).live_enabled,
{
}

/// Too few trades never pass, whatever their results.
pub proof fn small_samples_never_pass(pnls: Seq<Double>, data_quality_errors: u64, s: Settings)
    requires
        pnls.len() < s.min_live_trades,
    ensures
        !readiness_of(pnls, data_quality_errors, s).passed,
{
}

/// A single data error blocks the verdict.
pub proof fn data_errors_block_the_verdict(
    pnls: Seq<Double>,
    data_quality_errors: u64,
    s: Settings,
)
    requires
        data_quality_errors > 0,
    ensures
        !readiness_of(pnls, data_quality_errors, s).passed,
{
}

} // verus!

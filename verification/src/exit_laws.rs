//! What closes an open position, and what one look leaves of it.
use vstd::prelude::*;
use crate::brain::Metrics;
use crate::config::Settings;
use crate::double::Double;
use crate::models::{ExitReason, Position, Side, TradeResult};
use crate::trading;
use crate::trading::{ExitDetail, Notice};

verus! {

/// The price at which a position can be closed: a long sells at the bid, a short buys back at
/// the ask.
pub open spec fn way_out(side: Side, metrics: Metrics) -> Double {
    match side {
        Side::Long => metrics.bid,
        Side::Short => metrics.ask,
    }
}

/// A stop closes a long at or below it and a short at or above it, whatever else holds, and
/// nothing else is ever called a stop.
pub proof fn a_stop_closes_on_the_losing_side(
    settings: Settings,
    pos: Position,
    metrics: Metrics,
    now: Double,
)
    ensures
        ({
            let step = trading::manage_step(settings, pos, metrics, now);
            (step.closed is Some && (step.closed->0).reason == ExitReason::StructuralStop)
                <==> match pos.side {
                Side::Long => metrics.bid.le(pos.stop_price),
                Side::Short => pos.stop_price.le(metrics.ask),
            }
        }),
{
}

/// A target closes a long at or above it and a short at or below it, unless the stop does;
/// and nothing else is ever called a target.
pub proof fn a_target_closes_on_the_winning_side(
    settings: Settings,
    pos: Position,
    metrics: Metrics,
    now: Double,
)
    ensures
        ({
            let step = trading::manage_step(settings, pos, metrics, now);
            (step.closed is Some && (step.closed->0).reason == ExitReason::Target)
                <==> match pos.side {
                Side::Long => !metrics.bid.le(pos.stop_price) && pos.target_price.le(metrics.bid),
                Side::Short => !pos.stop_price.le(metrics.ask) && metrics.ask.le(pos.target_price),
            }
        }),
{
}

/// A position is closed for flow invalidation only while the tape accelerates against its
/// side, sells against a long and buys against a short, for at least the third look in a row
/// and at least three seconds after it was opened. A look without an opposing tape leaves a
/// kept position with a streak of zero, and one with an opposing tape counts one more.
pub proof fn flow_invalidates_only_against_the_side(
    settings: Settings,
    pos: Position,
    metrics: Metrics,
    now: Double,
)
    ensures
        ({
            let step = trading::manage_step(settings, pos, metrics, now);
            let against = match pos.side {
                Side::Long => metrics.tape.sell_accelerating,
                Side::Short => metrics.tape.buy_accelerating,
            };
            let streak = pos.reversal_streak.wrapping_add(1);
            &&& step.closed is Some && (step.closed->0).reason == ExitReason::FlowInvalidation
                ==> against && streak >= 3 && Double::whole(3).le(now.sub(pos.opened_at))
            &&& step.position is Some && !against ==> (step.position->0).reversal_streak == 0
            &&& step.position is Some && against ==> (step.position->0).reversal_streak == streak
                && (streak < 3 || !Double::whole(3).le(now.sub(pos.opened_at)))
        }),
{
}

/// A position that never was armed, and that is not far enough up, is not closed at
/// break-even; an armed one is, once at most twelve hundredths of the risk are left of its gain.
/// Arming needs a gain of as many times the risk as the settings ask for, and lasts.
pub proof fn break_even_needs_an_earlier_gain(
    settings: Settings,
    pos: Position,
    metrics: Metrics,
    now: Double,
)
    ensures
        ({
            let step = trading::manage_step(settings, pos, metrics, now);
            let out = way_out(pos.side, metrics);
            let moved = match pos.side {
                Side::Long => out.sub(pos.entry).mul(Double::one()),
                Side::Short => out.sub(pos.entry).mul(Double::one().neg()),
            };
            let r_now = if pos.risk_per_unit.gt(Double::zero()) {
                moved.div(pos.risk_per_unit)
            } else {
                Double::zero()
            };
            let armed = pos.breakeven_armed || settings.breakeven_arm_r.le(r_now);
            let decided = match pos.side {
                Side::Long => out.le(pos.stop_price) || pos.target_price.le(out),
                Side::Short => pos.stop_price.le(out) || out.le(pos.target_price),
            };
            &&& (step.closed is Some && (step.closed->0).reason == ExitReason::Breakeven) <==> (
            !decided && armed && r_now.le(Double::ratio(12, 100)))
            &&& step.position is Some ==> (step.position->0).breakeven_armed == armed
        }),
{
}

/// The trailing exit gives back no more than the settings allow of a gain that was large
/// enough: it closes exactly when the best gain, in multiples of the risk, has reached the
/// arming multiple and the present one is below the best by the allowance or more, and no
/// earlier rule closes.
pub proof fn a_gain_is_trailed_from_its_best(
    settings: Settings,
    pos: Position,
    metrics: Metrics,
    now: Double,
)
    ensures
        ({
            let step = trading::manage_step(settings, pos, metrics, now);
            let out = way_out(pos.side, metrics);
            let sign = match pos.side {
                Side::Long => Double::one(),
                Side::Short => Double::one().neg(),
            };
            let gross = if pos.entry.same(Double::zero()) {
                Double::zero()
            } else {
                out.sub(pos.entry).div(pos.entry).mul(sign)
            };
            let best = pos.peak_return.max(gross);
            let peak_r = best.mul(pos.entry).div(pos.risk_per_unit);
            let r_now = out.sub(pos.entry).mul(sign).div(pos.risk_per_unit);
            let trailing = pos.risk_per_unit.gt(Double::zero()) && settings.trail_arm_r.le(peak_r)
                && r_now.le(peak_r.sub(settings.trail_giveback_r));
            &&& step.closed is Some && (step.closed->0).reason == ExitReason::Trail ==> trailing
            &&& step.position is Some ==> !trailing && (step.position->0).peak_return == best && (
            step.position->0).trough_return == pos.trough_return.min(gross)
        }),
{
}

/// A kept position is marked at the price at which it could be closed now, and its open result
/// is what closing there would bring after both fees; its best and worst results so far are
/// never passed by the present one, and never move back.
pub proof fn a_kept_position_is_marked_to_its_way_out(
    settings: Settings,
    pos: Position,
    metrics: Metrics,
    now: Double,
)
    requires
        trading::manage_step(settings, pos, metrics, now).position is Some,
    ensures
        ({
            let kept = trading::manage_step(settings, pos, metrics, now).position->0;
            let out = way_out(pos.side, metrics);
            let sign = match pos.side {
                Side::Long => Double::one(),
                Side::Short => Double::one().neg(),
            };
            let gross = out.sub(pos.entry).mul(pos.quantity).mul(sign);
            &&& kept.mark == out
            &&& kept.unrealized == gross.sub(pos.entry_fee).sub(
                out.mul(pos.quantity).mul(settings.taker_fee_pct),
            )
            &&& !kept.mfe.lt(kept.unrealized)
            &&& !kept.unrealized.lt(kept.mae)
            &&& !kept.mfe.lt(pos.mfe)
            &&& !pos.mae.lt(kept.mae)
            &&& kept.mfe == pos.mfe || kept.mfe == kept.unrealized
            &&& kept.mae == pos.mae || kept.mae == kept.unrealized
            &&& kept.side == pos.side && kept.entry == pos.entry && kept.quantity == pos.quantity
            &&& kept.stop_price == pos.stop_price && kept.target_price == pos.target_price
            &&& kept.risk_per_unit == pos.risk_per_unit && kept.entry_fee == pos.entry_fee
            &&& kept.entry_slippage_cost == pos.entry_slippage_cost
            &&& kept.signal_snapshot == pos.signal_snapshot && kept.opened_at == pos.opened_at
        }),
{
}

/// A result holds what was really paid and got: the exit is at the way out worsened by the
/// slippage, the gross result is the move in the direction of the side, the net result is the
/// gross one less both fees, and the position's best and worst go with it.
pub proof fn a_result_is_what_closing_brings(
    settings: Settings,
    pos: Position,
    metrics: Metrics,
    now: Double,
)
    requires
        trading::manage_step(settings, pos, metrics, now).closed is Some,
    ensures
        ({
            let r = trading::manage_step(settings, pos, metrics, now).closed->0;
            let out = way_out(pos.side, metrics);
            let one = Double::one();
            let s = settings.slippage_pct;
            let exit = match pos.side {
                Side::Long => out.mul(one.sub(one.mul(s))),
                Side::Short => out.mul(one.sub(one.neg().mul(s))),
            };
            let sign = match pos.side {
                Side::Long => one,
                Side::Short => one.neg(),
            };
            let fee = exit.mul(pos.quantity).mul(settings.taker_fee_pct);
            &&& r.exit == exit
            &&& r.gross_pnl == exit.sub(pos.entry).mul(pos.quantity).mul(sign)
            &&& r.fees == pos.entry_fee.add(fee)
            &&& r.pnl == r.gross_pnl.sub(pos.entry_fee).sub(fee)
            &&& r.slippage_cost == pos.entry_slippage_cost.add(
                exit.sub(out).abs().mul(pos.quantity),
            )
            &&& r.side == pos.side && r.entry == pos.entry
            &&& r.opened_at == pos.opened_at && r.closed_at == now
            &&& !r.mfe.lt(pos.mfe) && !pos.mae.lt(r.mae)
            &&& r.signal_snapshot == pos.signal_snapshot
            &&& r.exit_snapshot.bid == metrics.bid && r.exit_snapshot.ask == metrics.ask
            &&& r.exit_snapshot.imbalance == metrics.imbalance
            &&& r.exit_snapshot.flow == metrics.flow
        }),
{
}

/// A loss keeps its symbol out for the longer of two waits, counted from the close.
pub proof fn losses_wait_longer(settings: Settings, result: TradeResult)
    ensures
        result.pnl.lt(Double::zero()) ==> trading::cooldown_end(settings, result)
            == result.closed_at.add(settings.loss_cooldown_seconds),
        !result.pnl.lt(Double::zero()) ==> trading::cooldown_end(settings, result)
            == result.closed_at.add(settings.cooldown_seconds),
{
}

/// What is said of a look at a position: each close is said, with its detail; the state of a
/// kept position is said exactly every five seconds, and only then does the clock of that
/// start anew.
pub proof fn closes_and_states_are_said(
    settings: Settings,
    pos: Position,
    metrics: Metrics,
    now: Double,
)
    ensures
        ({
            let step = trading::manage_step(settings, pos, metrics, now);
            let due = Double::whole(5).le(now.sub(pos.last_status_log));
            &&& step.closed is Some ==> match step.notice {
                Some(Notice::Exit { result, detail }) => result == step.closed->0
                    && match result.reason {
                    ExitReason::StructuralStop => detail == ExitDetail::Nothing,
                    ExitReason::Breakeven => detail == ExitDetail::Nothing,
                    ExitReason::Target => detail == (ExitDetail::Target {
                        multiple: settings.alternative_target_r_multiple,
                    }),
                    ExitReason::FlowInvalidation => detail == (ExitDetail::Reversal {
                        ticks: pos.reversal_streak.wrapping_add(1),
                    }),
                    ExitReason::Trail => detail is Trail,
                },
                _ => false,
            }
            &&& step.position is Some && due ==> {
                let kept = step.position->0;
                &&& kept.last_status_log == now
                &&& match step.notice {
                    Some(Notice::Status(s)) => {
                        &&& s.side == pos.side
                        &&& s.held == now.sub(pos.opened_at)
                        &&& s.mid == metrics.mid
                        &&& s.unrealized == kept.unrealized
                        &&& s.stop_price == pos.stop_price
                        &&& s.imbalance == metrics.imbalance
                        &&& s.spread == metrics.spread
                        &&& s.breakeven_armed == kept.breakeven_armed
                        &&& s.peak_pct == kept.peak_return.mul(Double::whole(100))
                        &&& pos.side == Side::Long ==> s.flow_pct
                            == metrics.tape.buy_dominance.mul(Double::whole(100))
                        &&& pos.side == Side::Short ==> s.flow_pct
                            == metrics.tape.sell_dominance.mul(Double::whole(100))
                    },
                    _ => false,
                }
            }
            &&& step.position is Some && !due ==> step.notice is None && (
            step.position->0).last_status_log == pos.last_status_log
        }),
{
}

/// Rules are looked at in one order, and the first that holds closes the position under its own
/// name: stop, target, break-even, an opposing tape, the trailing exit. Where none holds the
/// position is kept.
#[verifier::spinoff_prover]
pub proof fn the_first_rule_that_holds_closes(
    settings: Settings,
    pos: Position,
    metrics: Metrics,
    now: Double,
)
    ensures
        ({
            let step = trading::manage_step(settings, pos, metrics, now);
            let zero = Double::zero();
            let out = way_out(pos.side, metrics);
            let sign = match pos.side {
                Side::Long => Double::one(),
                Side::Short => Double::one().neg(),
            };
            let stop = match pos.side {
                Side::Long => out.le(pos.stop_price),
                Side::Short => pos.stop_price.le(out),
            };
            let target = match pos.side {
                Side::Long => pos.target_price.le(out),
                Side::Short => out.le(pos.target_price),
            };
            let risky = zero.lt(pos.risk_per_unit);
            let r_now = if risky {
                out.sub(pos.entry).mul(sign).div(pos.risk_per_unit)
            } else {
                zero
            };
            let even = (pos.breakeven_armed || settings.breakeven_arm_r.le(r_now)) && r_now.le(
                Double::ratio(12, 100),
            );
            let against = match pos.side {
                Side::Long => metrics.tape.sell_accelerating,
                Side::Short => metrics.tape.buy_accelerating,
            };
            let opposed = against && pos.reversal_streak.wrapping_add(1) >= 3 && Double::whole(
                3,
            ).le(now.sub(pos.opened_at));
            let gross = if pos.entry.same(zero) {
                zero
            } else {
                out.sub(pos.entry).div(pos.entry).mul(sign)
            };
            let peak_r = pos.peak_return.max(gross).mul(pos.entry).div(pos.risk_per_unit);
            let trailed = risky && settings.trail_arm_r.le(peak_r) && r_now.le(
                peak_r.sub(settings.trail_giveback_r),
            );
            let reason = if stop {
                Some(ExitReason::StructuralStop)
            } else if target {
                Some(ExitReason::Target)
            } else if even {
                Some(ExitReason::Breakeven)
            } else if opposed {
                Some(ExitReason::FlowInvalidation)
            } else if trailed {
                Some(ExitReason::Trail)
            } else {
                None
            };
            match reason {
                Some(why) => step.position is None && step.closed is Some && (
                step.closed->0).reason == why,
                None => step.position is Some && step.closed is None,
            }
        }),
{
}

/// The best and worst open results that go with a result count the look that closed it.
#[verifier::spinoff_prover]
pub proof fn a_result_keeps_the_best_and_the_worst(
    settings: Settings,
    pos: Position,
    metrics: Metrics,
    now: Double,
)
    requires
        trading::manage_step(settings, pos, metrics, now).closed is Some,
    ensures
        ({
            let r = trading::manage_step(settings, pos, metrics, now).closed->0;
            let out = way_out(pos.side, metrics);
            let sign = match pos.side {
                Side::Long => Double::one(),
                Side::Short => Double::one().neg(),
            };
            let open = out.sub(pos.entry).mul(pos.quantity).mul(sign).sub(pos.entry_fee).sub(
                out.mul(pos.quantity).mul(settings.taker_fee_pct),
            );
            &&& r.mfe == pos.mfe.max(open)
            &&& r.mae == pos.mae.min(open)
        }),
{
}

/// What is said of a gain is the gain: the present one in multiples of the risk and in percent of
/// the entry, and for the trailing exit the best one too.
#[verifier::spinoff_prover]
pub proof fn a_gain_is_said_as_it_is(
    settings: Settings,
    pos: Position,
    metrics: Metrics,
    now: Double,
)
    ensures
        ({
            let step = trading::manage_step(settings, pos, metrics, now);
            let out = way_out(pos.side, metrics);
            let sign = match pos.side {
                Side::Long => Double::one(),
                Side::Short => Double::one().neg(),
            };
            let gross = if pos.entry.same(Double::zero()) {
                Double::zero()
            } else {
                out.sub(pos.entry).div(pos.entry).mul(sign)
            };
            let r_now = if Double::zero().lt(pos.risk_per_unit) {
                out.sub(pos.entry).mul(sign).div(pos.risk_per_unit)
            } else {
                Double::zero()
            };
            match step.notice {
                Some(Notice::Status(s)) => s.return_pct == gross.mul(Double::whole(100))
                    && s.r_now == r_now,
                Some(Notice::Exit { detail: ExitDetail::Trail { peak_r, now_r }, .. }) => peak_r
                    == pos.peak_return.max(gross).mul(pos.entry).div(pos.risk_per_unit) && now_r
                    == r_now,
                _ => true,
            }
        }),
{
}

} // verus!

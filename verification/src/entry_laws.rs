//! What has to hold before a position is opened, and what the position then is.
use vstd::prelude::*;
use crate::brain::{BtcTrend, Metrics};
use crate::config::Settings;
use crate::double::Double;
use crate::execution;
use crate::models::{Absorption, ExitReason, PendingSignal, Side, TradeResult};
use crate::number_laws;
use crate::trading;
use crate::trading::{Account, EntryPath, Notice, Reason};

verus! {

/// The stop shares of the settings are shares, in order.
pub open spec fn sane_stops(settings: Settings) -> bool {
    &&& settings.alternative_min_stop_pct.finite()
    &&& settings.alternative_max_stop_pct.finite()
    &&& Double::zero().le(settings.alternative_min_stop_pct)
    &&& settings.alternative_min_stop_pct.le(settings.alternative_max_stop_pct)
    &&& settings.alternative_max_stop_pct.le(Double::one())
}

proof fn lemma_turned_difference(a: Double, b: Double, c: Double)
    requires
        a.finite(),
        b.finite(),
        c.finite(),
        a.le(b),
    ensures
        c.sub(b).le(c.sub(a)),
{
    let na = a.neg();
    let nb = b.neg();
    assert(na.index() == a.index() && nb.index() == b.index());
    number_laws::sum_keeps_order(nb, na, c);
    number_laws::sums_commute(nb, c);
    number_laws::sums_commute(na, c);
}

proof fn lemma_share_factors(share: Double, least: Double, most: Double)
    requires
        least.finite(),
        most.finite(),
        share.finite(),
        Double::zero().le(least),
        least.le(share),
        share.le(most),
        most.le(Double::one()),
    ensures
        ({
            let one = Double::one();
            &&& one.sub(share).finite() && one.add(share).finite()
            &&& one.sub(least).finite() && one.add(least).finite()
            &&& one.sub(most).finite() && one.add(most).finite()
            &&& Double::zero().le(one.sub(most))
            &&& one.sub(most).le(one.sub(share))
            &&& one.sub(share).le(one.sub(least))
            &&& one.sub(least).le(one)
            &&& one.le(one.add(least))
            &&& one.add(least).le(one.add(share))
            &&& one.add(share).le(one.add(most))
        }),
{
    let one = Double::one();
    lemma_turned_difference(share, most, one);
    lemma_turned_difference(least, share, one);
    number_laws::difference_with_non_negative(one, least);
    number_laws::difference_sign(most, one);
    number_laws::sum_with_non_negative(one, least);
    number_laws::sum_keeps_order(least, share, one);
    number_laws::sum_keeps_order(share, most, one);
    number_laws::sum_keeps_order(most, one, one);
    number_laws::sums_commute(one, least);
    number_laws::sums_commute(one, share);
    number_laws::sums_commute(one, most);
    number_laws::one_and_one();
}

/// The stop of an entry lies on the losing side of the wall, below it for a long and above it
/// for a short, away from it by no less than the smallest and no more than the largest share
/// that the settings allow.
pub proof fn a_stop_lies_on_the_losing_side_of_the_wall(
    settings: Settings,
    side: Side,
    metrics: Metrics,
    wall: Double,
)
    requires
        sane_stops(settings),
        wall.finite(),
        Double::zero().le(wall),
    ensures
        ({
            let stop = trading::plan_of(settings, side, metrics, wall).stop;
            let one = Double::one();
            let least = settings.alternative_min_stop_pct;
            let most = settings.alternative_max_stop_pct;
            &&& side == Side::Long ==> stop.le(wall) && stop.le(wall.mul(one.sub(least)))
                && wall.mul(one.sub(most)).le(stop)
            &&& side == Side::Short ==> wall.le(stop) && wall.mul(one.add(least)).le(stop)
                && stop.le(wall.mul(one.add(most)))
        }),
{
    let one = Double::one();
    let least = settings.alternative_min_stop_pct;
    let most = settings.alternative_max_stop_pct;
    let share = trading::stop_share(settings, metrics.spread);
    lemma_share_factors(share, least, most);
    number_laws::products_commute(wall, one.sub(share));
    number_laws::products_commute(wall, one.sub(least));
    number_laws::products_commute(wall, one.sub(most));
    number_laws::products_commute(wall, one.add(share));
    number_laws::products_commute(wall, one.add(least));
    number_laws::products_commute(wall, one.add(most));
    number_laws::product_keeps_order(one.sub(share), one.sub(least), wall);
    number_laws::product_keeps_order(one.sub(most), one.sub(share), wall);
    number_laws::product_keeps_order(one.add(least), one.add(share), wall);
    number_laws::product_keeps_order(one.add(share), one.add(most), wall);
    number_laws::product_with_at_most_one(wall, one.sub(share));
    number_laws::product_with_at_least_one(wall, one.add(share));
}

/// A wider spread never brings the stop nearer to the wall.
pub proof fn a_wider_spread_never_tightens_the_stop(
    settings: Settings,
    narrow: Metrics,
    wide: Metrics,
    wall: Double,
    side: Side,
)
    requires
        sane_stops(settings),
        wall.finite(),
        Double::zero().le(wall),
        settings.alternative_structure_buffer_pct.finite(),
        narrow.spread.finite(),
        wide.spread.finite(),
        Double::zero().le(narrow.spread),
        narrow.spread.le(wide.spread),
        wide.spread.div(Double::whole(100)).mul(Double::whole(2)).finite(),
    ensures
        ({
            let near = trading::plan_of(settings, side, narrow, wall).stop;
            let far = trading::plan_of(settings, side, wide, wall).stop;
            &&& side == Side::Long ==> far.le(near)
            &&& side == Side::Short ==> near.le(far)
        }),
{
    let one = Double::one();
    let hundred = Double::whole(100);
    let two = Double::whole(2);
    number_laws::whole_numbers_are_at_least_one(100);
    number_laws::whole_numbers_are_at_least_one(2);
    number_laws::quotient_keeps_order(narrow.spread, wide.spread, hundred);
    number_laws::quotient_by_at_least_one(narrow.spread, hundred);
    number_laws::quotient_by_at_least_one(wide.spread, hundred);
    number_laws::product_keeps_order(narrow.spread.div(hundred), wide.spread.div(hundred), two);
    let x = narrow.spread.div(hundred).mul(two);
    let y = wide.spread.div(hundred).mul(two);
    number_laws::product_sign(narrow.spread.div(hundred), two);
    assert(x.finite());
    let b = settings.alternative_structure_buffer_pct;
    number_laws::sum_keeps_order(x, y, b);
    number_laws::sums_commute(x, b);
    number_laws::sums_commute(y, b);
    let s = trading::stop_share(settings, narrow.spread);
    let t = trading::stop_share(settings, wide.spread);
    assert(s.le(t));
    let least = settings.alternative_min_stop_pct;
    let most = settings.alternative_max_stop_pct;
    lemma_share_factors(s, least, most);
    lemma_share_factors(t, least, most);
    lemma_turned_difference(s, t, one);
    number_laws::sum_keeps_order(s, t, one);
    number_laws::sums_commute(s, one);
    number_laws::sums_commute(t, one);
    number_laws::products_commute(wall, one.sub(s));
    number_laws::products_commute(wall, one.sub(t));
    number_laws::products_commute(wall, one.add(s));
    number_laws::products_commute(wall, one.add(t));
    number_laws::product_keeps_order(one.sub(t), one.sub(s), wall);
    number_laws::product_keeps_order(one.add(s), one.add(t), wall);
}

/// What is planned for an entry: it is taken at the touch of its side; the risk is the
/// distance from there to the stop, which lies a share of the wall beyond the wall; the target
/// is as many risks away as the settings say, on the winning side; and the ratio of reward to
/// risk counts the cost against both.
pub proof fn a_plan_measures_from_the_touch(
    settings: Settings,
    side: Side,
    metrics: Metrics,
    wall: Double,
)
    ensures
        ({
            let plan = trading::plan_of(settings, side, metrics, wall);
            let one = Double::one();
            let touch = match side {
                Side::Long => metrics.ask,
                Side::Short => metrics.bid,
            };
            let away = plan.risk.mul(settings.alternative_target_r_multiple);
            let share = settings.alternative_min_stop_pct.max(
                settings.alternative_max_stop_pct.min(
                    settings.alternative_structure_buffer_pct.add(
                        metrics.spread.div(Double::whole(100)).mul(Double::whole(2)),
                    ),
                ),
            );
            &&& plan.touch == touch
            &&& plan.cost_pct == execution::round_trip_cost(settings, metrics.bid, metrics.ask)
            &&& plan.risk == touch.sub(plan.stop).abs()
            &&& plan.stop == match side {
                Side::Long => wall.mul(one.sub(share)),
                Side::Short => wall.mul(one.add(share)),
            }
            &&& side == Side::Long && away.finite() ==> plan.target == touch.add(away)
            &&& side == Side::Short && away.finite() ==> plan.target == touch.sub(away)
            &&& plan.net_reward == plan.target.sub(touch).abs().div(touch).sub(plan.cost_pct)
            &&& plan.risk.div(touch).add(plan.cost_pct).gt(Double::zero()) ==> plan.net_rr
                == plan.net_reward.div(plan.risk.div(touch).add(plan.cost_pct))
            &&& !plan.risk.div(touch).add(plan.cost_pct).gt(Double::zero()) ==> plan.net_rr
                == Double::zero()
        }),
{
    let plan = trading::plan_of(settings, side, metrics, wall);
    let away = plan.risk.mul(settings.alternative_target_r_multiple);
    if away.finite() {
        number_laws::product_with_one(away);
        number_laws::product_with_minus_one(away);
    }
}

proof fn lemma_away(touch: Double, risk: Double, r: Double)
    requires
        touch.finite(),
        risk.finite(),
        !risk.negative(),
        r.finite(),
        Double::zero().le(r),
        risk.mul(r).finite(),
    ensures
        touch.le(touch.add(risk.mul(r))),
        touch.sub(risk.mul(r)).le(touch),
{
    number_laws::product_sign(risk, r);
    number_laws::sum_with_non_negative(touch, risk.mul(r));
    number_laws::difference_with_non_negative(touch, risk.mul(r));
}

proof fn lemma_abs(x: Double)
    ensures
        !x.abs().negative(),
{
}

/// The target of an entry lies on the winning side of the touch, above it for a long and below
/// it for a short.
pub proof fn a_target_lies_on_the_winning_side(
    settings: Settings,
    side: Side,
    metrics: Metrics,
    wall: Double,
)
    requires
        ({
            let plan = trading::plan_of(settings, side, metrics, wall);
            &&& plan.touch.finite() && plan.risk.finite()
            &&& settings.alternative_target_r_multiple.finite()
            &&& Double::zero().le(settings.alternative_target_r_multiple)
            &&& plan.risk.mul(settings.alternative_target_r_multiple).finite()
        }),
    ensures
        side == Side::Long ==> metrics.ask.le(
            trading::plan_of(settings, side, metrics, wall).target,
        ),
        side == Side::Short ==> trading::plan_of(settings, side, metrics, wall).target.le(
            metrics.bid,
        ),
{
    let plan = trading::plan_of(settings, side, metrics, wall);
    a_plan_measures_from_the_touch(settings, side, metrics, wall);
    lemma_abs(plan.touch.sub(plan.stop));
    lemma_away(plan.touch, plan.risk, settings.alternative_target_r_multiple);
}

/// A position that was just opened is not already at its stop: a look at the unchanged quote
/// never closes it for that, if the quote is on the winning side of the wall and the smallest
/// stop share moves the wall's price at all.
pub proof fn a_new_position_is_not_at_its_stop(
    settings: Settings,
    account: Account,
    pending: Option<PendingSignal>,
    side: Side,
    now: Double,
    metrics: Metrics,
    absorption: Absorption,
    btc_allowed: bool,
    trend: BtcTrend,
    sequence: i64,
    later: Double,
)
    requires
        sane_stops(settings),
        absorption.price.finite(),
        Double::zero().le(absorption.price),
        side == Side::Long ==> absorption.price.le(metrics.bid),
        side == Side::Short ==> metrics.ask.le(absorption.price),
        absorption.price.mul(Double::one().sub(settings.alternative_min_stop_pct)).lt(
            absorption.price,
        ),
        absorption.price.lt(
            absorption.price.mul(Double::one().add(settings.alternative_min_stop_pct)),
        ),
        trading::entry_step(
            settings,
            account,
            pending,
            side,
            now,
            metrics,
            absorption,
            btc_allowed,
            trend,
            sequence,
        ).position is Some,
    ensures
        ({
            let pos = trading::entry_step(
                settings,
                account,
                pending,
                side,
                now,
                metrics,
                absorption,
                btc_allowed,
                trend,
                sequence,
            ).position->0;
            let step = trading::manage_step(settings, pos, metrics, later);
            !(step.closed is Some && (step.closed->0).reason == ExitReason::StructuralStop)
        }),
{
    a_stop_lies_on_the_losing_side_of_the_wall(settings, side, metrics, absorption.price);
}

/// What a new position is: opened at the touch of its side worsened by the slippage, with the
/// planned stop and target, the risk from the fill to the stop, a fee on the fill, and a
/// quantity that either loses the risk budget at the stop or fills the largest notional,
/// whichever is less. It starts without any result.
pub proof fn a_new_position_follows_its_plan(
    settings: Settings,
    account: Account,
    pending: Option<PendingSignal>,
    side: Side,
    now: Double,
    metrics: Metrics,
    absorption: Absorption,
    btc_allowed: bool,
    trend: BtcTrend,
    sequence: i64,
)
    requires
        trading::entry_step(
            settings,
            account,
            pending,
            side,
            now,
            metrics,
            absorption,
            btc_allowed,
            trend,
            sequence,
        ).position is Some,
    ensures
        ({
            let step = trading::entry_step(
                settings,
                account,
                pending,
                side,
                now,
                metrics,
                absorption,
                btc_allowed,
                trend,
                sequence,
            );
            let pos = step.position->0;
            let plan = trading::plan_of(settings, side, metrics, absorption.price);
            let one = Double::one();
            let s = settings.slippage_pct;
            let (touch, entry) = match side {
                Side::Long => (metrics.ask, metrics.ask.mul(one.add(one.mul(s)))),
                Side::Short => (metrics.bid, metrics.bid.mul(one.add(one.neg().mul(s)))),
            };
            let by_risk = settings.account_equity.mul(settings.risk_per_trade_pct).div(
                touch.sub(plan.stop).abs(),
            );
            let by_size = settings.max_position_notional.div(touch);
            &&& pos.side == side
            &&& pos.entry == entry
            &&& pos.stop_price == plan.stop
            &&& pos.target_price == plan.target
            &&& pos.risk_per_unit == entry.sub(plan.stop).abs()
            &&& pos.quantity == by_risk || pos.quantity == by_size
            &&& !by_risk.lt(pos.quantity) && !by_size.lt(pos.quantity)
            &&& pos.entry_fee == entry.mul(pos.quantity).mul(settings.taker_fee_pct)
            &&& pos.entry_slippage_cost == entry.sub(touch).abs().mul(pos.quantity)
            &&& pos.mark == metrics.bid.add(metrics.ask).div(Double::whole(2))
            &&& pos.opened_at == now && pos.last_status_log == now
            &&& pos.unrealized == Double::zero() && pos.mfe == Double::zero() && pos.mae
                == Double::zero()
            &&& pos.peak_return == Double::zero() && pos.trough_return == Double::zero()
            &&& !pos.breakeven_armed && pos.reversal_streak == 0
            &&& pos.signal_snapshot.wall == absorption.price
            &&& pos.signal_snapshot.score == step.score
            &&& pos.signal_snapshot.imbalance == metrics.imbalance
            &&& pos.signal_snapshot.flow == metrics.flow
            &&& pos.signal_snapshot.btc_trend == trend.direction
            &&& pos.signal_snapshot.spread_pct == metrics.spread
            &&& pos.signal_snapshot.cost_pct == plan.cost_pct
            &&& pos.signal_snapshot.net_rr == plan.net_rr
            &&& pos.signal_snapshot.sequence == sequence
        }),
{
}

/// The confluence score of a candidate, counted from what speaks for it.
pub open spec fn counted(
    settings: Settings,
    side: Side,
    metrics: Metrics,
    absorption: Absorption,
    btc_allowed: bool,
) -> int {
    let book = match side {
        Side::Long => Double::ratio(55, 100).le(metrics.imbalance),
        Side::Short => metrics.imbalance.le(Double::ratio(45, 100)),
    };
    let tape = match side {
        Side::Long => metrics.tape.buy_accelerating,
        Side::Short => metrics.tape.sell_accelerating,
    };
    (if book {
        25int
    } else {
        0
    }) + (if btc_allowed {
        20int
    } else {
        0
    }) + (if tape {
        20int
    } else {
        0
    }) + (if Double::ratio(95, 100).le(absorption.matched_ratio) {
        15int
    } else {
        0
    }) + (if metrics.spread.le(settings.max_spread_pct.mul(Double::ratio(65, 100))) {
        10int
    } else {
        0
    }) + (if metrics.freshness.le(Double::one()) {
        10int
    } else {
        0
    })
}

/// Which way a look at a candidate goes, and what it leaves behind. Breakers come first: too
/// many positions, too much lost in a day, too many losses in a row. Then too low a score.
/// A candidate that was not waiting on the same side starts to wait; one that waited too long
/// is given up. A waiting one breaks out once the quote is through the wall by two hundredths
/// of a percent, below it for a short and above it for a long, and stays broken; from then on
/// looks with the quote back at the wall are counted in a row, and a look away from it starts
/// the count anew. Only with enough of them is the entry decided, and then it no longer waits:
/// it is rejected if it does not pay after costs, and opened otherwise, unless the stop is no
/// distance away.
pub proof fn the_way_of_a_candidate(
    settings: Settings,
    account: Account,
    pending: Option<PendingSignal>,
    side: Side,
    now: Double,
    metrics: Metrics,
    absorption: Absorption,
    btc_allowed: bool,
    trend: BtcTrend,
    sequence: i64,
)
    ensures
        ({
            let step = trading::entry_step(
                settings,
                account,
                pending,
                side,
                now,
                metrics,
                absorption,
                btc_allowed,
                trend,
                sequence,
            );
            let one = Double::one();
            let wall = absorption.price;
            let score = counted(settings, side, metrics, absorption, btc_allowed);
            let full = account.open_positions >= settings.max_open_positions;
            let bled = account.daily_pnl.le(
                settings.account_equity.neg().mul(settings.max_daily_loss_pct),
            );
            let barred = full || bled || account.losing_streak;
            let weak = score < settings.alternative_min_confluence_score;
            let fresh = pending is None || (pending->0).side != side;
            let old = now.sub((pending->0).created).gt(settings.alternative_signal_expiry_seconds);
            let through = match side {
                Side::Long => wall.mul(one.add(Double::ratio(2, 10_000))).lt(metrics.bid),
                Side::Short => metrics.ask.lt(wall.mul(one.sub(Double::ratio(2, 10_000)))),
            };
            let near = wall.mul(settings.alternative_retest_tolerance_pct);
            let back = match side {
                Side::Long => wall.sub(near).le(metrics.bid) && metrics.bid.le(
                    wall.add(near.mul(Double::whole(2))),
                ),
                Side::Short => metrics.ask.le(wall.add(near)) && wall.sub(
                    near.mul(Double::whole(2)),
                ).le(metrics.ask),
            };
            let broken = (pending->0).broken || through;
            let ticks = if !broken {
                (pending->0).hold_ticks
            } else if back {
                (pending->0).hold_ticks.wrapping_add(1)
            } else {
                0
            };
            let waits = !broken || ticks < settings.alternative_retest_hold_ticks;
            let plan = trading::plan_of(settings, side, metrics, wall);
            let costly = plan.net_reward.le(Double::zero()) || plan.net_rr.lt(
                settings.alternative_min_net_reward_risk,
            );
            let flat = plan.touch.sub(plan.stop).abs().le(Double::zero());
            if barred {
                &&& step.pending == pending && step.position is None && step.setup is None
                &&& step.notice == Some(
                    Notice::Rejected(
                        if full {
                            Reason::PositionLimit
                        } else if bled {
                            Reason::DailyLoss
                        } else {
                            Reason::LossStreak
                        },
                    ),
                )
            } else if weak {
                &&& step.pending == pending && step.position is None && step.setup is None
                &&& step.score == score
                &&& step.notice == Some(
                    Notice::Rejected(
                        Reason::Confluence {
                            score: score as i64,
                            needed: settings.alternative_min_confluence_score,
                        },
                    ),
                )
            } else if fresh {
                &&& step.position is None && step.setup is None && step.score == score
                &&& step.pending == Some(
                    PendingSignal {
                        side,
                        wall,
                        created: now,
                        broken: false,
                        hold_ticks: 0,
                        score: score as i64,
                        absorption,
                    },
                )
                &&& step.notice == Some(Notice::Setup { side, score: score as i64 })
            } else if old {
                &&& step.position is None && step.setup is None && step.pending is None
                &&& step.notice == Some(Notice::Rejected(Reason::Expired))
            } else if waits {
                &&& step.position is None && step.setup is None && step.notice is None
                &&& step.pending == Some(
                    PendingSignal { broken, hold_ticks: ticks, ..pending->0 },
                )
                &&& step.path == (EntryPath::Waiting {
                    newly_broken: through && !(pending->0).broken,
                })
            } else {
                &&& step.pending is None && step.setup is Some && step.score == score
                &&& (step.setup->0).rejected == costly
                &&& costly ==> step.position is None && step.notice == Some(
                    Notice::Rejected(Reason::RewardRisk { net_rr: plan.net_rr }),
                )
                &&& !costly && flat ==> step.position is None && step.notice is None
                &&& !costly && !flat ==> step.position is Some && step.notice == Some(
                    Notice::Entry {
                        side,
                        price: (step.position->0).entry,
                        stop: plan.stop,
                        target: plan.target,
                        risk: settings.account_equity.mul(settings.risk_per_trade_pct),
                        score: score as i64,
                        net_rr: plan.net_rr,
                    },
                )
            }
        }),
{
}

/// What is kept of a decided setup is what was looked at: its side and moment, the wall with what
/// was left and executed of it, the prices of the plan and their distances in percent of the
/// entry, what they pay before and after costs against what is asked for, and the acceleration of
/// the tape on its own side.
#[verifier::spinoff_prover]
pub proof fn an_analysis_keeps_what_was_looked_at(
    settings: Settings,
    account: Account,
    pending: Option<PendingSignal>,
    side: Side,
    now: Double,
    metrics: Metrics,
    absorption: Absorption,
    btc_allowed: bool,
    trend: BtcTrend,
    sequence: i64,
)
    requires
        trading::entry_step(
            settings,
            account,
            pending,
            side,
            now,
            metrics,
            absorption,
            btc_allowed,
            trend,
            sequence,
        ).setup is Some,
    ensures
        ({
            let step = trading::entry_step(
                settings,
                account,
                pending,
                side,
                now,
                metrics,
                absorption,
                btc_allowed,
                trend,
                sequence,
            );
            let a = step.setup->0;
            let plan = trading::plan_of(settings, side, metrics, absorption.price);
            let tape = metrics.tape;
            &&& a.side == side
            &&& a.timestamp == now
            &&& a.wall == absorption.price
            &&& a.entry == plan.touch
            &&& a.retest_price == plan.touch
            &&& a.stop == plan.stop
            &&& a.target == plan.target
            &&& a.net_rr == plan.net_rr
            &&& a.required_net_rr == settings.alternative_min_net_reward_risk
            &&& a.filter_actual == plan.net_rr
            &&& a.filter_required == settings.alternative_min_net_reward_risk
            &&& a.filter_gap == plan.net_rr.sub(settings.alternative_min_net_reward_risk)
            &&& a.score == step.score
            &&& a.score_required == settings.alternative_min_confluence_score
            &&& a.imbalance == metrics.imbalance
            &&& a.spread == metrics.spread
            &&& a.freshness == metrics.freshness
            &&& a.btc_trend == trend.direction
            &&& a.absorption_initial_size == absorption.initial_size
            &&& a.absorption_current_size == absorption.current_size
            &&& a.absorption_depleted_quantity == absorption.depleted_quantity
            &&& a.absorption_executed_quantity == absorption.executed_quantity
            &&& a.absorption_matched == absorption.matched_ratio
            &&& side == Side::Long ==> a.acceleration == tape.buy_acceleration
                && a.acceleration_current_notional == tape.current_buy_notional
                && a.acceleration_baseline_notional == tape.previous_buy_notional
                && a.acceleration_baseline_valid == tape.buy_baseline_valid
            &&& side == Side::Short ==> a.acceleration == tape.sell_acceleration
                && a.acceleration_current_notional == tape.current_sell_notional
                && a.acceleration_baseline_notional == tape.previous_sell_notional
                && a.acceleration_baseline_valid == tape.sell_baseline_valid
        }),
{
}

/// The distances and ratios of a decided setup follow from its own prices and costs.
#[verifier::spinoff_prover]
pub proof fn an_analysis_measures_its_prices(
    settings: Settings,
    account: Account,
    pending: Option<PendingSignal>,
    side: Side,
    now: Double,
    metrics: Metrics,
    absorption: Absorption,
    btc_allowed: bool,
    trend: BtcTrend,
    sequence: i64,
)
    requires
        trading::entry_step(
            settings,
            account,
            pending,
            side,
            now,
            metrics,
            absorption,
            btc_allowed,
            trend,
            sequence,
        ).setup is Some,
    ensures
        ({
            let a = trading::entry_step(
                settings,
                account,
                pending,
                side,
                now,
                metrics,
                absorption,
                btc_allowed,
                trend,
                sequence,
            ).setup->0;
            let zero = Double::zero();
            let hundred = Double::whole(100);
            let risk = a.entry.sub(a.stop).abs();
            let reward = a.target.sub(a.entry).abs();
            &&& a.stop_pct == risk.div(a.entry).mul(hundred)
            &&& a.target_pct == reward.div(a.entry).mul(hundred)
            &&& zero.lt(risk) ==> a.gross_rr == reward.div(risk)
            &&& !zero.lt(risk) ==> a.gross_rr == zero
            &&& zero.lt(a.cost_pct) ==> a.cost_coverage == a.target_pct.div(a.cost_pct)
                && a.stop_cost_ratio == a.stop_pct.div(a.cost_pct)
            &&& !zero.lt(a.cost_pct) ==> a.cost_coverage == zero && a.stop_cost_ratio == zero
            &&& a.cost_pct == trading::plan_of(
                settings,
                side,
                metrics,
                absorption.price,
            ).cost_pct.mul(hundred)
            &&& side == Side::Long ==> a.breakout_price == a.wall.mul(
                Double::one().add(Double::ratio(2, 10_000).mul(Double::one())),
            )
            &&& side == Side::Short ==> a.breakout_price == a.wall.mul(
                Double::one().add(Double::ratio(2, 10_000).mul(Double::one().neg())),
            )
        }),
{
}

/// The parts of a score are worth 25 for a book that leans to the side, 20 each for BTC and for a
/// tape that runs with it, 15 for a wall eaten by trades, and 10 each for a tight spread and a
/// fresh book; each counts whole or not at all.
pub proof fn the_parts_of_a_score_are_worth_their_points(
    settings: Settings,
    side: Side,
    metrics: Metrics,
    absorption: Absorption,
    btc_allowed: bool,
)
    ensures
        ({
            let p = trading::score_parts(settings, side, btc_allowed, metrics, absorption);
            let leans = match side {
                Side::Long => Double::ratio(55, 100).le(metrics.imbalance),
                Side::Short => metrics.imbalance.le(Double::ratio(45, 100)),
            };
            let runs = match side {
                Side::Long => metrics.tape.buy_accelerating,
                Side::Short => metrics.tape.sell_accelerating,
            };
            &&& p.directional_imbalance == if leans {
                25int
            } else {
                0
            }
            &&& p.btc_alignment == if btc_allowed {
                20int
            } else {
                0
            }
            &&& p.tape_acceleration == if runs {
                20int
            } else {
                0
            }
            &&& p.absorption_match == if Double::ratio(95, 100).le(absorption.matched_ratio) {
                15int
            } else {
                0
            }
            &&& p.tight_spread == if metrics.spread.le(
                settings.max_spread_pct.mul(Double::ratio(65, 100)),
            ) {
                10int
            } else {
                0
            }
            &&& p.fresh_book == if metrics.freshness.le(Double::one()) {
                10int
            } else {
                0
            }
        }),
{
}

/// Only results of the last day count against the daily limit, each of them once.
pub proof fn the_daily_result_counts_one_day(closed: Seq<TradeResult>, trade: TradeResult, now: Double)
    ensures
        now.sub(trade.closed_at).le(Double::whole(86_400)) ==> trading::daily_pnl(
            closed.push(trade),
            now,
        ) == trading::daily_pnl(closed, now).add(trade.pnl),
        !now.sub(trade.closed_at).le(Double::whole(86_400)) ==> trading::daily_pnl(
            closed.push(trade),
            now,
        ) == trading::daily_pnl(closed, now),
        trading::daily_pnl(Seq::empty(), now) == Double::zero(),
{
    assert(closed.push(trade).drop_last() =~= closed);
}

/// A streak of losses is broken by one newest result that is no loss, and needs all of its
/// trades: a longer streak contains every shorter one.
pub proof fn a_streak_needs_every_loss(closed: Seq<TradeResult>, trade: TradeResult, count: usize)
    requires
        0 < count < usize::MAX,
    ensures
        !trade.pnl.lt(Double::zero()) ==> !trading::losing_streak(seq![trade] + closed, count),
        trade.pnl.lt(Double::zero()) && trading::losing_streak(closed, (count - 1) as usize)
            ==> trading::losing_streak(seq![trade] + closed, count),
        trading::losing_streak(seq![trade] + closed, count) ==> trading::losing_streak(
            closed,
            (count - 1) as usize,
        ),
        closed.len() < count ==> !trading::losing_streak(closed, count),
{
    let all = seq![trade] + closed;
    assert(all[0] == trade);
    if trading::losing_streak(all, count) {
        assert forall|i: int| 0 <= i < count - 1 implies (#[trigger] closed[i]).pnl.lt(
            Double::zero(),
        ) by {
            assert(all[i + 1] == closed[i]);
        }
    }
    if trade.pnl.lt(Double::zero()) && trading::losing_streak(closed, (count - 1) as usize) {
        assert forall|i: int| 0 <= i < count implies (#[trigger] all[i]).pnl.lt(
            Double::zero(),
        ) by {
            if i > 0 {
                assert(all[i] == closed[i - 1]);
            }
        }
    }
}

} // verus!

//! Entries, exits and their reasons.
use vstd::prelude::*;
use std::collections::VecDeque;
use crate::brain::{BtcTrend, Metrics};
use crate::config::Settings;
use crate::double::Double;
use crate::execution;
use crate::models::{
    Absorption, ClosedTrade, ExitReason, ExitSnapshot, PendingSignal, Position, Side,
    SignalSnapshot, TradeResult, TrendDirection,
};

verus! {

/// Why an entry was not taken.
#[derive(Clone, Copy, Debug, PartialEq, Eq, Structural)]
pub enum Reason {
    PositionLimit,
    DailyLoss,
    LossStreak,
    Confluence { score: i64, needed: i64 },
    Expired,
    RewardRisk { net_rr: Double },
    StaleBook,
    SpreadExpanded,
    LowImbalance,
    NoAcceleration,
}

/// What stands behind an exit, beside its reason.
#[derive(Clone, Copy, Debug, PartialEq, Eq, Structural)]
pub enum ExitDetail {
    Nothing,
    Target { multiple: Double },
    Reversal { ticks: u32 },
    Trail { peak_r: Double, now_r: Double },
}

/// What the state of an open position looks like in the log.
#[derive(Clone, Copy, Debug, PartialEq, Eq, Structural)]
pub struct PositionStatus {
    pub side: Side,
    pub held: Double,
    pub mid: Double,
    pub return_pct: Double,
    pub unrealized: Double,
    pub peak_pct: Double,
    pub flow_pct: Double,
    pub imbalance: Double,
    pub spread: Double,
    pub breakeven_armed: bool,
    pub r_now: Double,
    pub stop_price: Double,
}

/// Something for the log.
#[derive(Clone, Copy, Debug, PartialEq, Eq, Structural)]
pub enum Notice {
    /// A position was opened.
    Entry {
        side: Side,
        price: Double,
        stop: Double,
        target: Double,
        risk: Double,
        score: i64,
        net_rr: Double,
    },
    /// A position was closed.
    Exit { result: TradeResult, detail: ExitDetail },
    /// How an open position stands.
    Status(PositionStatus),
    /// A wall was absorbed and waits for breakout and retest.
    Setup { side: Side, score: i64 },
    /// An entry was rejected.
    Rejected(Reason),
    /// A symbol was passed over.
    Skipped(Reason),
}

/// The results of closed trades.
pub open spec fn results(closed: Seq<ClosedTrade>) -> Seq<TradeResult> {
    closed.map_values(|t: ClosedTrade| t.result)
}

/// The net result of the trades closed within the last day, summed in the order given.
pub open spec fn daily_pnl(closed: Seq<TradeResult>, now: Double) -> Double
    decreases closed.len(),
{
    if closed.len() == 0 {
        Double::zero()
    } else {
        let before = daily_pnl(closed.drop_last(), now);
        if now.sub(closed.last().closed_at).le(Double::whole(86_400)) {
            before.add(closed.last().pnl)
        } else {
            before
        }
    }
}

pub fn daily_result(closed: &VecDeque<ClosedTrade>, now: Double) -> (r: Double)
    ensures
        r == daily_pnl(results(closed@), now),
{
    let mut total = Double::zero();
    let mut i: usize = 0;
    while i < closed.len()
        invariant
            i <= closed@.len(),
            total == daily_pnl(results(closed@.take(i as int)), now),
        decreases closed@.len() - i,
    {
        proof {
            let next = results(closed@.take(i + 1));
            assert(next.drop_last() =~= results(closed@.take(i as int)));
            assert(next.last() == closed@[i as int].result);
        }
        let trade = &closed[i].result;
        if now.sub(trade.closed_at).le(Double::whole(86_400)) {
            total = total.add(trade.pnl);
        }
        i = i + 1;
    }
    assert(closed@.take(i as int) =~= closed@);
    total
}

/// The newest `count` trades are there and all lost.
pub open spec fn losing_streak(closed: Seq<TradeResult>, count: usize) -> bool {
    &&& closed.len() >= count
    &&& forall|i: int| 0 <= i < count ==> (#[trigger] closed[i]).pnl.lt(Double::zero())
}

pub fn lost_in_a_row(closed: &VecDeque<ClosedTrade>, count: usize) -> (r: bool)
    ensures
        r == losing_streak(results(closed@), count),
{
    let ghost all = results(closed@);
    if closed.len() < count {
        return false;
    }
    let mut i: usize = 0;
    while i < count
        invariant
            i <= count <= closed@.len(),
            all == results(closed@),
            forall|j: int| 0 <= j < i ==> (#[trigger] all[j]).pnl.lt(Double::zero()),
        decreases count - i,
    {
        assert(all[i as int] == closed@[i as int].result);
        if !closed[i].result.pnl.lt(Double::zero()) {
            return false;
        }
        i = i + 1;
    }
    true
}

/// What the account allows.
#[derive(Clone, Copy, Debug, PartialEq, Eq, Structural)]
pub struct Account {
    pub open_positions: usize,
    pub daily_pnl: Double,
    pub losing_streak: bool,
}

/// The circuit breaker that holds entries back, if any: too many open positions, too much
/// lost within a day, too many losses in a row.
pub open spec fn breaker(settings: Settings, account: Account) -> Option<Reason> {
    if account.open_positions >= settings.max_open_positions {
        Some(Reason::PositionLimit)
    } else if account.daily_pnl.le(settings.account_equity.neg().mul(settings.max_daily_loss_pct)) {
        Some(Reason::DailyLoss)
    } else if account.losing_streak {
        Some(Reason::LossStreak)
    } else {
        None
    }
}

fn tripped_breaker(settings: &Settings, account: Account) -> (r: Option<Reason>)
    ensures
        r == breaker(*settings, account),
{
    if account.open_positions >= settings.max_open_positions {
        Some(Reason::PositionLimit)
    } else if account.daily_pnl.le(settings.account_equity.neg().mul(settings.max_daily_loss_pct)) {
        Some(Reason::DailyLoss)
    } else if account.losing_streak {
        Some(Reason::LossStreak)
    } else {
        None
    }
}

/// The points of an entry, one count for each thing that speaks for it.
#[derive(Clone, Copy, Debug, PartialEq, Eq, Structural)]
pub struct ScoreBreakdown {
    pub directional_imbalance: i64,
    pub btc_alignment: i64,
    pub tape_acceleration: i64,
    pub absorption_match: i64,
    pub tight_spread: i64,
    pub fresh_book: i64,
}

pub open spec fn spec_points(holds: bool, worth: i64) -> i64 {
    if holds {
        worth
    } else {
        0
    }
}

#[verifier::when_used_as_spec(spec_points)]
pub fn points(holds: bool, worth: i64) -> (r: i64)
    ensures
        r == spec_points(holds, worth),
{
    if holds {
        worth
    } else {
        0
    }
}

/// The book leans towards a side.
pub open spec fn leans(side: Side, imbalance: Double) -> bool {
    match side {
        Side::Long => imbalance.ge(Double::ratio(55, 100)),
        Side::Short => imbalance.le(Double::ratio(45, 100)),
    }
}

/// The tape runs with a side.
pub open spec fn runs(side: Side, metrics: Metrics) -> bool {
    match side {
        Side::Long => metrics.tape.buy_accelerating,
        Side::Short => metrics.tape.sell_accelerating,
    }
}

pub open spec fn score_parts(
    settings: Settings,
    side: Side,
    btc_allowed: bool,
    metrics: Metrics,
    absorption: Absorption,
) -> ScoreBreakdown {
    ScoreBreakdown {
        directional_imbalance: points(leans(side, metrics.imbalance), 25),
        btc_alignment: points(btc_allowed, 20),
        tape_acceleration: points(runs(side, metrics), 20),
        absorption_match: points(absorption.matched_ratio.ge(Double::ratio(95, 100)), 15),
        tight_spread: points(
            metrics.spread.le(settings.max_spread_pct.mul(Double::ratio(65, 100))),
            10,
        ),
        fresh_book: points(metrics.freshness.le(Double::one()), 10),
    }
}

impl ScoreBreakdown {
    pub open spec fn spec_total(self) -> int {
        self.directional_imbalance + self.btc_alignment + self.tape_acceleration
            + self.absorption_match + self.tight_spread + self.fresh_book
    }
}

fn score_breakdown(
    settings: &Settings,
    side: Side,
    btc_allowed: bool,
    metrics: &Metrics,
    absorption: &Absorption,
) -> (r: ScoreBreakdown)
    ensures
        r == score_parts(*settings, side, btc_allowed, *metrics, *absorption),
{
    let leaning = match side {
        Side::Long => metrics.imbalance.ge(Double::ratio(55, 100)),
        Side::Short => metrics.imbalance.le(Double::ratio(45, 100)),
    };
    let running = match side {
        Side::Long => metrics.tape.buy_accelerating,
        Side::Short => metrics.tape.sell_accelerating,
    };
    ScoreBreakdown {
        directional_imbalance: points(leaning, 25),
        btc_alignment: points(btc_allowed, 20),
        tape_acceleration: points(running, 20),
        absorption_match: points(absorption.matched_ratio.ge(Double::ratio(95, 100)), 15),
        tight_spread: points(
            metrics.spread.le(settings.max_spread_pct.mul(Double::ratio(65, 100))),
            10,
        ),
        fresh_book: points(metrics.freshness.le(Double::one()), 10),
    }
}

/// The confluence score is a whole number from 0 to 100, and 100 only when everything
/// speaks for the entry.
pub proof fn score_is_out_of_a_hundred(
    settings: Settings,
    side: Side,
    btc_allowed: bool,
    metrics: Metrics,
    absorption: Absorption,
)
    ensures
        ({
            let s = score_parts(settings, side, btc_allowed, metrics, absorption).spec_total();
            &&& 0 <= s <= 100
            &&& s == 100 ==> btc_allowed && leans(side, metrics.imbalance) && runs(side, metrics)
        }),
{
}

/// The prices and distances of an entry at the touch.
#[derive(Clone, Copy, Debug, PartialEq, Eq, Structural)]
pub struct Plan {
    pub touch: Double,
    pub stop: Double,
    pub target: Double,
    pub risk: Double,
    pub cost_pct: Double,
    pub net_reward: Double,
    pub net_rr: Double,
}

/// The relative distance of the stop from the wall: the structural buffer and two spreads,
/// between the least and the largest stop.
pub open spec fn stop_share(settings: Settings, spread: Double) -> Double {
    settings.alternative_min_stop_pct.max(
        settings.alternative_max_stop_pct.min(
            settings.alternative_structure_buffer_pct.add(
                spread.div(Double::whole(100)).mul(Double::whole(2)),
            ),
        ),
    )
}

pub open spec fn plan_of(settings: Settings, side: Side, metrics: Metrics, wall: Double) -> Plan {
    let one = Double::one();
    let cost_pct = execution::round_trip_cost(settings, metrics.bid, metrics.ask);
    let raw = stop_share(settings, metrics.spread);
    let touch = execution::entry_touch(side, metrics.bid, metrics.ask);
    let stop = match side {
        Side::Long => wall.mul(one.sub(raw)),
        Side::Short => wall.mul(one.add(raw)),
    };
    let risk = touch.sub(stop).abs();
    let target = touch.add(
        risk.mul(settings.alternative_target_r_multiple).mul(side.direction()),
    );
    let net_reward = target.sub(touch).abs().div(touch).sub(cost_pct);
    let net_risk = risk.div(touch).add(cost_pct);
    Plan {
        touch,
        stop,
        target,
        risk,
        cost_pct,
        net_reward,
        net_rr: if net_risk.gt(Double::zero()) {
            net_reward.div(net_risk)
        } else {
            Double::zero()
        },
    }
}

fn plan_entry(settings: &Settings, side: Side, metrics: &Metrics, wall: Double) -> (r: Plan)
    ensures
        r == plan_of(*settings, side, *metrics, wall),
{
    let one = Double::one();
    let (bid, ask) = (metrics.bid, metrics.ask);
    let cost_pct = execution::estimated_round_trip_cost_pct(settings, bid, ask);
    let raw_stop_pct = settings.alternative_min_stop_pct.max(
        settings.alternative_max_stop_pct.min(
            settings.alternative_structure_buffer_pct.add(
                metrics.spread.div(Double::whole(100)).mul(Double::whole(2)),
            ),
        ),
    );
    let (touch, stop) = match side {
        Side::Long => (ask, wall.mul(one.sub(raw_stop_pct))),
        Side::Short => (bid, wall.mul(one.add(raw_stop_pct))),
    };
    let risk = touch.sub(stop).abs();
    let target = touch.add(
        risk.mul(settings.alternative_target_r_multiple).mul(side.direction()),
    );
    let net_reward = target.sub(touch).abs().div(touch).sub(cost_pct);
    let net_risk = risk.div(touch).add(cost_pct);
    let net_rr = if net_risk.gt(Double::zero()) {
        net_reward.div(net_risk)
    } else {
        Double::zero()
    };
    Plan { touch, stop, target, risk, cost_pct, net_reward, net_rr }
}

/// The economics of an entry do not pay after costs.
pub open spec fn unprofitable(settings: Settings, plan: Plan) -> bool {
    plan.net_reward.le(Double::zero()) || plan.net_rr.lt(settings.alternative_min_net_reward_risk)
}

/// Everything that went into the decision on one retested setup.
#[derive(Clone, Copy, Debug, PartialEq, Eq, Structural)]
pub struct SetupAnalysis {
    pub timestamp: Double,
    pub side: Side,
    pub rejected: bool,
    pub wall: Double,
    pub breakout_price: Double,
    pub retest_price: Double,
    pub entry: Double,
    pub stop: Double,
    pub target: Double,
    pub stop_pct: Double,
    pub target_pct: Double,
    pub gross_rr: Double,
    pub cost_pct: Double,
    pub cost_coverage: Double,
    pub stop_cost_ratio: Double,
    pub net_rr: Double,
    pub required_net_rr: Double,
    pub score: i64,
    pub score_required: i64,
    pub score_breakdown: ScoreBreakdown,
    pub filter_actual: Double,
    pub filter_required: Double,
    pub filter_gap: Double,
    pub imbalance: Double,
    pub acceleration: Double,
    pub acceleration_current_notional: Double,
    pub acceleration_baseline_notional: Double,
    pub acceleration_baseline_valid: bool,
    pub spread: Double,
    pub freshness: Double,
    pub absorption_initial_size: Double,
    pub absorption_current_size: Double,
    pub absorption_depleted_quantity: Double,
    pub absorption_executed_quantity: Double,
    pub absorption_matched: Double,
    pub btc_trend: TrendDirection,
}

/// A quotient, zero where the divisor is not positive.
pub open spec fn spec_ratio_or_zero(a: Double, b: Double) -> Double {
    if b.gt(Double::zero()) {
        a.div(b)
    } else {
        Double::zero()
    }
}

#[verifier::when_used_as_spec(spec_ratio_or_zero)]
pub fn ratio_or_zero(a: Double, b: Double) -> (r: Double)
    ensures
        r == spec_ratio_or_zero(a, b),
{
    if b.gt(Double::zero()) {
        a.div(b)
    } else {
        Double::zero()
    }
}

pub open spec fn analysis_of(
    settings: Settings,
    side: Side,
    now: Double,
    metrics: Metrics,
    absorption: Absorption,
    trend: BtcTrend,
    score: i64,
    parts: ScoreBreakdown,
    plan: Plan,
) -> SetupAnalysis {
    let hundred = Double::whole(100);
    let wall = absorption.price;
    let target_pct = plan.target.sub(plan.touch).abs().div(plan.touch).mul(hundred);
    let stop_pct = plan.risk.div(plan.touch).mul(hundred);
    let cost_pct = plan.cost_pct.mul(hundred);
    let tape = metrics.tape;
    SetupAnalysis {
        timestamp: now,
        side,
        rejected: unprofitable(settings, plan),
        wall,
        breakout_price: wall.mul(
            Double::one().add(Double::ratio(2, 10_000).mul(side.direction())),
        ),
        retest_price: plan.touch,
        entry: plan.touch,
        stop: plan.stop,
        target: plan.target,
        stop_pct,
        target_pct,
        gross_rr: ratio_or_zero(plan.target.sub(plan.touch).abs(), plan.risk),
        cost_pct,
        cost_coverage: ratio_or_zero(target_pct, cost_pct),
        stop_cost_ratio: ratio_or_zero(stop_pct, cost_pct),
        net_rr: plan.net_rr,
        required_net_rr: settings.alternative_min_net_reward_risk,
        score,
        score_required: settings.alternative_min_confluence_score,
        score_breakdown: parts,
        filter_actual: plan.net_rr,
        filter_required: settings.alternative_min_net_reward_risk,
        filter_gap: plan.net_rr.sub(settings.alternative_min_net_reward_risk),
        imbalance: metrics.imbalance,
        acceleration: match side {
            Side::Long => tape.buy_acceleration,
            Side::Short => tape.sell_acceleration,
        },
        acceleration_current_notional: match side {
            Side::Long => tape.current_buy_notional,
            Side::Short => tape.current_sell_notional,
        },
        acceleration_baseline_notional: match side {
            Side::Long => tape.previous_buy_notional,
            Side::Short => tape.previous_sell_notional,
        },
        acceleration_baseline_valid: match side {
            Side::Long => tape.buy_baseline_valid,
            Side::Short => tape.sell_baseline_valid,
        },
        spread: metrics.spread,
        freshness: metrics.freshness,
        absorption_initial_size: absorption.initial_size,
        absorption_current_size: absorption.current_size,
        absorption_depleted_quantity: absorption.depleted_quantity,
        absorption_executed_quantity: absorption.executed_quantity,
        absorption_matched: absorption.matched_ratio,
        btc_trend: trend.direction,
    }
}

fn analyse_setup(
    settings: &Settings,
    side: Side,
    now: Double,
    metrics: &Metrics,
    absorption: &Absorption,
    trend: BtcTrend,
    score: i64,
    parts: ScoreBreakdown,
    plan: Plan,
) -> (r: SetupAnalysis)
    ensures
        r == analysis_of(
            *settings,
            side,
            now,
            *metrics,
            *absorption,
            trend,
            score,
            parts,
            plan,
        ),
{
    let hundred = Double::whole(100);
    let wall = absorption.price;
    let distance = plan.target.sub(plan.touch).abs();
    let target_pct = distance.div(plan.touch).mul(hundred);
    let stop_pct = plan.risk.div(plan.touch).mul(hundred);
    let cost_pct = plan.cost_pct.mul(hundred);
    let tape = metrics.tape;
    let (acceleration, current, baseline, baseline_valid) = match side {
        Side::Long => (
            tape.buy_acceleration,
            tape.current_buy_notional,
            tape.previous_buy_notional,
            tape.buy_baseline_valid,
        ),
        Side::Short => (
            tape.sell_acceleration,
            tape.current_sell_notional,
            tape.previous_sell_notional,
            tape.sell_baseline_valid,
        ),
    };
    SetupAnalysis {
        timestamp: now,
        side,
        rejected: plan.net_reward.le(Double::zero()) || plan.net_rr.lt(
            settings.alternative_min_net_reward_risk,
        ),
        wall,
        breakout_price: wall.mul(
            Double::one().add(Double::ratio(2, 10_000).mul(side.direction())),
        ),
        retest_price: plan.touch,
        entry: plan.touch,
        stop: plan.stop,
        target: plan.target,
        stop_pct,
        target_pct,
        gross_rr: ratio_or_zero(distance, plan.risk),
        cost_pct,
        cost_coverage: ratio_or_zero(target_pct, cost_pct),
        stop_cost_ratio: ratio_or_zero(stop_pct, cost_pct),
        net_rr: plan.net_rr,
        required_net_rr: settings.alternative_min_net_reward_risk,
        score,
        score_required: settings.alternative_min_confluence_score,
        score_breakdown: parts,
        filter_actual: plan.net_rr,
        filter_required: settings.alternative_min_net_reward_risk,
        filter_gap: plan.net_rr.sub(settings.alternative_min_net_reward_risk),
        imbalance: metrics.imbalance,
        acceleration,
        acceleration_current_notional: current,
        acceleration_baseline_notional: baseline,
        acceleration_baseline_valid: baseline_valid,
        spread: metrics.spread,
        freshness: metrics.freshness,
        absorption_initial_size: absorption.initial_size,
        absorption_current_size: absorption.current_size,
        absorption_depleted_quantity: absorption.depleted_quantity,
        absorption_executed_quantity: absorption.executed_quantity,
        absorption_matched: absorption.matched_ratio,
        btc_trend: trend.direction,
    }
}

/// The position that an entry opens: sized so that the stop loses the risk budget, within
/// the largest notional. None if the stop is no distance away.
pub open spec fn opened(
    settings: Settings,
    side: Side,
    bid: Double,
    ask: Double,
    now: Double,
    stop_price: Double,
    target_price: Double,
    snapshot: SignalSnapshot,
) -> Option<Position> {
    let touch = execution::entry_touch(side, bid, ask);
    let distance = touch.sub(stop_price).abs();
    if distance.le(Double::zero()) {
        None
    } else {
        let budget = settings.account_equity.mul(settings.risk_per_trade_pct);
        let quantity = budget.div(distance).min(settings.max_position_notional.div(touch));
        let fill = execution::entry_filled(settings, side, bid, ask, quantity);
        Some(
            Position {
                side,
                entry: fill.price,
                quantity,
                opened_at: now,
                mark: bid.add(ask).div(Double::whole(2)),
                stop_price,
                target_price,
                risk_per_unit: fill.price.sub(stop_price).abs(),
                entry_fee: fill.fee,
                entry_slippage_cost: fill.slippage_cost,
                signal_snapshot: snapshot,
                unrealized: Double::zero(),
                breakeven_armed: false,
                peak_return: Double::zero(),
                trough_return: Double::zero(),
                mfe: Double::zero(),
                mae: Double::zero(),
                reversal_streak: 0,
                last_status_log: now,
            },
        )
    }
}

fn open_position(
    settings: &Settings,
    side: Side,
    bid: Double,
    ask: Double,
    now: Double,
    stop_price: Double,
    target_price: Double,
    snapshot: SignalSnapshot,
) -> (r: Option<Position>)
    ensures
        r == opened(*settings, side, bid, ask, now, stop_price, target_price, snapshot),
{
    let touch = match side {
        Side::Long => ask,
        Side::Short => bid,
    };
    let stop_distance = touch.sub(stop_price).abs();
    if stop_distance.le(Double::zero()) {
        return None;
    }
    let risk_budget = settings.account_equity.mul(settings.risk_per_trade_pct);
    let quantity = risk_budget.div(stop_distance).min(settings.max_position_notional.div(touch));
    let fill = execution::entry_fill(settings, side, bid, ask, quantity);
    Some(
        Position {
            side,
            entry: fill.price,
            quantity,
            opened_at: now,
            mark: bid.add(ask).div(Double::whole(2)),
            stop_price,
            target_price,
            risk_per_unit: fill.price.sub(stop_price).abs(),
            entry_fee: fill.fee,
            entry_slippage_cost: fill.slippage_cost,
            signal_snapshot: snapshot,
            unrealized: Double::zero(),
            breakeven_armed: false,
            peak_return: Double::zero(),
            trough_return: Double::zero(),
            mfe: Double::zero(),
            mae: Double::zero(),
            reversal_streak: 0,
            last_status_log: now,
        },
    )
}

/// A position is sized by the risk: never larger than what loses the risk budget at the stop,
/// and never larger than the largest notional at the touch. It starts flat, with its stop and
/// target as planned.
pub proof fn positions_are_sized_by_the_risk(
    settings: Settings,
    side: Side,
    bid: Double,
    ask: Double,
    now: Double,
    stop_price: Double,
    target_price: Double,
    snapshot: SignalSnapshot,
)
    requires
        opened(settings, side, bid, ask, now, stop_price, target_price, snapshot) is Some,
    ensures
        ({
            let pos = opened(
                settings,
                side,
                bid,
                ask,
                now,
                stop_price,
                target_price,
                snapshot,
            )->0;
            let touch = execution::entry_touch(side, bid, ask);
            let distance = touch.sub(stop_price).abs();
            let budget = settings.account_equity.mul(settings.risk_per_trade_pct);
            &&& !pos.quantity.gt(budget.div(distance))
            &&& !pos.quantity.gt(settings.max_position_notional.div(touch))
            &&& pos.side == side
            &&& pos.stop_price == stop_price
            &&& pos.target_price == target_price
            &&& !pos.breakeven_armed
            &&& pos.reversal_streak == 0
        }),
{
}

/// How far one look at a candidate got.
#[derive(Clone, Copy, Debug, PartialEq, Eq, Structural)]
pub enum EntryPath {
    /// A circuit breaker held it back.
    Barred,
    /// Too little speaks for it.
    Weak,
    /// It waits for breakout and retest from now on.
    Qualified,
    /// It waited too long.
    Expired,
    /// It still waits.
    Waiting { newly_broken: bool },
    /// The retest held, but it does not pay after costs.
    Unprofitable { newly_broken: bool },
    /// The retest held, but the stop is no distance away.
    Flat { newly_broken: bool },
    /// A position was opened.
    Entered { newly_broken: bool },
}

/// What one look at a candidate leaves behind.
#[derive(Clone, Copy, Debug, PartialEq, Eq, Structural)]
pub struct EntryStep {
    pub path: EntryPath,
    pub score: i64,
    pub pending: Option<PendingSignal>,
    pub position: Option<Position>,
    pub setup: Option<SetupAnalysis>,
    pub notice: Option<Notice>,
}

/// The price is through the wall.
pub open spec fn breaks(side: Side, wall: Double, bid: Double, ask: Double) -> bool {
    let by = Double::ratio(2, 10_000);
    match side {
        Side::Long => bid.gt(wall.mul(Double::one().add(by))),
        Side::Short => ask.lt(wall.mul(Double::one().sub(by))),
    }
}

/// The price is back at the wall.
pub open spec fn retests(
    settings: Settings,
    side: Side,
    wall: Double,
    bid: Double,
    ask: Double,
) -> bool {
    let near = wall.mul(settings.alternative_retest_tolerance_pct);
    let far = near.mul(Double::whole(2));
    match side {
        Side::Long => bid.ge(wall.sub(near)) && bid.le(wall.add(far)),
        Side::Short => ask.le(wall.add(near)) && ask.ge(wall.sub(far)),
    }
}

/// A waiting setup after one more quote: once broken it stays broken, and from then on the
/// looks at which the retest holds are counted in a row.
pub open spec fn waited(
    settings: Settings,
    pending: PendingSignal,
    wall: Double,
    bid: Double,
    ask: Double,
) -> PendingSignal {
    let broken = pending.broken || breaks(pending.side, wall, bid, ask);
    PendingSignal {
        broken,
        hold_ticks: if !broken {
            pending.hold_ticks
        } else if retests(settings, pending.side, wall, bid, ask) {
            pending.hold_ticks.wrapping_add(1)
        } else {
            0
        },
        ..pending
    }
}

fn wait_for_retest(
    settings: &Settings,
    pending: PendingSignal,
    wall: Double,
    bid: Double,
    ask: Double,
) -> (r: (PendingSignal, bool))
    ensures
        r.0 == waited(*settings, pending, wall, bid, ask),
        r.1 == (breaks(pending.side, wall, bid, ask) && !pending.broken),
{
    let by = Double::ratio(2, 10_000);
    let broke = match pending.side {
        Side::Long => bid.gt(wall.mul(Double::one().add(by))),
        Side::Short => ask.lt(wall.mul(Double::one().sub(by))),
    };
    let mut next = pending;
    next.broken = pending.broken || broke;
    if next.broken {
        let near = wall.mul(settings.alternative_retest_tolerance_pct);
        let far = near.mul(Double::whole(2));
        let retest = match pending.side {
            Side::Long => bid.ge(wall.sub(near)) && bid.le(wall.add(far)),
            Side::Short => ask.le(wall.add(near)) && ask.ge(wall.sub(far)),
        };
        next.hold_ticks = if retest {
            pending.hold_ticks.wrapping_add(1)
        } else {
            0
        };
    }
    (next, broke && !pending.broken)
}

/// The decision on a setup whose retest has held: rejected if it does not pay after costs,
/// opened otherwise. Either way it no longer waits.
pub open spec fn decided(
    settings: Settings,
    side: Side,
    now: Double,
    metrics: Metrics,
    absorption: Absorption,
    trend: BtcTrend,
    sequence: i64,
    score: i64,
    parts: ScoreBreakdown,
    newly_broken: bool,
) -> EntryStep {
    let plan = plan_of(settings, side, metrics, absorption.price);
    let setup = Some(
        analysis_of(settings, side, now, metrics, absorption, trend, score, parts, plan),
    );
    if unprofitable(settings, plan) {
        EntryStep {
            path: EntryPath::Unprofitable { newly_broken },
            score,
            pending: None,
            position: None,
            setup,
            notice: Some(Notice::Rejected(Reason::RewardRisk { net_rr: plan.net_rr })),
        }
    } else {
        let snapshot = SignalSnapshot {
            wall: absorption.price,
            score,
            imbalance: metrics.imbalance,
            flow: metrics.flow,
            btc_trend: trend.direction,
            spread_pct: metrics.spread,
            cost_pct: plan.cost_pct,
            net_rr: plan.net_rr,
            sequence,
        };
        match opened(
            settings,
            side,
            metrics.bid,
            metrics.ask,
            now,
            plan.stop,
            plan.target,
            snapshot,
        ) {
            None => EntryStep {
                path: EntryPath::Flat { newly_broken },
                score,
                pending: None,
                position: None,
                setup,
                notice: None,
            },
            Some(position) => EntryStep {
                path: EntryPath::Entered { newly_broken },
                score,
                pending: None,
                position: Some(position),
                setup,
                notice: Some(
                    Notice::Entry {
                        side,
                        price: position.entry,
                        stop: plan.stop,
                        target: plan.target,
                        risk: settings.account_equity.mul(settings.risk_per_trade_pct),
                        score,
                        net_rr: plan.net_rr,
                    },
                ),
            },
        }
    }
}

/// One look at a candidate: circuit breakers, then confluence, then the way from a
/// qualified absorption through breakout and held retest to an entry.
pub open spec fn entry_step(
    settings: Settings,
    account: Account,
    pending: Option<PendingSignal>,
    side: Side,
    now: Double,
    metrics: Metrics,
    absorption: Absorption,
    btc_allowed: bool,
    trend: BtcTrend,
    sequence: i64,
) -> EntryStep {
    let parts = score_parts(settings, side, btc_allowed, metrics, absorption);
    let score = parts.spec_total() as i64;
    let least = settings.alternative_min_confluence_score;
    let wall = absorption.price;
    let nothing = EntryStep {
        path: EntryPath::Barred,
        score: 0,
        pending,
        position: None,
        setup: None,
        notice: None,
    };
    if breaker(settings, account) is Some {
        EntryStep { notice: Some(Notice::Rejected(breaker(settings, account)->0)), ..nothing }
    } else if score < least {
        EntryStep {
            path: EntryPath::Weak,
            score,
            notice: Some(Notice::Rejected(Reason::Confluence { score, needed: least })),
            ..nothing
        }
    } else if pending is None || (pending->0).side != side {
        EntryStep {
            path: EntryPath::Qualified,
            score,
            pending: Some(
                PendingSignal {
                    side,
                    wall,
                    created: now,
                    broken: false,
                    hold_ticks: 0,
                    score,
                    absorption,
                },
            ),
            notice: Some(Notice::Setup { side, score }),
            ..nothing
        }
    } else if now.sub((pending->0).created).gt(settings.alternative_signal_expiry_seconds) {
        EntryStep {
            path: EntryPath::Expired,
            score,
            pending: None,
            notice: Some(Notice::Rejected(Reason::Expired)),
            ..nothing
        }
    } else {
        let before = pending->0;
        let after = waited(settings, before, wall, metrics.bid, metrics.ask);
        let newly_broken = breaks(side, wall, metrics.bid, metrics.ask) && !before.broken;
        if !after.broken || after.hold_ticks < settings.alternative_retest_hold_ticks {
            EntryStep {
                path: EntryPath::Waiting { newly_broken },
                score,
                pending: Some(after),
                ..nothing
            }
        } else {
            decided(
                settings,
                side,
                now,
                metrics,
                absorption,
                trend,
                sequence,
                score,
                parts,
                newly_broken,
            )
        }
    }
}

fn decide_entry(
    settings: &Settings,
    side: Side,
    now: Double,
    metrics: &Metrics,
    absorption: &Absorption,
    trend: BtcTrend,
    sequence: i64,
    score: i64,
    parts: ScoreBreakdown,
    newly_broken: bool,
) -> (r: EntryStep)
    ensures
        r == decided(
            *settings,
            side,
            now,
            *metrics,
            *absorption,
            trend,
            sequence,
            score,
            parts,
            newly_broken,
        ),
{
    let plan = plan_entry(settings, side, metrics, absorption.price);
    let setup = analyse_setup(
        settings,
        side,
        now,
        metrics,
        absorption,
        trend,
        score,
        parts,
        plan,
    );
    if setup.rejected {
        return EntryStep {
            path: EntryPath::Unprofitable { newly_broken },
            score,
            pending: None,
            position: None,
            setup: Some(setup),
            notice: Some(Notice::Rejected(Reason::RewardRisk { net_rr: plan.net_rr })),
        };
    }
    let snapshot = SignalSnapshot {
        wall: absorption.price,
        score,
        imbalance: metrics.imbalance,
        flow: metrics.flow,
        btc_trend: trend.direction,
        spread_pct: metrics.spread,
        cost_pct: plan.cost_pct,
        net_rr: plan.net_rr,
        sequence,
    };
    let position = open_position(
        settings,
        side,
        metrics.bid,
        metrics.ask,
        now,
        plan.stop,
        plan.target,
        snapshot,
    );
    let (path, notice) = match position {
        None => (EntryPath::Flat { newly_broken }, None),
        Some(p) => (
            EntryPath::Entered { newly_broken },
            Some(
                Notice::Entry {
                    side,
                    price: p.entry,
                    stop: plan.stop,
                    target: plan.target,
                    risk: settings.account_equity.mul(settings.risk_per_trade_pct),
                    score,
                    net_rr: plan.net_rr,
                },
            ),
        ),
    };
    EntryStep { path, score, pending: None, position, setup: Some(setup), notice }
}

/// Looks at a candidate once.
pub fn attempt_entry(
    settings: &Settings,
    account: Account,
    pending: Option<PendingSignal>,
    side: Side,
    now: Double,
    metrics: &Metrics,
    absorption: &Absorption,
    btc_allowed: bool,
    trend: BtcTrend,
    sequence: i64,
) -> (r: EntryStep)
    ensures
        r == entry_step(
            *settings,
            account,
            pending,
            side,
            now,
            *metrics,
            *absorption,
            btc_allowed,
            trend,
            sequence,
        ),
{
    let mut step = EntryStep {
        path: EntryPath::Barred,
        score: 0,
        pending,
        position: None,
        setup: None,
        notice: None,
    };
    match tripped_breaker(settings, account) {
        Some(reason) => {
            step.notice = Some(Notice::Rejected(reason));
            return step;
        },
        None => {},
    }
    let parts = score_breakdown(settings, side, btc_allowed, metrics, absorption);
    proof {
        score_is_out_of_a_hundred(*settings, side, btc_allowed, *metrics, *absorption);
    }
    let score: i64 = parts.directional_imbalance + parts.btc_alignment + parts.tape_acceleration
        + parts.absorption_match + parts.tight_spread + parts.fresh_book;
    step.score = score;
    let needed = settings.alternative_min_confluence_score;
    if score < needed {
        step.path = EntryPath::Weak;
        step.notice = Some(Notice::Rejected(Reason::Confluence { score, needed }));
        return step;
    }
    let wall = absorption.price;
    // The way of a setup: qualified, broken, retested, entered.
    let before = match pending {
        Some(p) => if p.side == side {
            Some(p)
        } else {
            None
        },
        None => None,
    };
    let before = match before {
        Some(p) => p,
        None => {
            step.path = EntryPath::Qualified;
            step.pending =
            Some(
                PendingSignal {
                    side,
                    wall,
                    created: now,
                    broken: false,
                    hold_ticks: 0,
                    score,
                    absorption: *absorption,
                },
            );
            step.notice = Some(Notice::Setup { side, score });
            return step;
        },
    };
    if now.sub(before.created).gt(settings.alternative_signal_expiry_seconds) {
        step.path = EntryPath::Expired;
        step.pending = None;
        step.notice = Some(Notice::Rejected(Reason::Expired));
        return step;
    }
    let (after, newly_broken) = wait_for_retest(settings, before, wall, metrics.bid, metrics.ask);
    if !after.broken || after.hold_ticks < settings.alternative_retest_hold_ticks {
        step.path = EntryPath::Waiting { newly_broken };
        step.pending = Some(after);
        return step;
    }
    decide_entry(
        settings,
        side,
        now,
        metrics,
        absorption,
        trend,
        sequence,
        score,
        parts,
        newly_broken,
    )
}

/// No entry is instant: whatever the market looks like, a candidate that was not already
/// waiting on the same side opens nothing.
pub proof fn no_instant_entry(
    settings: Settings,
    account: Account,
    pending: Option<PendingSignal>,
    side: Side,
    now: Double,
    metrics: Metrics,
    absorption: Absorption,
    btc_allowed: bool,
    trend: BtcTrend,
    sequence: i64,
)
    requires
        pending is None || (pending->0).side != side,
    ensures
        entry_step(
            settings,
            account,
            pending,
            side,
            now,
            metrics,
            absorption,
            btc_allowed,
            trend,
            sequence,
        ).position is None,
{
}

/// A position is opened only when no circuit breaker holds, the score is reached, the wall
/// is broken, the retest has held for as many looks as asked, and the entry pays after
/// costs.
pub proof fn entries_pass_every_gate(
    settings: Settings,
    account: Account,
    pending: Option<PendingSignal>,
    side: Side,
    now: Double,
    metrics: Metrics,
    absorption: Absorption,
    btc_allowed: bool,
    trend: BtcTrend,
    sequence: i64,
)
    requires
        entry_step(
            settings,
            account,
            pending,
            side,
            now,
            metrics,
            absorption,
            btc_allowed,
            trend,
            sequence,
        ).position is Some,
    ensures
        account.open_positions < settings.max_open_positions,
        !account.losing_streak,
        !account.daily_pnl.le(settings.account_equity.neg().mul(settings.max_daily_loss_pct)),
        ({
            let step = entry_step(
                settings,
                account,
                pending,
                side,
                now,
                metrics,
                absorption,
                btc_allowed,
                trend,
                sequence,
            );
            let after = waited(settings, pending->0, absorption.price, metrics.bid, metrics.ask);
            let plan = plan_of(settings, side, metrics, absorption.price);
            &&& pending is Some && (pending->0).side == side
            &&& step.score >= settings.alternative_min_confluence_score
            &&& after.broken
            &&& after.hold_ticks >= settings.alternative_retest_hold_ticks
            &&& !plan.net_reward.le(Double::zero())
            &&& !plan.net_rr.lt(settings.alternative_min_net_reward_risk)
            &&& (step.position->0).side == side
            &&& step.pending is None
        }),
{
}

/// The return of a position at a price, signed by its side; zero without an entry price.
pub open spec fn return_at(pos: Position, mark: Double) -> Double {
    if pos.entry.same(Double::zero()) {
        Double::zero()
    } else {
        mark.sub(pos.entry).div(pos.entry).mul(pos.side.direction())
    }
}

fn position_return(pos: &Position, mark: Double) -> (r: Double)
    ensures
        r == return_at(*pos, mark),
{
    if pos.entry.same(Double::zero()) {
        return Double::zero();
    }
    mark.sub(pos.entry).div(pos.entry).mul(pos.side.direction())
}

/// The price at which a position can be closed now.
pub open spec fn executable(side: Side, metrics: Metrics) -> Double {
    execution::entry_touch(side.inverted(), metrics.bid, metrics.ask)
}

/// A position marked to the price at which it can be closed now: what closing would bring
/// after fees, and the best and worst of that so far.
pub open spec fn marked(settings: Settings, pos: Position, metrics: Metrics) -> Position {
    let price = executable(pos.side, metrics);
    let exit_fee = price.mul(pos.quantity).mul(settings.taker_fee_pct);
    let unrealized = execution::pnl(
        pos.side,
        pos.entry,
        price,
        pos.quantity,
        pos.entry_fee,
        exit_fee,
    ).1;
    let gross = return_at(pos, price);
    Position {
        mark: price,
        unrealized,
        peak_return: pos.peak_return.max(gross),
        trough_return: pos.trough_return.min(gross),
        mfe: pos.mfe.max(unrealized),
        mae: pos.mae.min(unrealized),
        ..pos
    }
}

fn mark_position(settings: &Settings, pos: Position, metrics: &Metrics) -> (r: Position)
    ensures
        r == marked(*settings, pos, *metrics),
{
    let price = match pos.side {
        Side::Long => metrics.bid,
        Side::Short => metrics.ask,
    };
    let estimated_exit_fee = price.mul(pos.quantity).mul(settings.taker_fee_pct);
    let (_, unrealized) = execution::trade_pnl(
        pos.side,
        pos.entry,
        price,
        pos.quantity,
        pos.entry_fee,
        estimated_exit_fee,
    );
    let gross = position_return(&pos, price);
    let mut next = pos;
    next.mark = price;
    next.unrealized = unrealized;
    next.peak_return = pos.peak_return.max(gross);
    next.trough_return = pos.trough_return.min(gross);
    next.mfe = pos.mfe.max(unrealized);
    next.mae = pos.mae.min(unrealized);
    next
}

/// What closing a position at the market brings.
pub open spec fn closing(
    settings: Settings,
    pos: Position,
    metrics: Metrics,
    reason: ExitReason,
    now: Double,
) -> TradeResult {
    let fill = execution::exit_filled(settings, pos.side, metrics.bid, metrics.ask, pos.quantity);
    let (gross, net) = execution::pnl(
        pos.side,
        pos.entry,
        fill.price,
        pos.quantity,
        pos.entry_fee,
        fill.fee,
    );
    TradeResult {
        side: pos.side,
        entry: pos.entry,
        exit: fill.price,
        pnl: net,
        gross_pnl: gross,
        fees: pos.entry_fee.add(fill.fee),
        slippage_cost: pos.entry_slippage_cost.add(fill.slippage_cost),
        reason,
        opened_at: pos.opened_at,
        closed_at: now,
        mfe: pos.mfe,
        mae: pos.mae,
        signal_snapshot: pos.signal_snapshot,
        exit_snapshot: ExitSnapshot {
            bid: metrics.bid,
            ask: metrics.ask,
            imbalance: metrics.imbalance,
            flow: metrics.flow,
        },
    }
}

/// When a symbol may be traded again after a result; losses wait longer.
pub open spec fn cooldown_end(settings: Settings, result: TradeResult) -> Double {
    result.closed_at.add(
        if result.pnl.lt(Double::zero()) {
            settings.loss_cooldown_seconds
        } else {
            settings.cooldown_seconds
        },
    )
}

pub fn cooldown_until(settings: &Settings, result: &TradeResult) -> (r: Double)
    ensures
        r == cooldown_end(*settings, *result),
{
    result.closed_at.add(
        if result.pnl.lt(Double::zero()) {
            settings.loss_cooldown_seconds
        } else {
            settings.cooldown_seconds
        },
    )
}

/// What one look at an open position leaves behind: the position or its result, and a
/// line for the log.
#[derive(Clone, Copy, Debug, PartialEq, Eq, Structural)]
pub struct ManageStep {
    pub position: Option<Position>,
    pub closed: Option<TradeResult>,
    pub notice: Option<Notice>,
}

pub open spec fn closed_step(
    settings: Settings,
    pos: Position,
    metrics: Metrics,
    reason: ExitReason,
    now: Double,
    detail: ExitDetail,
) -> ManageStep {
    let result = closing(settings, pos, metrics, reason, now);
    ManageStep {
        position: None,
        closed: Some(result),
        notice: Some(Notice::Exit { result, detail }),
    }
}

fn close_position(
    settings: &Settings,
    pos: Position,
    metrics: &Metrics,
    reason: ExitReason,
    now: Double,
    detail: ExitDetail,
) -> (r: ManageStep)
    ensures
        r == closed_step(*settings, pos, *metrics, reason, now, detail),
{
    let fill = execution::exit_fill(settings, pos.side, metrics.bid, metrics.ask, pos.quantity);
    let (gross, net) = execution::trade_pnl(
        pos.side,
        pos.entry,
        fill.price,
        pos.quantity,
        pos.entry_fee,
        fill.fee,
    );
    let result = TradeResult {
        side: pos.side,
        entry: pos.entry,
        exit: fill.price,
        pnl: net,
        gross_pnl: gross,
        fees: pos.entry_fee.add(fill.fee),
        slippage_cost: pos.entry_slippage_cost.add(fill.slippage_cost),
        reason,
        opened_at: pos.opened_at,
        closed_at: now,
        mfe: pos.mfe,
        mae: pos.mae,
        signal_snapshot: pos.signal_snapshot,
        exit_snapshot: ExitSnapshot {
            bid: metrics.bid,
            ask: metrics.ask,
            imbalance: metrics.imbalance,
            flow: metrics.flow,
        },
    };
    ManageStep {
        position: None,
        closed: Some(result),
        notice: Some(Notice::Exit { result, detail }),
    }
}

/// The result so far in multiples of the risk; zero without risk.
pub open spec fn multiple_now(pos: Position, price: Double) -> Double {
    if pos.risk_per_unit.gt(Double::zero()) {
        price.sub(pos.entry).mul(pos.side.direction()).div(pos.risk_per_unit)
    } else {
        Double::zero()
    }
}

/// The price is at the stop or beyond.
pub open spec fn stopped(pos: Position, price: Double) -> bool {
    match pos.side {
        Side::Long => price.le(pos.stop_price),
        Side::Short => price.ge(pos.stop_price),
    }
}

/// The price is at the target or beyond.
pub open spec fn reached(pos: Position, price: Double) -> bool {
    match pos.side {
        Side::Long => price.ge(pos.target_price),
        Side::Short => price.le(pos.target_price),
    }
}

/// How many looks in a row the tape has run against a position.
pub open spec fn opposed(pos: Position, metrics: Metrics) -> u32 {
    let against = match pos.side {
        Side::Long => metrics.tape.sell_accelerating,
        Side::Short => metrics.tape.buy_accelerating,
    };
    if against {
        pos.reversal_streak.wrapping_add(1)
    } else {
        0
    }
}

/// The looks in a row that an opposing tape has to last.
pub const REVERSAL_CONFIRM_TICKS: u32 = 3;

/// The best multiple of the risk that a position has seen.
pub open spec fn peak_multiple(pos: Position) -> Double {
    pos.peak_return.mul(pos.entry).div(pos.risk_per_unit)
}

/// The trailing exit: enough was reached, and enough of it was given back.
pub open spec fn trails(settings: Settings, pos: Position, r_now: Double) -> bool {
    &&& pos.risk_per_unit.gt(Double::zero())
    &&& peak_multiple(pos).ge(settings.trail_arm_r)
    &&& r_now.le(peak_multiple(pos).sub(settings.trail_giveback_r))
}

pub open spec fn status_of(
    pos: Position,
    metrics: Metrics,
    gross: Double,
    r_now: Double,
    now: Double,
) -> PositionStatus {
    let hundred = Double::whole(100);
    PositionStatus {
        side: pos.side,
        held: now.sub(pos.opened_at),
        mid: metrics.mid,
        return_pct: gross.mul(hundred),
        unrealized: pos.unrealized,
        peak_pct: pos.peak_return.mul(hundred),
        flow_pct: match pos.side {
            Side::Long => metrics.tape.buy_dominance,
            Side::Short => metrics.tape.sell_dominance,
        }.mul(hundred),
        imbalance: metrics.imbalance,
        spread: metrics.spread,
        breakeven_armed: pos.breakeven_armed,
        r_now,
        stop_price: pos.stop_price,
    }
}

/// One look at an open position. In this order it is closed at the stop, at the target, at
/// break-even once that is armed, by a tape that opposes it for long enough, or by the
/// trailing exit; else it stays, and its state is logged every five seconds.
pub open spec fn manage_step(
    settings: Settings,
    pos: Position,
    metrics: Metrics,
    now: Double,
) -> ManageStep {
    let price = executable(pos.side, metrics);
    let seen = marked(settings, pos, metrics);
    let r_now = multiple_now(seen, price);
    let armed = seen.breakeven_armed || r_now.ge(settings.breakeven_arm_r);
    let kept = Position {
        breakeven_armed: armed,
        reversal_streak: opposed(seen, metrics),
        ..seen
    };
    if stopped(seen, price) {
        closed_step(
            settings,
            seen,
            metrics,
            ExitReason::StructuralStop,
            now,
            ExitDetail::Nothing,
        )
    } else if reached(seen, price) {
        closed_step(
            settings,
            seen,
            metrics,
            ExitReason::Target,
            now,
            ExitDetail::Target { multiple: settings.alternative_target_r_multiple },
        )
    } else if armed && r_now.le(Double::ratio(12, 100)) {
        closed_step(settings, seen, metrics, ExitReason::Breakeven, now, ExitDetail::Nothing)
    } else if kept.reversal_streak >= REVERSAL_CONFIRM_TICKS && now.sub(seen.opened_at).ge(
        Double::whole(3),
    ) {
        closed_step(
            settings,
            seen,
            metrics,
            ExitReason::FlowInvalidation,
            now,
            ExitDetail::Reversal { ticks: kept.reversal_streak },
        )
    } else if trails(settings, seen, r_now) {
        closed_step(
            settings,
            seen,
            metrics,
            ExitReason::Trail,
            now,
            ExitDetail::Trail { peak_r: peak_multiple(seen), now_r: r_now },
        )
    } else if now.sub(seen.last_status_log).ge(Double::whole(5)) {
        ManageStep {
            position: Some(Position { last_status_log: now, ..kept }),
            closed: None,
            notice: Some(
                Notice::Status(status_of(kept, metrics, return_at(pos, price), r_now, now)),
            ),
        }
    } else {
        ManageStep { position: Some(kept), closed: None, notice: None }
    }
}

/// Looks at an open position once.
pub fn manage_position(settings: &Settings, pos: Position, metrics: &Metrics, now: Double) -> (r:
    ManageStep)
    ensures
        r == manage_step(*settings, pos, *metrics, now),
{
    let zero = Double::zero();
    let seen = mark_position(settings, pos, metrics);
    let price = seen.mark;
    let gross_return = position_return(&pos, price);
    let r_now = if seen.risk_per_unit.gt(zero) {
        price.sub(seen.entry).mul(seen.side.direction()).div(seen.risk_per_unit)
    } else {
        zero
    };
    let (stop_hit, target_hit, tape_reversed, flow) = match seen.side {
        Side::Long => (
            price.le(seen.stop_price),
            price.ge(seen.target_price),
            metrics.tape.sell_accelerating,
            metrics.tape.buy_dominance,
        ),
        Side::Short => (
            price.ge(seen.stop_price),
            price.le(seen.target_price),
            metrics.tape.buy_accelerating,
            metrics.tape.sell_dominance,
        ),
    };
    if stop_hit {
        return close_position(
            settings,
            seen,
            metrics,
            ExitReason::StructuralStop,
            now,
            ExitDetail::Nothing,
        );
    }
    if target_hit {
        let detail = ExitDetail::Target { multiple: settings.alternative_target_r_multiple };
        return close_position(settings, seen, metrics, ExitReason::Target, now, detail);
    }
    let mut kept = seen;
    if r_now.ge(settings.breakeven_arm_r) {
        kept.breakeven_armed = true;
    }
    if kept.breakeven_armed && r_now.le(Double::ratio(12, 100)) {
        return close_position(
            settings,
            seen,
            metrics,
            ExitReason::Breakeven,
            now,
            ExitDetail::Nothing,
        );
    }
    kept.reversal_streak = if tape_reversed {
        seen.reversal_streak.wrapping_add(1)
    } else {
        0
    };
    if kept.reversal_streak >= REVERSAL_CONFIRM_TICKS && now.sub(seen.opened_at).ge(
        Double::whole(3),
    ) {
        let detail = ExitDetail::Reversal { ticks: kept.reversal_streak };
        return close_position(settings, seen, metrics, ExitReason::FlowInvalidation, now, detail);
    }
    if seen.risk_per_unit.gt(zero) {
        let peak_r = seen.peak_return.mul(seen.entry).div(seen.risk_per_unit);
        if peak_r.ge(settings.trail_arm_r) && r_now.le(peak_r.sub(settings.trail_giveback_r)) {
            let detail = ExitDetail::Trail { peak_r, now_r: r_now };
            return close_position(settings, seen, metrics, ExitReason::Trail, now, detail);
        }
    }
    if now.sub(seen.last_status_log).ge(Double::whole(5)) {
        let hundred = Double::whole(100);
        let status = PositionStatus {
            side: kept.side,
            held: now.sub(kept.opened_at),
            mid: metrics.mid,
            return_pct: gross_return.mul(hundred),
            unrealized: kept.unrealized,
            peak_pct: kept.peak_return.mul(hundred),
            flow_pct: flow.mul(hundred),
            imbalance: metrics.imbalance,
            spread: metrics.spread,
            breakeven_armed: kept.breakeven_armed,
            r_now,
            stop_price: kept.stop_price,
        };
        kept.last_status_log = now;
        return ManageStep {
            position: Some(kept),
            closed: None,
            notice: Some(Notice::Status(status)),
        };
    }
    ManageStep { position: Some(kept), closed: None, notice: None }
}

/// One look at an open position either keeps it or closes it, never both and never
/// neither; a position at its stop is always closed, and for that reason.
pub proof fn a_position_is_kept_or_closed(
    settings: Settings,
    pos: Position,
    metrics: Metrics,
    now: Double,
)
    ensures
        ({
            let step = manage_step(settings, pos, metrics, now);
            &&& step.position is Some <==> step.closed is None
            &&& stopped(pos, executable(pos.side, metrics)) ==> step.closed is Some && (
            step.closed->0).reason == ExitReason::StructuralStop
            &&& step.position is Some ==> {
                let kept = step.position->0;
                &&& kept.side == pos.side
                &&& kept.entry == pos.entry
                &&& kept.quantity == pos.quantity
                &&& kept.stop_price == pos.stop_price
                &&& kept.target_price == pos.target_price
                &&& kept.opened_at == pos.opened_at
                &&& pos.breakeven_armed ==> kept.breakeven_armed
            }
            &&& step.closed is Some ==> {
                let result = step.closed->0;
                &&& result.side == pos.side
                &&& result.entry == pos.entry
                &&& result.opened_at == pos.opened_at
                &&& result.closed_at == now
            }
        }),
{
}

} // verus!

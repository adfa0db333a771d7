use pulsebook::brain::{BtcTrend, Metrics, Tape};
use pulsebook::config::Settings;
use pulsebook::double::Double;
use pulsebook::engine::{brain_pass, evaluate_symbol};
use pulsebook::models::{
    Absorption, ExitReason, Level, OrderBook, PendingSignal, Position, Side, SignalSnapshot,
    TrendDirection, WallSide,
};
use pulsebook::notices::publish;
use pulsebook::state::MarketState;
use pulsebook::table::Table;
use pulsebook::trading::{
    attempt_entry, cooldown_until, manage_position, Account, EntryPath, EntryStep, ExitDetail,
    Notice, Reason,
};

fn d(x: f64) -> Double {
    Double::from_bits(x.to_bits())
}

fn f(x: Double) -> f64 {
    f64::from_bits(x.to_bits())
}

fn settings() -> Settings {
    let mut s = Settings::new(&Table::new());
    s.max_spread_pct = d(0.1);
    s.taker_fee_pct = d(0.00055);
    s.slippage_pct = d(0.0002);
    s.cost_safety_multiplier = d(1.25);
    s.account_equity = d(10_000.0);
    s.risk_per_trade_pct = d(0.0025);
    s.max_position_notional = d(5_000.0);
    s.max_open_positions = 2;
    s.max_daily_loss_pct = d(0.015);
    s.max_consecutive_losses = 4;
    s.cooldown_seconds = d(20.0);
    s.loss_cooldown_seconds = d(90.0);
    s.breakeven_arm_r = d(5.0);
    s.trail_arm_r = d(5.0);
    s.trail_giveback_r = d(0.3);
    s.alternative_signal_expiry_seconds = d(8.0);
    s.alternative_retest_tolerance_pct = d(0.0008);
    s.alternative_retest_hold_ticks = 2;
    s.alternative_min_confluence_score = 85;
    s.alternative_min_net_reward_risk = d(0.1);
    s.alternative_target_r_multiple = d(1.8);
    s.alternative_min_stop_pct = d(0.002);
    s.alternative_max_stop_pct = d(0.0075);
    s.alternative_structure_buffer_pct = d(0.0008);
    s
}

fn tape(buy: bool, sell: bool) -> Tape {
    Tape {
        buy_dominance: d(0.8),
        sell_dominance: d(0.2),
        buy_acceleration: d(4.0),
        sell_acceleration: d(0.0),
        current_buy_notional: d(4_000.0),
        current_sell_notional: d(1_000.0),
        previous_buy_notional: d(1_000.0),
        previous_sell_notional: d(0.0),
        buy_baseline_valid: true,
        sell_baseline_valid: false,
        buy_accelerating: buy,
        sell_accelerating: sell,
    }
}

fn metrics(bid: f64, ask: f64) -> Metrics {
    Metrics {
        imbalance: d(0.6),
        strongest_bid_wall: None,
        strongest_ask_wall: None,
        wall_threshold: d(10.0),
        flow: d(0.7),
        bid: d(bid),
        ask: d(ask),
        mid: d((bid + ask) / 2.0),
        spread: d((ask - bid) / bid * 100.0),
        freshness: d(0.5),
        tape: tape(true, false),
    }
}

fn absorption(side: WallSide) -> Absorption {
    Absorption {
        side,
        price: d(100.0),
        initial_size: d(50.0),
        current_size: d(5.0),
        depleted_quantity: d(45.0),
        depletion_ratio: d(0.9),
        executed_quantity: d(45.0),
        matched_ratio: d(1.0),
        verified_for: d(4.0),
        absorbed: true,
    }
}

fn trend() -> BtcTrend {
    BtcTrend {
        ready: true,
        direction: TrendDirection::Up,
        change_pct: d(0.001),
        coverage: d(50.0),
    }
}

fn free() -> Account {
    Account { open_positions: 0, daily_pnl: d(0.0), losing_streak: false }
}

fn attempt(
    s: &Settings,
    account: Account,
    pending: Option<PendingSignal>,
    now: f64,
    m: &Metrics,
) -> EntryStep {
    let wall = absorption(WallSide::Ask);
    attempt_entry(s, account, pending, Side::Long, d(now), m, &wall, true, trend(), 7)
}

fn waiting(s: &Settings) -> PendingSignal {
    attempt(s, free(), None, 10.0, &metrics(99.99, 100.0)).pending.unwrap()
}

#[test]
fn a_setup_is_qualified_broken_retested_and_entered() {
    let s = settings();
    let step = attempt(&s, free(), None, 10.0, &metrics(99.99, 100.0));
    assert_eq!(step.path, EntryPath::Qualified);
    assert_eq!(step.score, 100);
    assert_eq!(step.notice, Some(Notice::Setup { side: Side::Long, score: 100 }));
    assert!(step.position.is_none());

    let step = attempt(&s, free(), step.pending, 10.5, &metrics(100.0, 100.01));
    assert_eq!(step.path, EntryPath::Waiting { newly_broken: false });
    let step = attempt(&s, free(), step.pending, 11.0, &metrics(100.03, 100.04));
    assert_eq!(step.path, EntryPath::Waiting { newly_broken: true });
    assert_eq!(step.pending.unwrap().hold_ticks, 1);
    let step = attempt(&s, free(), step.pending, 11.5, &metrics(100.5, 100.51));
    assert_eq!(step.pending.unwrap().hold_ticks, 0);
    let step = attempt(&s, free(), step.pending, 12.0, &metrics(100.03, 100.04));
    let step = attempt(&s, free(), step.pending, 12.5, &metrics(100.03, 100.04));
    assert_eq!(step.path, EntryPath::Entered { newly_broken: false });
    assert!(step.pending.is_none());

    let pos = step.position.unwrap();
    let stop = 100.0 * (1.0 - 0.002);
    let risk = (100.04_f64 - stop).abs();
    assert_eq!(f(pos.stop_price), stop);
    assert_eq!(f(pos.target_price), 100.04 + risk * 1.8 * 1.0);
    assert_eq!(f(pos.quantity), (10_000.0 * 0.0025 / risk).min(5_000.0 / 100.04));
    assert_eq!(f(pos.entry), 100.04 * (1.0 + 0.0002));
    assert_eq!(pos.signal_snapshot.sequence, 7);
    let setup = step.setup.unwrap();
    assert!(!setup.rejected);
    assert_eq!(f(setup.stop_pct), risk / 100.04 * 100.0);
    assert_eq!(setup.score_breakdown.btc_alignment, 20);
}

#[test]
fn a_retest_that_does_not_pay_is_rejected() {
    let mut s = settings();
    s.alternative_min_net_reward_risk = d(1.35);
    s.alternative_retest_hold_ticks = 1;
    let step = attempt(&s, free(), Some(waiting(&s)), 11.0, &metrics(100.03, 100.04));
    assert_eq!(step.path, EntryPath::Unprofitable { newly_broken: true });
    assert!(step.position.is_none() && step.pending.is_none());
    let net_rr = step.setup.unwrap().net_rr;
    assert_eq!(step.notice, Some(Notice::Rejected(Reason::RewardRisk { net_rr })));
    assert!(f(net_rr) < 1.35);
}

#[test]
fn breakers_and_weak_or_old_setups_open_nothing() {
    let s = settings();
    let m = metrics(100.03, 100.04);
    let kept = Some(waiting(&s));
    let cases = [
        (Account { open_positions: 2, ..free() }, Reason::PositionLimit),
        (Account { daily_pnl: d(-150.0), ..free() }, Reason::DailyLoss),
        (Account { losing_streak: true, ..free() }, Reason::LossStreak),
    ];
    for (account, reason) in cases {
        let step = attempt(&s, account, kept, 11.0, &m);
        assert_eq!(step.path, EntryPath::Barred);
        assert_eq!(step.notice, Some(Notice::Rejected(reason)));
        assert_eq!(step.pending, kept);
    }
    let weak = Metrics { imbalance: d(0.5), ..m };
    let step = attempt(&s, free(), kept, 11.0, &weak);
    assert_eq!(step.path, EntryPath::Weak);
    let reason = Reason::Confluence { score: 75, needed: 85 };
    assert_eq!(step.notice, Some(Notice::Rejected(reason)));
    assert_eq!(reason.text(), "confluence 75/100 below 85");

    let step = attempt(&s, free(), kept, 18.5, &m);
    assert_eq!(step.path, EntryPath::Expired);
    assert_eq!(step.notice, Some(Notice::Rejected(Reason::Expired)));
    assert!(step.pending.is_none());

    let down = Metrics { imbalance: d(0.4), tape: tape(false, true), ..m };
    let step = attempt_entry(
        &s,
        free(),
        kept,
        Side::Short,
        d(11.0),
        &down,
        &absorption(WallSide::Bid),
        true,
        trend(),
        7,
    );
    assert_eq!(step.path, EntryPath::Qualified);
    assert_eq!(step.pending.unwrap().side, Side::Short);
}

fn long() -> Position {
    Position {
        side: Side::Long,
        entry: d(100.0),
        quantity: d(2.0),
        opened_at: d(10.0),
        mark: d(100.0),
        stop_price: d(99.0),
        target_price: d(102.0),
        risk_per_unit: d(1.0),
        entry_fee: d(0.11),
        entry_slippage_cost: d(0.04),
        signal_snapshot: SignalSnapshot {
            wall: d(100.0),
            score: 90,
            imbalance: d(0.6),
            flow: d(0.7),
            btc_trend: TrendDirection::Up,
            spread_pct: d(0.01),
            cost_pct: d(0.002),
            net_rr: d(1.5),
            sequence: 7,
        },
        unrealized: d(0.0),
        breakeven_armed: false,
        peak_return: d(0.0),
        trough_return: d(0.0),
        mfe: d(0.0),
        mae: d(0.0),
        reversal_streak: 0,
        last_status_log: d(10.0),
    }
}

#[test]
fn a_position_is_closed_at_its_stop_or_target() {
    let s = settings();
    let step = manage_position(&s, long(), &metrics(99.0, 99.01), d(14.0));
    assert!(step.position.is_none());
    let result = step.closed.unwrap();
    assert_eq!(result.reason, ExitReason::StructuralStop);
    let exit = 99.0 * (1.0 - 0.0002);
    let fee = exit * 2.0 * 0.00055;
    assert_eq!(f(result.exit), exit);
    assert_eq!(f(result.fees), 0.11 + fee);
    assert_eq!(f(result.gross_pnl), (exit - 100.0) * 2.0);
    assert!(f(result.pnl) < f(result.gross_pnl));
    assert_eq!(f(cooldown_until(&s, &result)), 14.0 + 90.0);

    let step = manage_position(&s, long(), &metrics(102.0, 102.01), d(14.0));
    let result = step.closed.unwrap();
    assert_eq!(result.reason, ExitReason::Target);
    let detail = ExitDetail::Target { multiple: d(1.8) };
    assert_eq!(step.notice, Some(Notice::Exit { result, detail }));
    assert_eq!(detail.text(), " · target 1.8R reached");
    assert_eq!(f(cooldown_until(&s, &result)), 14.0 + 20.0);

    let short = Position {
        side: Side::Short,
        stop_price: d(101.0),
        target_price: d(98.0),
        ..long()
    };
    let step = manage_position(&s, short, &metrics(100.99, 101.0), d(14.0));
    assert_eq!(step.closed.unwrap().reason, ExitReason::StructuralStop);
    let step = manage_position(&s, short, &metrics(97.99, 98.0), d(14.0));
    assert_eq!(step.closed.unwrap().reason, ExitReason::Target);
}

#[test]
fn a_position_that_gave_back_its_gain_breaks_even() {
    let mut s = settings();
    s.breakeven_arm_r = d(0.8);
    let kept = manage_position(&s, long(), &metrics(101.0, 101.01), d(12.0)).position.unwrap();
    assert!(kept.breakeven_armed);
    assert_eq!(f(kept.mark), 101.0);
    assert_eq!(f(kept.peak_return), (101.0 - 100.0) / 100.0);
    let step = manage_position(&s, kept, &metrics(100.1, 100.11), d(13.0));
    assert_eq!(step.closed.unwrap().reason, ExitReason::Breakeven);
    let step = manage_position(&s, long(), &metrics(100.1, 100.11), d(13.0));
    assert!(step.closed.is_none());
}

#[test]
fn a_tape_that_stays_against_a_position_closes_it() {
    let s = settings();
    let against = Metrics { tape: tape(false, true), ..metrics(100.2, 100.21) };
    let first = manage_position(&s, long(), &against, d(12.0)).position.unwrap();
    let second = manage_position(&s, first, &against, d(12.5)).position.unwrap();
    assert_eq!(second.reversal_streak, 2);
    let early = manage_position(&s, second, &against, d(12.9)).position.unwrap();
    assert_eq!(early.reversal_streak, 3);
    let step = manage_position(&s, early, &against, d(13.0));
    let result = step.closed.unwrap();
    assert_eq!(result.reason, ExitReason::FlowInvalidation);
    let detail = ExitDetail::Reversal { ticks: 4 };
    assert_eq!(step.notice, Some(Notice::Exit { result, detail }));
    let with = manage_position(&s, second, &metrics(100.2, 100.21), d(12.9)).position.unwrap();
    assert_eq!(with.reversal_streak, 0);
}

#[test]
fn a_gain_is_trailed() {
    let mut s = settings();
    s.trail_arm_r = d(0.9);
    let kept = manage_position(&s, long(), &metrics(101.0, 101.01), d(12.0)).position.unwrap();
    let step = manage_position(&s, kept, &metrics(100.75, 100.76), d(12.5));
    assert!(step.closed.is_none());
    let step = manage_position(&s, kept, &metrics(100.5, 100.51), d(13.0));
    let result = step.closed.unwrap();
    assert_eq!(result.reason, ExitReason::Trail);
    let detail = ExitDetail::Trail { peak_r: d(1.0), now_r: d(0.5) };
    assert_eq!(step.notice, Some(Notice::Exit { result, detail }));
    assert_eq!(detail.text(), " · peak 1.00R → 0.50R");
}

#[test]
fn an_open_position_is_logged_every_five_seconds() {
    let s = settings();
    let m = metrics(100.5, 100.51);
    assert!(manage_position(&s, long(), &m, d(14.9)).notice.is_none());
    let step = manage_position(&s, long(), &m, d(15.0));
    assert_eq!(f(step.position.unwrap().last_status_log), 15.0);
    let unrealized = (100.5 - 100.0) * 2.0 - 0.11 - 100.5 * 2.0 * 0.00055;
    assert!((f(step.position.unwrap().unrealized) - unrealized).abs() < 1e-12);
    assert_eq!(
        step.notice.unwrap().text(),
        format!(
            "LONG 5s · mark {:.6} (+0.500%) · uPnL {:+.2} USDT · peak +0.500% · flow-with-us 80% · imb 0.60 · spread {:.3}% · +0.50R · stop 99.000000",
            (100.5 + 100.51) / 2.0,
            unrealized,
            (100.51 - 100.5) / 100.5 * 100.0,
        )
    );
}

#[test]
fn notices_become_log_lines() {
    let mut market = MarketState::new(d(0.0));
    let entry = Notice::Entry {
        side: Side::Short,
        price: d(1.5),
        stop: d(1.6),
        target: d(1.25),
        risk: d(25.0),
        score: 95,
        net_rr: d(1.4),
    };
    publish(&mut market.journal, "A", Some(entry), d(100.0));
    assert_eq!(market.journal.logs[0].level, "ENTRY");
    assert_eq!(
        market.journal.logs[0].message,
        "Paper SHORT @ 1.500000 · stop 1.600000 · target 1.250000 · risk 25.00 USDT · breakout-retest · score 95/100 · net R/R 1.40"
    );
    let result = manage_position(&settings(), long(), &metrics(99.0, 99.01), d(14.0)).closed;
    let exit = Notice::Exit { result: result.unwrap(), detail: ExitDetail::Nothing };
    publish(&mut market.journal, "A", Some(exit), d(101.0));
    assert_eq!(market.journal.logs[0].level, "EXIT");
    let line = &market.journal.logs[0].message;
    assert!(line.starts_with("STRUCTURAL STOP [LOSS] LONG · net -2."));
    assert!(line.contains(" · held 4.0s · MFE +0.00 / MAE -2."));
    let setup = Notice::Setup { side: Side::Long, score: 100 };
    publish(&mut market.journal, "A", Some(setup), d(102.0));
    assert_eq!(market.journal.logs[0].level, "SETUP");
    let rejected = Notice::Rejected(Reason::RewardRisk { net_rr: d(0.5) });
    publish(&mut market.journal, "A", Some(rejected), d(103.0));
    assert_eq!(market.journal.logs[0].message, "ENTRY REJECTED · after-cost R/R 0.50");
    publish(&mut market.journal, "A", Some(Notice::Skipped(Reason::StaleBook)), d(104.0));
    assert_eq!(market.journal.logs[0].message, "TIMEOUT / SKIPPED · stale book");
    publish(&mut market.journal, "A", Some(Notice::Skipped(Reason::StaleBook)), d(105.0));
    assert_eq!(market.journal.logs.len(), 5);
    publish(&mut market.journal, "A", None, d(106.0));
    assert_eq!(market.journal.logs.len(), 5);
}

fn book(bid: f64, ask: f64, clock: f64) -> OrderBook {
    let mut book = OrderBook::new();
    let bids: Vec<Level> = vec![(d(bid), d(6.0))];
    let asks: Vec<Level> = vec![(d(ask), d(4.0))];
    assert!(book.apply("snapshot", &bids, &asks, 1, d(clock)));
    book
}

#[test]
fn a_look_touches_one_symbol_only() {
    let s = settings();
    let mut market = MarketState::new(d(0.0));
    market.books.insert("A", book(98.5, 98.51, 20.0));
    market.books.insert("B", book(98.5, 98.51, 20.0));
    market.positions.insert("A", long());
    market.positions.insert("B", long());
    let look = evaluate_symbol(&mut market, &s, "A", d(20.5), d(20.5)).unwrap();
    assert_eq!(look.managed.unwrap().closed.unwrap().reason, ExitReason::StructuralStop);
    assert!(!market.positions.contains("A"));
    assert_eq!(market.positions.get("B"), Some(&long()));
    assert_eq!(market.closed.len(), 1);
    assert_eq!(market.closed[0].symbol, "A");
    assert_eq!(market.cooldowns.get("A").map(|t| f(*t)), Some(20.5 + 90.0));
    assert!(!market.metrics.contains("B"));
    let look = evaluate_symbol(&mut market, &s, "A", d(21.0), d(21.0)).unwrap();
    assert!(look.managed.is_none() && look.entry.is_none());
}

#[test]
fn a_pass_opens_no_more_positions_than_allowed() {
    let mut s = settings();
    s.alternative_min_confluence_score = 0;
    s.alternative_retest_hold_ticks = 1;
    s.max_open_positions = 1;
    let mut market = MarketState::new(d(0.0));
    let pending = PendingSignal { broken: true, created: d(19.0), ..waiting(&s) };
    for symbol in ["A", "B"] {
        market.books.insert(symbol, book(100.03, 100.04, 20.0));
        market.pending_signals.insert(symbol, pending);
    }
    let session = market.session;
    brain_pass(&mut market, &s, session, d(20.5), d(20.5));
    assert_eq!(market.positions.len(), 1);
    assert!(market.positions.contains("A"));
    assert!(market.pending_signals.contains("B"));
    assert_eq!(market.journal.reject_counts.get("portfolio position limit"), Some(&1));
}

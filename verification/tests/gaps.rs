use pulsebook::config::Settings;
use pulsebook::double::Double;
use pulsebook::models::{Side, TradeTick};
use pulsebook::mtf_fvg::{
    detect_at, next_boundary, Candle, FvgZone, MtfBars, MtfConfig, MtfPhase, MtfSetup, Quality,
    Timeframe, ZoneId,
};
use pulsebook::mtf_tracker::MtfFvgTracker;
use pulsebook::table::Table;
use std::collections::VecDeque;

fn d(x: f64) -> Double {
    Double::from_bits(x.to_bits())
}

fn f(x: Double) -> f64 {
    f64::from_bits(x.to_bits())
}

fn candle(tf: Timeframe, started_at: i64, open: f64, high: f64, low: f64, close: f64) -> Candle {
    Candle {
        timeframe: tf,
        started_at,
        open: d(open),
        high: d(high),
        low: d(low),
        close: d(close),
        volume: d(1.0),
        trades: 1,
    }
}

#[test]
fn tick_updates_all_three_timeframes() {
    let mut bars = MtfBars::default();
    bars.update(&TradeTick { timestamp: d(901.0), is_buy: true, price: d(100.0), size: d(2.0) });
    assert_eq!(bars.s5.back().unwrap().started_at, 900);
    assert_eq!(bars.m1.back().unwrap().started_at, 900);
    assert_eq!(bars.m15.back().unwrap().started_at, 900);
}

#[test]
fn non_consecutive_candles_cannot_form_fvg() {
    let candles = vec![
        candle(Timeframe::M15, 0, 100.0, 101.0, 99.0, 100.0),
        candle(Timeframe::M15, 1800, 101.0, 105.0, 101.0, 104.0),
        candle(Timeframe::M15, 2700, 106.0, 107.0, 106.0, 107.0),
    ];
    let quality =
        Quality { min_gap_atr: d(0.0), min_displacement_atr: d(0.0), min_body_ratio: d(0.0) };
    assert!(detect_at(&candles, 2, quality).is_none());
}

fn baseline(tf: Timeframe, start: i64, count: usize, price: f64) -> Vec<Candle> {
    (0..count)
        .map(|index| {
            let open = price + (index % 2) as f64 * 0.1;
            candle(
                tf,
                start + index as i64 * tf.seconds(),
                open,
                open + 0.5,
                open - 0.5,
                open + 0.1,
            )
        })
        .collect()
}

fn test_config() -> MtfConfig {
    MtfConfig {
        m15_min_gap_atr: d(0.01),
        m15_min_displacement_atr: d(0.5),
        m15_min_body_ratio: d(0.5),
        m15_max_age_bars: 16,
        m1_min_gap_atr: d(0.01),
        m1_min_displacement_atr: d(0.5),
        m1_min_body_ratio: d(0.5),
        m1_confirmation_bars: 15,
        s5_min_gap_pct: d(0.0001),
        s5_min_body_ratio: d(0.5),
        s5_inversion_bars: 24,
        s5_retest_bars: 12,
        s5_entry_depth: d(0.5),
        invalidation_buffer_pct: d(0.001),
    }
}

fn zone(timeframe: Timeframe, side: Side, lower: f64, upper: f64, created_at: i64) -> FvgZone {
    FvgZone {
        id: ZoneId {
            timeframe,
            first_started_at: created_at - timeframe.seconds() * 3,
            third_started_at: created_at - timeframe.seconds(),
            side,
        },
        side,
        lower: d(lower),
        upper: d(upper),
        created_at,
        middle_range_atr: d(1.0),
        middle_body_ratio: d(0.8),
        gap_atr: d(0.2),
    }
}

#[test]
fn bullish_cascade_requires_touch_confirmation_inversion_and_later_retest() {
    let mut bars = MtfBars::default();
    let mut m15 = baseline(Timeframe::M15, 0, 14, 100.0);
    m15.extend([
        candle(Timeframe::M15, 12_600, 100.0, 101.0, 99.5, 100.5),
        candle(Timeframe::M15, 13_500, 100.5, 105.0, 100.3, 104.5),
        candle(Timeframe::M15, 14_400, 102.0, 104.0, 102.0, 103.5),
    ]);
    bars.seed(Timeframe::M15, &m15);

    let mut tracker = MtfFvgTracker::default();
    let config = test_config();
    tracker.advance(&bars, d(15_301.0), d(103.0), &config);
    assert_eq!(tracker.phase_name(), "WAIT_M15_TOUCH");
    tracker.advance(&bars, d(15_302.0), d(101.5), &config);
    assert_eq!(tracker.phase_name(), "WAIT_M1_CONFIRMATION");

    let mut m1 = baseline(Timeframe::M1, 14_520, 14, 101.0);
    m1.extend([
        candle(Timeframe::M1, 15_360, 101.0, 101.2, 100.8, 101.0),
        candle(Timeframe::M1, 15_420, 101.0, 104.0, 100.9, 103.8),
        candle(Timeframe::M1, 15_480, 102.0, 103.5, 102.0, 103.0),
    ]);
    bars.seed(Timeframe::M1, &m1);
    tracker.advance(&bars, d(15_541.0), d(103.0), &config);
    assert_eq!(tracker.phase_name(), "WAIT_S5_FVG");

    bars.seed(
        Timeframe::S5,
        &vec![
            candle(Timeframe::S5, 15_540, 104.0, 105.0, 103.5, 104.0),
            candle(Timeframe::S5, 15_545, 103.5, 103.8, 101.8, 102.0),
            candle(Timeframe::S5, 15_550, 102.2, 102.5, 101.5, 102.0),
        ],
    );
    tracker.advance(&bars, d(15_556.0), d(102.8), &config);
    assert_eq!(tracker.phase_name(), "WAIT_S5_INVERSION");

    bars.seed(
        Timeframe::S5,
        &vec![candle(Timeframe::S5, 15_555, 102.8, 104.2, 102.7, 104.0)],
    );
    tracker.advance(&bars, d(15_561.0), d(104.0), &config);
    assert_eq!(tracker.phase_name(), "WAIT_S5_RETEST");
    assert!(tracker.ready().is_none());

    bars.seed(
        Timeframe::S5,
        &vec![candle(Timeframe::S5, 15_560, 103.8, 104.0, 102.9, 103.2)],
    );
    tracker.advance(&bars, d(15_566.0), d(103.2), &config);
    assert_eq!(tracker.phase_name(), "ENTRY_READY");
    assert_eq!(tracker.ready().unwrap().side, Side::Long);
}

#[test]
fn bearish_cascade_reaches_entry_only_after_bullish_s5_fvg_fails() {
    let mut bars = MtfBars::default();
    let mut m15 = baseline(Timeframe::M15, 0, 14, 100.0);
    m15.extend([
        candle(Timeframe::M15, 12_600, 103.0, 104.0, 102.0, 103.0),
        candle(Timeframe::M15, 13_500, 103.0, 103.2, 98.0, 98.5),
        candle(Timeframe::M15, 14_400, 100.5, 101.0, 99.0, 99.5),
    ]);
    bars.seed(Timeframe::M15, &m15);
    let mut tracker = MtfFvgTracker::default();
    let config = test_config();
    tracker.advance(&bars, d(15_301.0), d(99.5), &config);
    tracker.advance(&bars, d(15_302.0), d(101.5), &config);
    assert_eq!(tracker.phase_name(), "WAIT_M1_CONFIRMATION");

    let mut m1 = baseline(Timeframe::M1, 14_520, 14, 101.0);
    m1.extend([
        candle(Timeframe::M1, 15_360, 102.0, 102.2, 101.8, 102.0),
        candle(Timeframe::M1, 15_420, 102.0, 102.1, 98.5, 98.8),
        candle(Timeframe::M1, 15_480, 100.5, 100.8, 99.0, 99.5),
    ]);
    bars.seed(Timeframe::M1, &m1);
    tracker.advance(&bars, d(15_541.0), d(99.5), &config);
    assert_eq!(tracker.phase_name(), "WAIT_S5_FVG");

    bars.seed(
        Timeframe::S5,
        &vec![
            candle(Timeframe::S5, 15_540, 99.0, 99.5, 98.5, 99.0),
            candle(Timeframe::S5, 15_545, 99.2, 101.2, 99.0, 101.0),
            candle(Timeframe::S5, 15_550, 100.5, 101.5, 100.5, 101.0),
        ],
    );
    tracker.advance(&bars, d(15_556.0), d(100.0), &config);
    assert_eq!(tracker.phase_name(), "WAIT_S5_INVERSION");
    bars.seed(
        Timeframe::S5,
        &vec![candle(Timeframe::S5, 15_555, 100.0, 100.1, 98.8, 99.0)],
    );
    tracker.advance(&bars, d(15_561.0), d(99.0), &config);
    assert_eq!(tracker.phase_name(), "WAIT_S5_RETEST");
    bars.seed(
        Timeframe::S5,
        &vec![candle(Timeframe::S5, 15_560, 99.2, 100.4, 99.0, 100.0)],
    );
    tracker.advance(&bars, d(15_566.0), d(100.0), &config);
    assert_eq!(tracker.phase_name(), "ENTRY_READY");
    assert_eq!(tracker.ready().unwrap().side, Side::Short);

    let report = tracker.snapshot();
    assert_eq!(report.phase, "ENTRY_READY");
    assert!(report.details.trigger.is_some());
    assert!(report.details.deadline.is_none());
    tracker.mark_entry_consumed();
    assert_eq!(tracker.phase_name(), "WAIT_M15_CONTEXT");
    assert_eq!(tracker.consumed_contexts.len(), 1);
    tracker.advance(&bars, d(15_567.0), d(99.5), &config);
    assert_eq!(tracker.phase_name(), "WAIT_M15_CONTEXT");
}

#[test]
fn s5_candidate_formed_before_m1_confirmation_is_rejected() {
    let context = zone(Timeframe::M15, Side::Long, 90.0, 95.0, 0);
    let confirmation = zone(Timeframe::M1, Side::Long, 96.0, 97.0, 100);
    let mut tracker = MtfFvgTracker {
        phase: MtfPhase::WaitingS5Candidate {
            context,
            confirmation,
            touched_at: 60,
            deadline: 220,
        },
        consumed_contexts: VecDeque::new(),
        last_reason: String::new(),
    };
    let mut bars = MtfBars::default();
    bars.seed(
        Timeframe::S5,
        &vec![
            candle(Timeframe::S5, 80, 102.0, 103.0, 101.0, 102.0),
            candle(Timeframe::S5, 85, 102.0, 102.2, 99.0, 99.5),
            candle(Timeframe::S5, 90, 99.0, 99.5, 98.0, 99.0),
        ],
    );
    tracker.advance(&bars, d(111.0), d(99.0), &test_config());
    assert_eq!(tracker.phase_name(), "WAIT_S5_FVG");
}

#[test]
fn far_edge_breach_wins_over_a_later_valid_retest() {
    let context = zone(Timeframe::M15, Side::Long, 90.0, 95.0, 0);
    let confirmation = zone(Timeframe::M1, Side::Long, 96.0, 97.0, 100);
    let trigger = zone(Timeframe::S5, Side::Short, 100.0, 101.0, 120);
    let mut tracker = MtfFvgTracker {
        phase: MtfPhase::WaitingS5Retest {
            context,
            confirmation,
            trigger,
            touched_at: 60,
            inverted_at: 125,
            deadline: 180,
        },
        consumed_contexts: VecDeque::new(),
        last_reason: String::new(),
    };
    let mut bars = MtfBars::default();
    bars.seed(
        Timeframe::S5,
        &vec![
            candle(Timeframe::S5, 130, 101.5, 101.6, 99.0, 101.2),
            candle(Timeframe::S5, 135, 101.3, 101.4, 100.4, 100.8),
        ],
    );
    tracker.advance(&bars, d(141.0), d(101.0), &test_config());
    assert_eq!(tracker.phase_name(), "WAIT_M15_CONTEXT");
    assert!(tracker.last_reason.contains("invalidated"));
}

#[test]
fn boundaries_are_multiples_of_the_timeframe() {
    assert_eq!(next_boundary(901, Timeframe::M15), 1800);
    assert_eq!(next_boundary(900, Timeframe::M15), 1800);
    assert_eq!(next_boundary(61, Timeframe::M1), 120);
    assert_eq!(next_boundary(-1, Timeframe::S5), 0);
    assert_eq!(Timeframe::S5.as_str(), "S5");
    assert_eq!(Timeframe::M15.seconds(), 900);
}

#[test]
fn a_disconnect_leaves_closed_candles_only() {
    let mut bars = MtfBars::default();
    for t in [100.0, 130.0, 965.0] {
        bars.update(&TradeTick { timestamp: d(t), is_buy: true, price: d(10.0), size: d(1.0) });
    }
    bars.handle_disconnect(d(970.0));
    assert!(bars.s5.is_empty());
    assert_eq!(bars.m1.iter().map(|c| c.started_at).collect::<Vec<i64>>(), vec![60, 120]);
    assert_eq!(bars.m15.iter().map(|c| c.started_at).collect::<Vec<i64>>(), vec![0]);
    assert_eq!(bars.valid_from, Some(970));
    bars.mark_history_valid();
    assert_eq!(bars.valid_from, None);
}

#[test]
fn three_candles_in_a_row_form_a_gap() {
    let mut candles = baseline(Timeframe::M15, 0, 14, 100.0);
    candles.extend([
        candle(Timeframe::M15, 12_600, 100.0, 101.0, 99.5, 100.5),
        candle(Timeframe::M15, 13_500, 100.5, 105.0, 100.3, 104.5),
        candle(Timeframe::M15, 14_400, 102.0, 104.0, 102.0, 103.5),
    ]);
    let quality =
        Quality { min_gap_atr: d(0.01), min_displacement_atr: d(0.5), min_body_ratio: d(0.5) };
    let zone = detect_at(&candles, 16, quality).unwrap();
    assert_eq!(zone.side, Side::Long);
    assert_eq!((f(zone.lower), f(zone.upper)), (101.0, 102.0));
    assert_eq!(zone.created_at, 15_300);
}

#[test]
fn a_rejected_setup_uses_its_context_up() {
    let mut bars = MtfBars::new();
    let mut m15 = baseline(Timeframe::M15, 0, 14, 100.0);
    m15.extend([
        candle(Timeframe::M15, 12_600, 100.0, 101.0, 99.5, 100.5),
        candle(Timeframe::M15, 13_500, 100.5, 105.0, 100.3, 104.5),
        candle(Timeframe::M15, 14_400, 102.0, 104.0, 102.0, 103.5),
    ]);
    bars.seed(Timeframe::M15, &m15);
    let config = test_config();
    let mut tracker = MtfFvgTracker::new();
    tracker.reject_ready("nothing to reject");
    assert_eq!(tracker.last_reason, "waiting for M15 context");
    tracker.advance(&bars, d(15_301.0), d(103.0), &config);
    assert_eq!(tracker.phase_name(), "WAIT_M15_TOUCH");
    let context = match tracker.phase {
        MtfPhase::WaitingContextTouch { context, .. } => context,
        _ => panic!("a context expected"),
    };
    tracker.phase = MtfPhase::Ready(MtfSetup {
        side: Side::Long,
        context,
        confirmation: zone(Timeframe::M1, Side::Long, 101.0, 102.0, 15_480),
        trigger: zone(Timeframe::S5, Side::Short, 102.0, 103.0, 15_550),
        context_touched_at: 15_302,
        inverted_at: 15_555,
        retested_at: 15_560,
        entry_deadline: 15_620,
        entry_level: d(102.5),
    });
    tracker.reject_ready("too wide");
    assert_eq!(tracker.phase_name(), "WAIT_M15_CONTEXT");
    assert_eq!(tracker.last_reason, "too wide");
    tracker.advance(&bars, d(15_303.0), d(103.0), &config);
    assert_eq!(tracker.phase_name(), "WAIT_M15_CONTEXT");
}

#[test]
fn the_settings_give_the_bounds_of_the_gaps() {
    let s = Settings::new(&Table::new());
    let config = MtfConfig::from(&s);
    assert_eq!(config.m15_min_gap_atr, s.fvg_m15_min_gap_atr);
    assert_eq!(config.m15_max_age_bars, s.fvg_m15_max_age_bars as i64);
    assert_eq!(config.s5_retest_bars, s.fvg_s5_retest_bars as i64);
    assert_eq!(config.invalidation_buffer_pct, s.fvg_stop_buffer_pct);
}

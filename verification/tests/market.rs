use pulsebook::brain::{
    book_metrics, btc_allows, btc_trend, record_btc_mid, update_wall_track, Status,
};
use pulsebook::config::Settings;
use pulsebook::detail::{build_symbol_detail, SymbolEvent};
use pulsebook::double::Double;
use pulsebook::engine::{brain_pass, evaluate_symbol};
use pulsebook::json::Json;
use pulsebook::models::{
    ClosedTrade, ExitReason, ExitSnapshot, Level, OrderBook, Side, SignalSnapshot, TradeResult,
    TradeTick, TrendDirection, WallSide, WallTrack,
};
use pulsebook::routes::{normalize_symbol, require_admin, symbol_room, AdminRefusal};
use pulsebook::standings::ProfitFactor;
use pulsebook::state::MarketState;
use pulsebook::table::Table;
use std::collections::VecDeque;

fn d(x: f64) -> Double {
    Double::from_bits(x.to_bits())
}

fn f(x: Double) -> f64 {
    f64::from_bits(x.to_bits())
}

fn settings() -> Settings {
    Settings::new(&Table::new())
}

fn levels(rows: &[(f64, f64)]) -> Vec<Level> {
    rows.iter().map(|(price, size)| (d(*price), d(*size))).collect()
}

fn book(bids: &[(f64, f64)], asks: &[(f64, f64)], clock: f64) -> OrderBook {
    let mut book = OrderBook::new();
    assert!(book.apply("snapshot", &levels(bids), &levels(asks), 1, d(clock)));
    book
}

fn tick(timestamp: f64, is_buy: bool, price: f64, size: f64) -> TradeTick {
    TradeTick { timestamp: d(timestamp), is_buy, price: d(price), size: d(size) }
}

fn closed(symbol: &str, pnl: f64, reason: ExitReason, closed_at: f64) -> ClosedTrade {
    ClosedTrade {
        symbol: symbol.to_string(),
        result: TradeResult {
            side: Side::Long,
            entry: d(100.0),
            exit: d(101.0),
            pnl: d(pnl),
            gross_pnl: d(pnl + 0.5),
            fees: d(0.5),
            slippage_cost: d(0.0),
            reason,
            opened_at: d(closed_at - 10.0),
            closed_at: d(closed_at),
            mfe: d(1.0),
            mae: d(-1.0),
            signal_snapshot: SignalSnapshot {
                wall: d(100.0),
                score: 90,
                imbalance: d(0.6),
                flow: d(0.7),
                btc_trend: TrendDirection::Up,
                spread_pct: d(0.01),
                cost_pct: d(0.002),
                net_rr: d(1.5),
                sequence: 7,
            },
            exit_snapshot: ExitSnapshot {
                bid: d(101.0),
                ask: d(101.1),
                imbalance: d(0.5),
                flow: d(0.5),
            },
        },
    }
}

#[test]
fn metrics_follow_the_book() {
    let book = book(&[(100.0, 2.0), (99.0, 6.0)], &[(101.0, 2.0), (102.0, 2.0)], 10.0);
    let m = book_metrics(&settings(), &book, &VecDeque::new(), d(10.5));
    assert_eq!(f(m.bid), 100.0);
    assert_eq!(f(m.ask), 101.0);
    assert_eq!(f(m.mid), 100.5);
    assert_eq!(f(m.imbalance), 8.0 / 12.0);
    assert_eq!(f(m.spread), 1.0 / 100.0 * 100.0);
    assert_eq!(f(m.freshness), 0.5);
}

#[test]
fn a_wall_is_absorbed_when_trades_eat_it() {
    let before = book(&[(99.0, 1.0)], &[(100.0, 100.0)], 1.0);
    let wall = Some((d(100.0), d(100.0)));
    let none = VecDeque::new();
    let (watched, absorption) =
        update_wall_track(None, &before, &none, WallSide::Ask, wall, d(1.0));
    let watched = watched.unwrap();
    assert!(absorption.is_none());
    assert!(!watched.verified);
    let (watched, _) =
        update_wall_track(Some(watched), &before, &none, WallSide::Ask, wall, d(5.0));
    assert!(watched.unwrap().verified);

    let after = book(&[(99.0, 1.0)], &[(100.0, 10.0)], 5.5);
    let mut ticks = VecDeque::new();
    ticks.push_back(tick(4.0, true, 100.0, 1_000.0));
    for i in 0..9 {
        ticks.push_back(tick(5.0 + i as f64 * 0.05, true, 100.0, 1_000.0));
    }
    let (next, absorption) =
        update_wall_track(watched, &after, &ticks, WallSide::Ask, wall, d(5.6));
    let absorption = absorption.unwrap();
    assert_eq!(f(absorption.depleted_quantity), 90.0);
    assert!(absorption.absorbed);
    let again: Option<WallTrack> = next;
    if let Some(track) = again {
        let (_, repeated) =
            update_wall_track(Some(track), &after, &ticks, WallSide::Ask, wall, d(5.7));
        assert!(!repeated.is_some_and(|a| a.absorbed));
    }
}

#[test]
fn the_btc_filter_fails_closed() {
    let history = VecDeque::new();
    let trend = btc_trend(&history, d(100.0));
    assert_eq!(trend.direction, TrendDirection::Unknown);
    let (allowed, _) = btc_allows(&history, "ETHUSDT", Side::Long, d(100.0));
    assert!(!allowed);
    let mut history = VecDeque::new();
    for i in 0..200 {
        let price = 100.0 + i as f64 * 0.01;
        let b = book(&[(price, 1.0)], &[(price + 0.1, 1.0)], i as f64);
        record_btc_mid(&mut history, Some(&b), d(i as f64));
    }
    let (long, trend) = btc_allows(&history, "ETHUSDT", Side::Long, d(199.0));
    assert_eq!(trend.direction, TrendDirection::Up);
    assert!(long);
    let (short, _) = btc_allows(&history, "ETHUSDT", Side::Short, d(199.0));
    assert!(!short);
}

#[test]
fn a_pass_looks_at_every_book() {
    let mut market = MarketState::new(d(0.0));
    market.books.insert("ETHUSDT", book(&[(10.0, 1.0)], &[(10.1, 1.0)], 1.0));
    market.books.insert("BTCUSDT", book(&[(100.0, 1.0)], &[(100.1, 1.0)], 1.0));
    let session = brain_pass(&mut market, &settings(), 0, d(1.1), d(1.1));
    assert_eq!(session, 1);
    assert_eq!(market.metrics.len(), 2);
    assert_eq!(market.btc_mid_history.len(), 1);
    assert_eq!(market.metrics.get("ETHUSDT").unwrap().status, Status::Watch);
    assert!(evaluate_symbol(&mut market, &settings(), "XRPUSDT", d(1.2), d(1.2)).is_none());
}

#[test]
fn the_log_is_throttled_and_bounded() {
    let mut market = MarketState::new(d(0.0));
    market.log("WARN", "text", "A", d(10.0), d(100.0));
    market.log("WARN", "text", "A", d(10.0), d(105.0));
    assert_eq!(market.journal.logs.len(), 1);
    market.log("WARN", "text", "A", d(10.0), d(110.0));
    assert_eq!(market.journal.logs.len(), 2);
    for i in 0..300 {
        market.log("INFO", "text", "B", d(0.0), d(200.0 + i as f64));
    }
    assert_eq!(market.journal.logs.len(), 180);
    assert_eq!(f(market.journal.logs[0].timestamp), 499.0);
    market.reject("A", "spread", d(600.0));
    market.reject("A", "spread", d(601.0));
    assert_eq!(market.journal.reject_counts.get("spread"), Some(&2));
    assert_eq!(market.journal.logs[0].message, "ENTRY REJECTED · spread");
    assert_eq!(f(market.journal.logs[0].timestamp), 600.0);
}

#[test]
fn queues_lose_their_oldest() {
    let mut market = MarketState::new(d(0.0));
    for i in 0..1300 {
        market.push_tick("A", tick(i as f64, true, 1.0, 1.0));
    }
    let tape = market.trades.get("A").unwrap();
    assert_eq!(tape.len(), 1200);
    assert_eq!(f(tape[0].timestamp), 100.0);
    for i in 0..1100 {
        market.push_closed(closed("A", i as f64, ExitReason::Target, i as f64));
    }
    assert_eq!(market.closed.len(), 1000);
    assert_eq!(f(market.closed[0].result.pnl), 1099.0);
}

#[test]
fn the_snapshot_sums_up_the_account() {
    let mut market = MarketState::new(d(1_000.0));
    market.push_closed(closed("A", 4.0, ExitReason::Target, 10.0));
    market.push_closed(closed("B", -1.0, ExitReason::StructuralStop, 20.0));
    market.push_closed(closed("A", -2.0, ExitReason::StructuralStop, 30.0));
    let s = market.snapshot(&settings(), d(1_060.0));
    assert_eq!(f(s.uptime), 60.0);
    assert_eq!(s.source, "CONNECTING");
    assert_eq!(f(s.stats.realized), 1.0);
    assert_eq!(f(s.stats.pnl), 1.0);
    assert_eq!(s.stats.profit_factor, ProfitFactor::Ratio(d(4.0 / 3.0)));
    assert_eq!(s.stats.streak, -2);
    assert_eq!(f(s.stats.max_drawdown), 3.0);
    assert_eq!((f(s.stats.best_trade), f(s.stats.worst_trade)), (4.0, -2.0));
    assert_eq!((s.stats.wins, s.stats.losses, s.stats.trades, s.stats.open), (1, 2, 3, 0));
    assert_eq!(f(s.stats.win_rate), 1.0 / 3.0 * 100.0);
    assert_eq!(f(s.stats.avg_loss), -1.5);
    assert_eq!(f(s.stats.avg_hold_seconds), 10.0);
    let curve: Vec<(f64, f64)> = s.equity_curve.iter().map(|p| (f(p.t), f(p.v))).collect();
    assert_eq!(curve, vec![(10.0, 4.0), (20.0, 3.0), (30.0, 1.0)]);
    let board: Vec<(&str, f64)> =
        s.leaderboard.iter().map(|(name, pnl)| (name.as_str(), f(*pnl))).collect();
    assert_eq!(board, vec![("A", 2.0), ("B", -1.0)]);
    assert_eq!(
        s.exit_reasons,
        vec![(ExitReason::StructuralStop, 2), (ExitReason::Target, 1)]
    );
    assert_eq!(s.closed_trades.len(), 3);
    assert_eq!(s.closed_trades[0].symbol, "A");
    assert!(!s.live_readiness.live_enabled);
}

#[test]
fn an_empty_account_has_an_empty_snapshot() {
    let market = MarketState::new(d(0.0));
    let s = market.snapshot(&settings(), d(1.0));
    assert_eq!(s.stats.profit_factor, ProfitFactor::Nothing);
    assert_eq!(f(s.stats.best_trade), 0.0);
    assert_eq!(s.stats.streak, 0);
    let mut market = market;
    market.push_closed(closed("A", 1.0, ExitReason::Target, 1.0));
    let s = market.snapshot(&settings(), d(1.0));
    assert_eq!(s.stats.profit_factor, ProfitFactor::Unbounded);
}

#[test]
fn the_snapshot_shows_the_newest_only() {
    let mut market = MarketState::new(d(0.0));
    for i in 0..200 {
        let symbol = format!("S{}", i % 12);
        market.push_closed(closed(&symbol, 1.0, ExitReason::Trail, i as f64));
        market.log("INFO", "text", "A", d(0.0), d(i as f64));
    }
    let s = market.snapshot(&settings(), d(1.0));
    assert_eq!(s.equity_curve.len(), 150);
    assert_eq!(f(s.equity_curve[149].v), 200.0);
    assert_eq!(s.leaderboard.len(), 8);
    assert_eq!(s.closed_trades.len(), 40);
    assert_eq!(s.logs.len(), 80);
    assert_eq!(s.stats.streak, 200);
}

#[test]
fn the_page_of_a_symbol_has_book_walls_and_history() {
    let mut market = MarketState::new(d(0.0));
    assert!(build_symbol_detail(&market, "A", d(1.0)).is_none());
    market.books.insert("A", book(&[(99.0, 2.0), (98.0, 1.0)], &[(101.0, 3.0)], 5.0));
    market.ask_walls.insert(
        "A",
        WallTrack {
            side: WallSide::Ask,
            price: d(101.0),
            initial_size: d(9.0),
            peak_size: d(9.0),
            started_at: d(4.0),
            verified: false,
            triggered: false,
        },
    );
    for i in 0..4 {
        market.push_closed(closed("A", 1.0, ExitReason::Target, 2.0 + i as f64));
    }
    market.push_closed(closed("B", 1.0, ExitReason::Target, 9.0));
    market.log("INFO", "one", "A", d(0.0), d(3.5));
    market.log("INFO", "two", "A", d(0.0), d(1.0));
    let page = build_symbol_detail(&market, "A", d(5.5)).unwrap();
    assert_eq!((f(page.bid), f(page.ask), f(page.mid)), (99.0, 101.0, 100.0));
    assert_eq!(f(page.bids[0].notional), 198.0);
    assert_eq!(f(page.bids[1].price), 98.0);
    assert_eq!(page.walls.len(), 1);
    assert_eq!(f(page.walls[0].current_size), 3.0);
    assert_eq!(f(page.walls[0].age_seconds), 1.5);
    assert_eq!(f(page.walls[0].aging_progress), 0.5);
    assert_eq!(page.history.len(), 5);
    let times: Vec<f64> = page
        .history
        .iter()
        .map(|e| match e {
            SymbolEvent::Trade(result) => f(result.closed_at),
            SymbolEvent::Log(line) => f(line.timestamp),
        })
        .collect();
    assert_eq!(times, vec![5.0, 4.0, 3.5, 3.0, 2.0]);
    assert_eq!(page.brain.status, Status::Watch);
    assert_eq!(f(page.brain.flow), 0.5);
}

#[test]
fn symbols_are_normalized() {
    let mut market = MarketState::new(d(0.0));
    market.books.insert("BTCUSDT", OrderBook::new());
    let text = |s: &str| Json::Text(s.to_string());
    assert_eq!(normalize_symbol(&text(" btcusdt"), &market), Some("BTCUSDT".to_string()));
    let mut members = Table::new();
    members.insert("symbol", text("BtcUsdt"));
    assert_eq!(normalize_symbol(&Json::Object(members), &market), Some("BTCUSDT".to_string()));
    assert_eq!(normalize_symbol(&text("ethusdt"), &market), None);
    assert_eq!(normalize_symbol(&text("  "), &market), None);
    assert_eq!(normalize_symbol(&Json::Null, &market), None);
    assert_eq!(symbol_room("BTCUSDT"), "symbol:BTCUSDT");
}

#[test]
fn administrators_need_the_password() {
    let s = settings();
    let mut env = Table::new();
    let refused = require_admin(&s, &env, Some("x")).unwrap_err();
    assert_eq!(refused, AdminRefusal::NotConfigured);
    assert_eq!(refused.message(), "ADMIN_PASSWORD is not configured");
    env.insert("ADMIN_PASSWORD", "pw".to_string());
    assert_eq!(require_admin(&s, &env, None), Err(AdminRefusal::WrongPassword));
    assert_eq!(AdminRefusal::WrongPassword.message(), "Invalid admin password");
    assert_eq!(require_admin(&s, &env, Some("pw")), Ok(()));
}

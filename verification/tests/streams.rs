use pulsebook::config::Settings;
use pulsebook::double::Double;
use pulsebook::feeds::{
    bias_angle, demo_tick, drift_angle, first_delay, next_delay, note_malformed,
    note_reconnecting, subscriptions, take_connection, take_disconnect, DemoDraw,
};
use pulsebook::json::{Json, JsonNumber};
use pulsebook::models::{OrderBook, TradeTick};
use pulsebook::mtf_fvg::Timeframe;
use pulsebook::mtf_tracker::MtfFvgTracker;
use pulsebook::recorder::{limits, segment_name, Segment, Sweep};
use pulsebook::scanner::{
    answer, interval, needs_history, note_histories, note_missing_history, read_history,
    select_instruments, take_scan, RadarStep,
};
use pulsebook::state::MarketState;
use pulsebook::stream::{
    demo_base, demo_history, handle_message, wave_angle, StreamManager, StreamStep,
};
use pulsebook::table::Table;

fn d(x: f64) -> Double {
    Double::from_bits(x.to_bits())
}

fn f(x: Double) -> f64 {
    f64::from_bits(x.to_bits())
}

fn t(s: &str) -> Json {
    Json::Text(s.to_string())
}

fn n(x: u64) -> Json {
    Json::Number(JsonNumber::Unsigned(x))
}

fn object(rows: Vec<(&str, Json)>) -> Json {
    let mut r = Table::new();
    for (key, value) in rows {
        r.insert(key, value);
    }
    Json::Object(r)
}

fn pair(price: &str, size: &str) -> Json {
    Json::List(vec![t(price), t(size)])
}

fn settings(rows: &[(&str, &str)]) -> Settings {
    let mut env = Table::new();
    for (key, value) in rows {
        env.insert(key, value.to_string());
    }
    Settings::new(&env)
}

fn waves() -> Vec<Double> {
    (0..100).map(|i| d(f(wave_angle(i)).sin())).collect()
}

fn names(list: &[&str]) -> Vec<String> {
    list.iter().map(|s| s.to_string()).collect()
}

fn book_message(kind: &str, bid: &str, sequence: u64) -> Json {
    object(vec![
        ("topic", t("orderbook.50.BTCUSDT")),
        ("type", t(kind)),
        (
            "data",
            object(vec![
                ("s", t("BTCUSDT")),
                ("b", Json::List(vec![pair(bid, "2.5"), pair("x", "1"), Json::Null])),
                ("a", Json::List(vec![pair("101.5", "1")])),
                ("u", n(sequence)),
            ]),
        ),
    ])
}

#[test]
fn book_messages_update_books() {
    let mut market = MarketState::new(d(0.0));
    handle_message(&mut market, &book_message("snapshot", "100.5", 7), d(1.0));
    assert_eq!(market.books.get("BTCUSDT").unwrap().quote(), (d(100.5), d(101.5)));
    handle_message(&mut market, &book_message("delta", "100.9", 7), d(2.0));
    assert_eq!(market.data_quality_errors, 1);
    handle_message(&mut market, &book_message("delta", "100.9", 8), d(2.0));
    let book = market.books.get("BTCUSDT").unwrap();
    assert_eq!(book.quote(), (d(100.9), d(101.5)));
    assert_eq!(book.bids.len(), 2);
    handle_message(&mut market, &Json::Null, d(3.0));
    handle_message(&mut market, &object(vec![("topic", t("orderbook.50.X"))]), d(3.0));
    assert_eq!(market.books.len(), 1);
}

#[test]
fn trade_messages_fill_the_tape() {
    let mut market = MarketState::new(d(0.0));
    let row = |side: &str| {
        object(vec![
            ("s", t("ETHUSDT")),
            ("T", n(1_500)),
            ("S", t(side)),
            ("p", t("10.25")),
            ("v", t("bad")),
        ])
    };
    let msg = object(vec![
        ("topic", t("publicTrade.ETHUSDT")),
        ("data", Json::List(vec![row("Buy"), object(vec![("s", t("X"))]), row("Sell")])),
    ]);
    handle_message(&mut market, &msg, d(2.0));
    let tape = market.trades.get("ETHUSDT").unwrap();
    assert_eq!(tape.len(), 2);
    assert_eq!((f(tape[0].timestamp), f(tape[0].price), f(tape[0].size)), (1.5, 10.25, 0.0));
    assert!(tape[0].is_buy && !tape[1].is_buy);
    assert_eq!(market.mtf_bars.get("ETHUSDT").unwrap().s5.len(), 1);
}

#[test]
fn following_symbols_starts_and_restarts_streams() {
    let s = settings(&[("WS_CHUNK_SIZE", "2")]);
    let mut market = MarketState::new(d(0.0));
    let mut manager = StreamManager::new();
    let asked = names(&["C", "A", "B", "A"]);
    let step = manager.set_symbols(&mut market, &s, &asked, false, &waves(), d(1.0));
    match step {
        StreamStep::Live(groups) => {
            assert_eq!(groups, vec![names(&["A", "B"]), names(&["C"])]);
        },
        _ => panic!("live streams expected"),
    }
    assert_eq!(market.source, "LIVE");
    assert_eq!(market.session, 2);
    assert_eq!(manager.generation, 1);
    let step = manager.set_symbols(&mut market, &s, &asked, false, &waves(), d(2.0));
    assert!(matches!(step, StreamStep::Keep));
    assert_eq!(market.session, 2);

    market.books.insert("A", OrderBook::new());
    market.books.insert("Z", OrderBook::new());
    market.mtf_fvg.insert("A", MtfFvgTracker::new());
    let fewer = names(&["A"]);
    let step = manager.set_symbols(&mut market, &s, &fewer, false, &waves(), d(3.0));
    assert!(matches!(step, StreamStep::Live(_)));
    assert!(market.books.contains("A") && !market.books.contains("Z"));
    assert_eq!(market.mtf_fvg.len(), 0);

    let step = manager.set_symbols(&mut market, &s, &fewer, true, &waves(), d(4.0));
    assert!(matches!(step, StreamStep::Demo(_)));
    assert!(manager.is_demo(&s));
    assert_eq!(market.books.len(), 0);
    assert_eq!(market.source, "DEMO");
    assert_eq!(market.journal.logs[0].message, "Deterministic demo feed active");
}

#[test]
fn the_demo_history_ends_with_a_gap() {
    let base = demo_base("SOLUSDT");
    assert_eq!(f(base), 148.0);
    assert_eq!(f(demo_base("OTHER")), 10.0);
    let candles = demo_history(Timeframe::M15, base, d(1_000_000.0), &waves());
    assert_eq!(candles.len(), 100);
    assert_eq!(candles[99].started_at, 999_900 - 900);
    assert_eq!(f(candles[97].high), 148.0 * 0.9982);
    assert_eq!(f(candles[99].low), 148.0 * 0.9988);
    let center = 148.0 * (1.0 + (3.0_f64 / 9.0).sin() * 0.0008);
    assert_eq!(f(candles[3].open), center * 0.9999);
    let m1 = demo_history(Timeframe::M1, base, d(1_000_000.0), &waves());
    let center = 148.0 * (1.0 + (99.0_f64 / 9.0).sin() * 0.0008);
    assert_eq!(f(m1[99].close), center * 1.0001);
}

#[test]
fn the_demo_feed_seeds_histories_for_the_gap_strategy() {
    let s = settings(&[("STRATEGY_MODE", "fvg"), ("FORCE_DEMO", "1")]);
    let mut market = MarketState::new(d(0.0));
    let mut manager = StreamManager::new();
    let step =
        manager.set_symbols(&mut market, &s, &names(&["BTCUSDT"]), false, &waves(), d(1e6));
    assert!(matches!(step, StreamStep::Demo(_)));
    let bars = market.mtf_bars.get("BTCUSDT").unwrap();
    assert_eq!(bars.m15.len(), 100);
    assert_eq!(bars.m1.len(), 100);
    assert_eq!(bars.valid_from, None);
}

#[test]
fn demo_ticks_make_books_and_trades() {
    let mut market = MarketState::new(d(0.0));
    let draw = DemoDraw {
        drift: d(0.5),
        noise: d(0.0001),
        bias: d(0.6),
        sizes: vec![d(0.25); 100],
        coin: d(0.6),
        size: d(20.0),
    };
    demo_tick(&mut market, "XRPUSDT", 9, &draw, d(77.0));
    let price = 0.52 * (1.0 + 0.5 * 0.0018 + 0.0001);
    let book = market.books.get("XRPUSDT").unwrap();
    assert_eq!(book.bids.len(), 50);
    assert_eq!(book.sequence, 9);
    assert_eq!(f(book.quote().0), price * (1.0 - 1.0 * 0.00006));
    let size = (8.0 + 0.25 * 14.0) * (1.0 + 0.6 * 1.7);
    let fifth = d(price * (1.0 - 5.0 * 0.00006));
    assert_eq!(book.bids.get(fifth).map(f), Some(size * 7.0));
    let fifth = d(price * (1.0 + 5.0 * 0.00006));
    assert_eq!(book.asks.get(fifth).map(f), Some((8.0 + 0.25 * 14.0) * (1.0 + 0.0 * 1.7)));
    let tape = market.trades.get("XRPUSDT").unwrap();
    assert!(tape[0].is_buy);
    assert_eq!(f(tape[0].price), price);
    assert_eq!(f(drift_angle(74, 3)), 74.0 / 37.0 + 3.0);
    assert_eq!(f(bias_angle(28, 2)), 28.0 / 14.0 + 2.0 * 1.7);
}

#[test]
fn a_broken_feed_resets_its_symbols() {
    let mut market = MarketState::new(d(0.0));
    take_connection(&mut market);
    assert_eq!(market.connections, 1);
    for symbol in ["A", "B"] {
        let tick = TradeTick { timestamp: d(5.0), is_buy: true, price: d(1.0), size: d(1.0) };
        market.push_tick(symbol, tick);
        market.mtf_fvg.insert(symbol, MtfFvgTracker::new());
    }
    take_disconnect(&mut market, &names(&["A"]), d(70.5));
    assert_eq!(market.connections, 0);
    assert!(!market.mtf_fvg.contains("A") && market.mtf_fvg.contains("B"));
    assert_eq!(market.mtf_bars.get("A").unwrap().s5.len(), 0);
    assert_eq!(market.mtf_bars.get("A").unwrap().valid_from, Some(70));
    assert_eq!(market.mtf_bars.get("B").unwrap().s5.len(), 1);
    take_disconnect(&mut market, &names(&["A"]), d(71.0));
    assert_eq!(market.connections, 0);
    note_reconnecting(&mut market, &"e".repeat(90), d(72.0));
    assert_eq!(market.journal.logs[0].message, format!("Stream reconnecting: {}", "e".repeat(70)));
    note_malformed(&mut market, d(73.0));
    assert_eq!(market.journal.logs[0].message, "Malformed stream payload");
}

#[test]
fn delays_double_up_to_half_a_minute() {
    let mut delay = first_delay();
    let mut seen = Vec::new();
    for _ in 0..6 {
        seen.push(f(delay));
        delay = next_delay(delay);
    }
    assert_eq!(seen, vec![1.0, 2.0, 4.0, 8.0, 16.0, 30.0]);
    assert_eq!(
        subscriptions(&names(&["A", "B"])),
        names(&["orderbook.50.A", "orderbook.50.B", "publicTrade.A", "publicTrade.B"])
    );
}

fn contract(symbol: &str, status: &str) -> Json {
    object(vec![
        ("symbol", t(symbol)),
        ("status", t(status)),
        ("quoteCoin", t("USDT")),
        ("contractType", t("LinearPerpetual")),
    ])
}

fn ticker(symbol: &str, turnover: &str) -> Json {
    object(vec![
        ("symbol", t(symbol)),
        ("lastPrice", t("2")),
        ("turnover24h", t(turnover)),
        ("bid1Price", t("2.0")),
        ("ask1Price", t("2.0001")),
    ])
}

#[test]
fn the_radar_selects_liquid_contracts_and_btc() {
    let s = settings(&[("MAX_SYMBOLS", "2")]);
    let info = object(vec![(
        "list",
        Json::List(vec![
            contract("A", "Trading"),
            contract("B", "Trading"),
            contract("C", "Trading"),
            contract("D", "Closed"),
            contract("E", "Trading"),
        ]),
    )]);
    let tickers = object(vec![(
        "list",
        Json::List(vec![
            ticker("BTCUSDT", "1"),
            ticker("A", "20000000"),
            ticker("B", "40000000"),
            ticker("C", "30000000"),
            ticker("D", "90000000"),
            ticker("E", "5"),
        ]),
    )]);
    let found = select_instruments(&info, &tickers, &s);
    let symbols: Vec<&str> = found.iter().map(|i| i.symbol.as_str()).collect();
    assert_eq!(symbols, vec!["B", "C", "BTCUSDT"]);
    assert_eq!(f(found[0].turnover24h), 40_000_000.0);
    assert_eq!(f(found[0].spread_pct), (2.0001 - 2.0) / 2.0 * 100.0);
    assert!(select_instruments(&info, &Json::Null, &s).is_empty());
}

#[test]
fn answers_of_the_exchange_are_checked() {
    let ok = object(vec![("retCode", n(0)), ("result", t("x"))]);
    assert!(matches!(answer(ok), Ok(Json::Text(s)) if s == "x"));
    let bare = object(vec![("retCode", n(0))]);
    assert!(matches!(answer(bare), Ok(Json::Null)));
    let failed = object(vec![("retCode", n(10)), ("retMsg", t("limit"))]);
    assert_eq!(answer(failed).unwrap_err(), "limit");
    assert_eq!(answer(Json::Null).unwrap_err(), "Bybit error");
}

#[test]
fn histories_are_read_oldest_first() {
    let row = |start: &str| {
        Json::List(vec![t(start), t("1"), t("3"), t("0.5"), t("2"), t("9"), t("x")])
    };
    let result = object(vec![(
        "list",
        Json::List(vec![row("120999.9"), row("60000"), row("-1500"), row("bad"), Json::Null]),
    )]);
    let candles = read_history(&result, Timeframe::M1);
    let starts: Vec<i64> = candles.iter().map(|c| c.started_at).collect();
    assert_eq!(starts, vec![-1, 60, 120]);
    assert_eq!(f(candles[1].volume), 9.0);
    assert_eq!(interval(Timeframe::M15), Some("15"));
    assert_eq!(interval(Timeframe::S5), None);
}

#[test]
fn scans_lead_to_a_step() {
    let mut market = MarketState::new(d(0.0));
    let s = settings(&[]);
    let step = take_scan(&mut market, &s, Err("down".to_string()), d(500.0));
    assert!(matches!(step, RadarStep::Demo(_)) == s.demo_fallback);
    assert_eq!(market.journal.logs[0].message, "Live radar unavailable: down");
    let step = take_scan(&mut market, &s, Ok(Vec::new()), d(600.0));
    assert!(!matches!(step, RadarStep::Follow(_)));
    assert_eq!(
        market.journal.logs[0].message,
        "Live radar unavailable: no instruments passed liquidity filters"
    );
    let info = object(vec![]);
    let tickers = object(vec![("list", Json::List(vec![ticker("BTCUSDT", "1")]))]);
    let rows = select_instruments(&info, &tickers, &s);
    match take_scan(&mut market, &s, Ok(rows), d(700.0)) {
        RadarStep::Follow(symbols) => assert_eq!(symbols, names(&["BTCUSDT"])),
        _ => panic!("a symbol to follow expected"),
    }
    assert_eq!(f(market.last_scan), 700.0);
    assert_eq!(market.journal.logs[0].message, "Radar selected 1 liquid perpetuals");
    note_histories(&mut market, 3, &names(&["A", "B"]), d(800.0));
    assert_eq!(market.journal.logs[0].message, "MTF FVG history warmed for 3/2 symbols");
    note_missing_history(&mut market, "A", "gone", d(900.0));
    assert_eq!(market.journal.logs[0].message, "MTF FVG warm-up failed: gone");
    assert!(!needs_history(&settings(&[("STRATEGY_MODE", "alternative")]), &names(&["A"])));
    assert!(needs_history(&settings(&[("STRATEGY_MODE", "fvg")]), &names(&["A"])));
}

#[test]
fn records_are_cut_into_files() {
    assert_eq!(limits(5, 7), (1_048_576, 1_048_576));
    assert_eq!(limits(2_000_000, 9_000_000), (2_000_000, 9_000_000));
    let segment = Segment::new(10);
    assert!(!segment.is_full(9));
    assert!(segment.is_full(10));
    let segment = segment.after(4);
    assert_eq!(segment.written, 5);
    assert!(segment.is_full(5));
    assert_eq!(segment_name(1_700), "pulsebook-1700.jsonl");
    let mut sweep = Sweep::new(&vec![5, 6, 7], 8);
    assert!(sweep.goes_on());
    sweep = sweep.after(5, true);
    sweep = sweep.after(6, false);
    assert_eq!(sweep.total, 13);
    sweep = sweep.after(7, true);
    assert!(!sweep.goes_on());
}

//! Everything that the page of one symbol shows, at one moment.
use vstd::prelude::*;
use std::collections::VecDeque;
use crate::brain;
use crate::brain::{RadarRow, Status};
use crate::double::Double;
use crate::journal;
use crate::journal::LogLine;
use crate::models;
use crate::models::{
    BookView, ClosedTrade, Ladder, Level, LogEvent, OrderBook, TradeResult, TrendDirection,
    WallSide, WallTrack,
};
use crate::readiness;
use crate::sorting;
use crate::state;
use crate::state::{ClosedRow, MarketState, MarketView};
use crate::table;
use crate::text;

verus! {

/// The most levels of each side of a book that are shown.
pub const SHOWN_LEVELS: usize = 50;

/// The most events of a symbol's history that are shown.
pub const SHOWN_EVENTS: usize = 5;

/// A level of a book as it is shown.
#[derive(Clone, Copy, Debug, PartialEq, Eq, Structural)]
pub struct ShownLevel {
    pub price: Double,
    pub size: Double,
    pub notional: Double,
}

pub open spec fn spec_shown_level(level: Level) -> ShownLevel {
    ShownLevel { price: level.0, size: level.1, notional: level.0.mul(level.1) }
}

/// A level of a book as it is shown.
#[verifier::when_used_as_spec(spec_shown_level)]
pub fn shown_level(level: Level) -> (r: ShownLevel)
    ensures
        r == spec_shown_level(level),
{
    ShownLevel { price: level.0, size: level.1, notional: level.0.mul(level.1) }
}

/// The levels of a side that are shown: from the lowest price up, or from the highest down.
pub open spec fn shown_levels(levels: Seq<Level>, reverse: bool) -> Seq<ShownLevel> {
    let n = if levels.len() > SHOWN_LEVELS {
        SHOWN_LEVELS as nat
    } else {
        levels.len()
    };
    Seq::new(
        n,
        |i: int|
            shown_level(
                if reverse {
                    levels[levels.len() - 1 - i]
                } else {
                    levels[i]
                },
            ),
    )
}

/// The levels of a side that are shown.
pub fn serialize_levels(levels: &Ladder, reverse: bool) -> (r: Vec<ShownLevel>)
    ensures
        r@ == shown_levels(levels@, reverse),
        r@.len() <= SHOWN_LEVELS,
{
    let n = levels.len();
    let most = if n > SHOWN_LEVELS {
        SHOWN_LEVELS
    } else {
        n
    };
    let ghost all = shown_levels(levels@, reverse);
    let mut r: Vec<ShownLevel> = Vec::new();
    let mut i: usize = 0;
    while i < most
        invariant
            n == levels@.len(),
            i <= most <= n,
            most == all.len(),
            all == shown_levels(levels@, reverse),
            r@ == all.take(i as int),
        decreases most - i,
    {
        let level = if reverse {
            levels.at(n - 1 - i)
        } else {
            levels.at(i)
        };
        r.push(shown_level(level));
        assert(all.take(i + 1) =~= all.take(i as int).push(all[i as int]));
        i = i + 1;
    }
    assert(all.take(i as int) =~= all);
    r
}

/// A wall as it is shown.
#[derive(Clone, Copy, Debug, PartialEq, Eq, Structural)]
pub struct ShownWall {
    pub side: WallSide,
    pub price: Double,
    pub initial_size: Double,
    pub current_size: Double,
    pub verified: bool,
    pub triggered: bool,
    pub age_seconds: Double,
    pub confirmation_seconds: Double,
    pub aging_progress: Double,
}

/// A wall as it is shown at `now`.
pub open spec fn shown_wall(
    wall: WallTrack,
    side: WallSide,
    book: Option<BookView>,
    now: Double,
) -> ShownWall {
    let age = now.sub(wall.started_at).max(Double::zero());
    ShownWall {
        side,
        price: wall.price,
        initial_size: wall.initial_size,
        current_size: match book {
            Some(book) => brain::resting(book, side, wall.price),
            None => Double::zero(),
        },
        verified: wall.verified,
        triggered: wall.triggered,
        age_seconds: age,
        confirmation_seconds: Double::whole(3),
        aging_progress: age.div(Double::whole(3)).min(Double::one()),
    }
}

/// The walls of a symbol, the bid first.
pub open spec fn walls_of(m: MarketView, symbol: Seq<char>, now: Double) -> Seq<ShownWall> {
    let book = table::entry(m.books, symbol);
    (match table::entry(m.bid_walls, symbol) {
        Some(wall) => seq![shown_wall(wall, WallSide::Bid, book, now)],
        None => Seq::empty(),
    }) + (match table::entry(m.ask_walls, symbol) {
        Some(wall) => seq![shown_wall(wall, WallSide::Ask, book, now)],
        None => Seq::empty(),
    })
}

fn show_wall(wall: &WallTrack, side: WallSide, book: Option<&OrderBook>, now: Double) -> (r:
    ShownWall)
    ensures
        r == shown_wall(
            *wall,
            side,
            match book {
                Some(book) => Some(book@),
                None => None,
            },
            now,
        ),
{
    let age = now.sub(wall.started_at).max(Double::zero());
    ShownWall {
        side,
        price: wall.price,
        initial_size: wall.initial_size,
        current_size: match book {
            Some(book) => brain::resting_size(book, side, wall.price),
            None => Double::zero(),
        },
        verified: wall.verified,
        triggered: wall.triggered,
        age_seconds: age,
        confirmation_seconds: Double::whole(3),
        aging_progress: age.div(Double::whole(3)).min(Double::one()),
    }
}

/// The walls of a symbol, the bid first.
pub fn symbol_walls(market: &MarketState, symbol: &str, now: Double) -> (r: Vec<ShownWall>)
    ensures
        r@ == walls_of(market@, symbol@, now),
{
    let book = market.books.get(symbol);
    let mut r: Vec<ShownWall> = Vec::new();
    match market.bid_walls.get(symbol) {
        Some(wall) => {
            r.push(show_wall(wall, WallSide::Bid, book, now));
        },
        None => {},
    }
    match market.ask_walls.get(symbol) {
        Some(wall) => {
            r.push(show_wall(wall, WallSide::Ask, book, now));
        },
        None => {},
    }
    assert(r@ =~= walls_of(market@, symbol@, now));
    r
}

/// Something that happened to a symbol.
#[derive(Debug)]
pub enum SymbolEvent {
    Trade(TradeResult),
    Log(LogEvent),
}

/// Something that happened to a symbol, by its contents.
#[verifier::ext_equal]
pub enum EventView {
    Trade(TradeResult),
    Log(LogLine),
}

impl SymbolEvent {
    pub open spec fn view(&self) -> EventView {
        match self {
            SymbolEvent::Trade(result) => EventView::Trade(*result),
            SymbolEvent::Log(line) => EventView::Log(line@),
        }
    }
}

/// Events by their contents.
pub open spec fn event_views(events: Seq<SymbolEvent>) -> Seq<EventView> {
    events.map_values(|e: SymbolEvent| e@)
}

/// When something happened.
pub open spec fn event_time(e: EventView) -> Double {
    match e {
        EventView::Trade(result) => result.closed_at,
        EventView::Log(line) => line.timestamp,
    }
}

/// The trades of a symbol, in their order.
pub open spec fn trade_events(closed: Seq<ClosedRow>, symbol: Seq<char>) -> Seq<EventView>
    decreases closed.len(),
{
    if closed.len() == 0 {
        Seq::empty()
    } else {
        let before = trade_events(closed.drop_last(), symbol);
        if closed.last().symbol == symbol {
            before.push(EventView::Trade(closed.last().result))
        } else {
            before
        }
    }
}

/// The log lines of a symbol, in their order.
pub open spec fn log_events(logs: Seq<LogLine>, symbol: Seq<char>) -> Seq<EventView>
    decreases logs.len(),
{
    if logs.len() == 0 {
        Seq::empty()
    } else {
        let before = log_events(logs.drop_last(), symbol);
        if logs.last().symbol == symbol {
            before.push(EventView::Log(logs.last()))
        } else {
            before
        }
    }
}

/// When events happened.
pub open spec fn event_times(events: Seq<EventView>) -> Seq<Double> {
    events.map_values(|e: EventView| event_time(e))
}

/// The newest events of a symbol, newest first; of events at one time, trades first.
pub open spec fn history_of(m: MarketView, symbol: Seq<char>) -> Seq<EventView> {
    let all = trade_events(m.closed, symbol) + log_events(m.journal.logs, symbol);
    let sorted = sorting::picked(all, sorting::order(sorting::falling_keys(event_times(all))));
    if sorted.len() > SHOWN_EVENTS {
        sorted.take(SHOWN_EVENTS as int)
    } else {
        sorted
    }
}

fn put_trades(events: &mut Vec<SymbolEvent>, closed: &VecDeque<ClosedTrade>, symbol: &str)
    requires
        old(events)@.len() == 0,
    ensures
        event_views(final(events)@) == trade_events(state::closed_rows(closed@), symbol@),
{
    let ghost all = state::closed_rows(closed@);
    let mut i: usize = 0;
    assert(event_views(events@) =~= trade_events(all.take(0), symbol@));
    while i < closed.len()
        invariant
            i <= closed@.len(),
            all == state::closed_rows(closed@),
            event_views(events@) == trade_events(all.take(i as int), symbol@),
        decreases closed@.len() - i,
    {
        let trade = &closed[i];
        let ghost before = event_views(events@);
        proof {
            assert(all.take(i + 1).drop_last() =~= all.take(i as int));
            assert(all.take(i + 1).last() == trade@);
        }
        if text::text_eq(trade.symbol.as_str(), symbol) {
            events.push(SymbolEvent::Trade(trade.result));
            assert(event_views(events@) =~= before.push(EventView::Trade(trade.result)));
        }
        i = i + 1;
    }
    assert(all.take(i as int) =~= all);
}

fn copy_line(line: &LogEvent) -> (r: LogEvent)
    ensures
        r@ == line@,
{
    LogEvent {
        level: line.level.clone(),
        message: line.message.clone(),
        symbol: line.symbol.clone(),
        timestamp: line.timestamp,
    }
}

fn put_logs(events: &mut Vec<SymbolEvent>, logs: &VecDeque<LogEvent>, symbol: &str)
    ensures
        event_views(final(events)@) == event_views(old(events)@) + log_events(
            journal::log_lines(logs@),
            symbol@,
        ),
{
    let ghost first = event_views(events@);
    let ghost all = journal::log_lines(logs@);
    let mut i: usize = 0;
    assert(event_views(events@) =~= first + log_events(all.take(0), symbol@));
    while i < logs.len()
        invariant
            i <= logs@.len(),
            all == journal::log_lines(logs@),
            event_views(events@) == first + log_events(all.take(i as int), symbol@),
        decreases logs@.len() - i,
    {
        let line = &logs[i];
        let ghost before = log_events(all.take(i as int), symbol@);
        let ghost so_far = event_views(events@);
        proof {
            assert(all.take(i + 1).drop_last() =~= all.take(i as int));
            assert(all.take(i + 1).last() == line@);
        }
        if text::text_eq(line.symbol.as_str(), symbol) {
            events.push(SymbolEvent::Log(copy_line(line)));
            proof {
                assert(event_views(events@) =~= so_far.push(EventView::Log(line@)));
                assert(first + before.push(EventView::Log(line@)) =~= (first + before).push(
                    EventView::Log(line@),
                ));
            }
        }
        i = i + 1;
    }
    assert(all.take(i as int) =~= all);
}

fn time_of(e: &SymbolEvent) -> (r: Double)
    ensures
        r == event_time(e@),
{
    match e {
        SymbolEvent::Trade(result) => result.closed_at,
        SymbolEvent::Log(line) => line.timestamp,
    }
}

fn copy_event(e: &SymbolEvent) -> (r: SymbolEvent)
    ensures
        r@ == e@,
{
    match e {
        SymbolEvent::Trade(result) => SymbolEvent::Trade(*result),
        SymbolEvent::Log(line) => SymbolEvent::Log(copy_line(line)),
    }
}

/// The newest events of a symbol, newest first.
pub fn symbol_history(market: &MarketState, symbol: &str) -> (r: Vec<SymbolEvent>)
    ensures
        event_views(r@) == history_of(market@, symbol@),
        r@.len() <= SHOWN_EVENTS,
{
    let mut events: Vec<SymbolEvent> = Vec::new();
    put_trades(&mut events, &market.closed, symbol);
    put_logs(&mut events, &market.journal.logs, symbol);
    let ghost all = event_views(events@);
    let mut stamps: Vec<Double> = Vec::new();
    let mut i: usize = 0;
    while i < events.len()
        invariant
            i <= events@.len(),
            all == event_views(events@),
            stamps@ == event_times(all).take(i as int),
        decreases events@.len() - i,
    {
        stamps.push(time_of(&events[i]));
        assert(event_times(all).take(i + 1) =~= event_times(all).take(i as int).push(
            event_times(all)[i as int],
        ));
        i = i + 1;
    }
    assert(event_times(all).take(i as int) =~= event_times(all));
    let places = sorting::falling_order(&stamps);
    let n = if places.len() > SHOWN_EVENTS {
        SHOWN_EVENTS
    } else {
        places.len()
    };
    let ghost expected = history_of(market@, symbol@);
    let mut r: Vec<SymbolEvent> = Vec::new();
    let mut k: usize = 0;
    assert(event_views(r@) =~= expected.take(0));
    while k < n
        invariant
            k <= n <= places@.len(),
            n == expected.len(),
            all == event_views(events@),
            forall|x: int|
                0 <= x < n ==> #[trigger] expected[x] == sorting::picked(all, places@)[x],
            forall|x: int| 0 <= x < places@.len() ==> #[trigger] places@[x] < events@.len(),
            event_views(r@) == expected.take(k as int),
        decreases n - k,
    {
        let at = places[k];
        let ghost before = event_views(r@);
        r.push(copy_event(&events[at]));
        proof {
            assert(all[at as int] == events@[at as int]@);
            assert(event_views(r@) =~= before.push(expected[k as int]));
            assert(expected.take(k + 1) =~= expected.take(k as int).push(expected[k as int]));
        }
        k = k + 1;
    }
    assert(expected.take(k as int) =~= expected);
    assert(event_views(r@).len() == r@.len());
    r
}

/// What the engine makes of a symbol.
#[derive(Clone, Copy, Debug, PartialEq, Eq, Structural)]
pub struct BrainDetail {
    pub status: Status,
    pub btc_trend: TrendDirection,
    pub btc_trend_pct: Double,
    pub btc_trend_coverage: Double,
    pub buy_accelerating: bool,
    pub sell_accelerating: bool,
    pub tape_accelerating: bool,
    pub buy_acceleration: Double,
    pub sell_acceleration: Double,
    pub buy_dominance: Double,
    pub sell_dominance: Double,
    pub flow: Double,
    pub imbalance: Double,
}

/// What is shown of a symbol that the engine has looked at, or not yet. A figure that is no
/// finite number counts as missing.
pub open spec fn brain_of(row: Option<RadarRow>) -> BrainDetail {
    let zero = Double::zero();
    let half = Double::ratio(5, 10);
    match row {
        Some(row) => BrainDetail {
            status: row.status,
            btc_trend: row.btc_trend,
            btc_trend_pct: readiness::shown_or(row.btc_trend_pct, zero),
            btc_trend_coverage: readiness::shown_or(row.btc_trend_coverage, zero),
            buy_accelerating: row.tape.buy_accelerating,
            sell_accelerating: row.tape.sell_accelerating,
            tape_accelerating: row.tape.buy_accelerating || row.tape.sell_accelerating,
            buy_acceleration: readiness::shown_or(row.tape.buy_acceleration, zero),
            sell_acceleration: readiness::shown_or(row.tape.sell_acceleration, zero),
            buy_dominance: readiness::shown_or(row.tape.buy_dominance, half),
            sell_dominance: readiness::shown_or(row.tape.sell_dominance, half),
            flow: readiness::shown_or(row.flow, half),
            imbalance: readiness::shown_or(row.imbalance, half),
        },
        None => BrainDetail {
            status: Status::Watch,
            btc_trend: TrendDirection::Unknown,
            btc_trend_pct: zero,
            btc_trend_coverage: zero,
            buy_accelerating: false,
            sell_accelerating: false,
            tape_accelerating: false,
            buy_acceleration: zero,
            sell_acceleration: zero,
            buy_dominance: half,
            sell_dominance: half,
            flow: half,
            imbalance: half,
        },
    }
}

fn show_brain(row: Option<&RadarRow>) -> (r: BrainDetail)
    ensures
        r == brain_of(
            match row {
                Some(row) => Some(*row),
                None => None,
            },
        ),
{
    let zero = Double::zero();
    let half = Double::ratio(5, 10);
    match row {
        Some(row) => BrainDetail {
            status: row.status,
            btc_trend: row.btc_trend,
            btc_trend_pct: readiness::shown_or(row.btc_trend_pct, zero),
            btc_trend_coverage: readiness::shown_or(row.btc_trend_coverage, zero),
            buy_accelerating: row.tape.buy_accelerating,
            sell_accelerating: row.tape.sell_accelerating,
            tape_accelerating: row.tape.buy_accelerating || row.tape.sell_accelerating,
            buy_acceleration: readiness::shown_or(row.tape.buy_acceleration, zero),
            sell_acceleration: readiness::shown_or(row.tape.sell_acceleration, zero),
            buy_dominance: readiness::shown_or(row.tape.buy_dominance, half),
            sell_dominance: readiness::shown_or(row.tape.sell_dominance, half),
            flow: readiness::shown_or(row.flow, half),
            imbalance: readiness::shown_or(row.imbalance, half),
        },
        None => BrainDetail {
            status: Status::Watch,
            btc_trend: TrendDirection::Unknown,
            btc_trend_pct: zero,
            btc_trend_coverage: zero,
            buy_accelerating: false,
            sell_accelerating: false,
            tape_accelerating: false,
            buy_acceleration: zero,
            sell_acceleration: zero,
            buy_dominance: half,
            sell_dominance: half,
            flow: half,
            imbalance: half,
        },
    }
}

/// Everything that the page of a symbol shows.
#[derive(Debug)]
pub struct SymbolDetail {
    pub symbol: String,
    pub timestamp: Double,
    pub book_updated_at: Double,
    pub bid: Double,
    pub ask: Double,
    pub mid: Double,
    pub spread_pct: Double,
    pub bids: Vec<ShownLevel>,
    pub asks: Vec<ShownLevel>,
    pub brain: BrainDetail,
    pub walls: Vec<ShownWall>,
    pub history: Vec<SymbolEvent>,
}

/// The page of a symbol by its contents.
#[verifier::ext_equal]
pub struct DetailView {
    pub symbol: Seq<char>,
    pub timestamp: Double,
    pub book_updated_at: Double,
    pub bid: Double,
    pub ask: Double,
    pub mid: Double,
    pub spread_pct: Double,
    pub bids: Seq<ShownLevel>,
    pub asks: Seq<ShownLevel>,
    pub brain: BrainDetail,
    pub walls: Seq<ShownWall>,
    pub history: Seq<EventView>,
}

impl SymbolDetail {
    pub open spec fn view(&self) -> DetailView {
        DetailView {
            symbol: self.symbol@,
            timestamp: self.timestamp,
            book_updated_at: self.book_updated_at,
            bid: self.bid,
            ask: self.ask,
            mid: self.mid,
            spread_pct: self.spread_pct,
            bids: self.bids@,
            asks: self.asks@,
            brain: self.brain,
            walls: self.walls@,
            history: event_views(self.history@),
        }
    }
}

/// What the page of a symbol shows at `now`; there is none for a symbol without a book.
pub open spec fn detail_of(m: MarketView, symbol: Seq<char>, now: Double) -> Option<DetailView> {
    match table::entry(m.books, symbol) {
        Some(book) => {
            let (bid, ask) = models::best_prices(book);
            Some(
                DetailView {
                    symbol,
                    timestamp: now,
                    book_updated_at: book.updated_at,
                    bid,
                    ask,
                    mid: brain::middle(bid, ask),
                    spread_pct: brain::spread_or(bid, ask, Double::zero()),
                    bids: shown_levels(book.bids, true),
                    asks: shown_levels(book.asks, false),
                    brain: brain_of(table::entry(m.metrics, symbol)),
                    walls: walls_of(m, symbol, now),
                    history: history_of(m, symbol),
                },
            )
        },
        None => None,
    }
}

/// A page by its contents, if there is one.
pub open spec fn detail_view(d: Option<SymbolDetail>) -> Option<DetailView> {
    match d {
        Some(d) => Some(d@),
        None => None,
    }
}

/// What the page of a symbol shows at `now`.
pub fn build_symbol_detail(market: &MarketState, symbol: &str, now: Double) -> (r: Option<
    SymbolDetail,
>)
    ensures
        detail_view(r) == detail_of(market@, symbol@, now),
{
    let book = match market.books.get(symbol) {
        Some(book) => book,
        None => {
            return None;
        },
    };
    let (bid, ask) = book.quote();
    Some(
        SymbolDetail {
            symbol: symbol.to_owned(),
            timestamp: now,
            book_updated_at: book.updated_at,
            bid,
            ask,
            mid: brain::mid_price(bid, ask),
            spread_pct: brain::spread_pct(bid, ask, Double::zero()),
            bids: serialize_levels(&book.bids, true),
            asks: serialize_levels(&book.asks, false),
            brain: show_brain(market.metrics.get(symbol)),
            walls: symbol_walls(market, symbol, now),
            history: symbol_history(market, symbol),
        },
    )
}

} // verus!

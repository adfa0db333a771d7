//! What comes in from the market streams, live or simulated, and which streams there are.
use vstd::prelude::*;
use crate::config::Settings;
use crate::double::Double;
use crate::json;
use crate::json::Json;
use crate::models::{BookView, Level, OrderBook, PendingSignal, TradeTick, WallTrack};
use crate::mtf_fvg;
use crate::mtf_fvg::{Candle, Timeframe};
use crate::mtf_tracker::TrackerView;
use crate::scanner;
use crate::sorting;
use crate::state::{MarketState, MarketView};
use crate::table;
use crate::table::Table;
use crate::text;

verus! {

/// The level of a row of two numerals, if it holds one.
pub open spec fn level_in(row: Json) -> Option<Level> {
    match json::items_in(row) {
        Some(pair) => if pair.len() < 2 {
            None
        } else {
            match (scanner::numeral(pair[0]), scanner::numeral(pair[1])) {
                (Some(price), Some(size)) => Some((price, size)),
                _ => None,
            }
        },
        None => None,
    }
}

fn read_level(row: &Json) -> (r: Option<Level>)
    ensures
        r == level_in(*row),
{
    match row.as_list() {
        Some(pair) => if pair.len() < 2 {
            None
        } else {
            match (scanner::read_numeral(&pair[0]), scanner::read_numeral(&pair[1])) {
                (Some(price), Some(size)) => Some((price, size)),
                _ => None,
            }
        },
        None => None,
    }
}

/// The levels of some rows, without the rows that hold none.
pub open spec fn levels_in(rows: Seq<Json>) -> Seq<Level>
    decreases rows.len(),
{
    if rows.len() == 0 {
        Seq::empty()
    } else {
        let before = levels_in(rows.drop_last());
        match level_in(rows.last()) {
            Some(level) => before.push(level),
            None => before,
        }
    }
}

/// The levels of a list, none where there is no list.
pub open spec fn levels_of(value: Json) -> Seq<Level> {
    match json::items_in(value) {
        Some(rows) => levels_in(rows),
        None => Seq::empty(),
    }
}

/// Reads the levels of a list, none where there is no list.
pub fn parse_levels(raw: Option<&Json>) -> (r: Vec<Level>)
    ensures
        r@ == (match raw {
            Some(value) => levels_of(*value),
            None => Seq::empty(),
        }),
{
    let mut r: Vec<Level> = Vec::new();
    let rows = match raw {
        Some(value) => match value.as_list() {
            Some(rows) => rows,
            None => {
                return r;
            },
        },
        None => {
            return r;
        },
    };
    let mut i: usize = 0;
    while i < rows.len()
        invariant
            i <= rows@.len(),
            r@ == levels_in(rows@.take(i as int)),
        decreases rows@.len() - i,
    {
        assert(rows@.take(i + 1).drop_last() =~= rows@.take(i as int));
        match read_level(&rows[i]) {
            Some(level) => {
                r.push(level);
            },
            None => {},
        }
        i = i + 1;
    }
    assert(rows@.take(i as int) =~= rows@);
    r
}

/// A text begins with another.
pub open spec fn begins(s: Seq<char>, start: Seq<char>) -> bool {
    start.len() <= s.len() && s.take(start.len() as int) == start
}

/// The text of a member, or another where it has none.
pub open spec fn text_or(value: Json, key: Seq<char>, missing: Seq<char>) -> Seq<char> {
    match json::text_in(json::member_of(value, key)) {
        Some(s) => s,
        None => missing,
    }
}

/// The state after an update of a symbol's book; a stale one is counted as an error.
pub open spec fn booked(
    m: MarketView,
    symbol: Seq<char>,
    kind: Seq<char>,
    bids: Seq<Level>,
    asks: Seq<Level>,
    sequence: i64,
    clock: Double,
) -> MarketView {
    let book = table::entry_or(m.books, symbol, BookView::empty());
    if book.accepts(kind, sequence) {
        MarketView {
            books: m.books.insert(symbol, book.updated(kind, bids, asks, sequence, clock)),
            ..m
        }
    } else {
        MarketView {
            books: m.books.insert(symbol, book),
            data_quality_errors: m.data_quality_errors.wrapping_add(1),
            ..m
        }
    }
}

/// The state after a message about a book.
pub open spec fn book_message(m: MarketView, msg: Json, clock: Double) -> MarketView {
    let data = json::member_of(msg, "data"@);
    match json::text_in(json::member_of(data, "s"@)) {
        Some(symbol) => booked(
            m,
            symbol,
            text_or(msg, "type"@, "delta"@),
            levels_of(json::member_of(data, "b"@)),
            levels_of(json::member_of(data, "a"@)),
            match json::signed_in(json::member_of(data, "u"@)) {
                Some(sequence) => sequence,
                None => 0,
            },
            clock,
        ),
        None => m,
    }
}

/// The symbol and the trade of a row, if the row holds one.
pub open spec fn trade_in(row: Json) -> Option<(Seq<char>, TradeTick)> {
    match (
        json::text_in(json::member_of(row, "s"@)),
        json::double_in(json::member_of(row, "T"@)),
        json::text_in(json::member_of(row, "S"@)),
    ) {
        (Some(symbol), Some(time), Some(side)) => Some(
            (
                symbol,
                TradeTick {
                    timestamp: time.div(Double::whole(1_000)),
                    is_buy: side == "Buy"@,
                    price: scanner::amount(json::member_of(row, "p"@)),
                    size: scanner::amount(json::member_of(row, "v"@)),
                },
            ),
        ),
        _ => None,
    }
}

/// The state after the trades of some rows, in order.
pub open spec fn traded(m: MarketView, rows: Seq<Json>) -> MarketView
    decreases rows.len(),
{
    if rows.len() == 0 {
        m
    } else {
        let before = traded(m, rows.drop_last());
        match trade_in(rows.last()) {
            Some((symbol, tick)) => before.ticked(symbol, tick),
            None => before,
        }
    }
}

/// The state after a message of the market stream.
pub open spec fn heard(m: MarketView, msg: Json, clock: Double) -> MarketView {
    let topic = text_or(msg, "topic"@, ""@);
    let data = json::member_of(msg, "data"@);
    if begins(topic, "orderbook"@) && !(data is Null) {
        book_message(m, msg, clock)
    } else if begins(topic, "publicTrade"@) {
        match json::items_in(data) {
            Some(rows) => traded(m, rows),
            None => m,
        }
    } else {
        m
    }
}

fn take_book(market: &mut MarketState, msg: &Json, data: &Json, clock: Double)
    requires
        *data == json::member_of(*msg, "data"@),
    ensures
        final(market)@ == book_message(old(market)@, *msg, clock),
{
    let symbol = match data.text_at("s") {
        Some(symbol) => symbol,
        None => {
            return;
        },
    };
    let kind = match msg.text_at("type") {
        Some(kind) => kind,
        None => "delta",
    };
    let raw_bids = data.get("b");
    let bids = parse_levels(raw_bids);
    let raw_asks = data.get("a");
    let asks = parse_levels(raw_asks);
    assert(bids@ =~= levels_of(json::member_of(*data, "b"@)));
    assert(asks@ =~= levels_of(json::member_of(*data, "a"@)));
    let found: Option<i64> = match data.get("u") {
        Some(value) => value.as_signed(),
        None => None,
    };
    let sequence: i64 = match found {
        Some(sequence) => sequence,
        None => 0,
    };
    apply_book(market, symbol, kind, &bids, &asks, sequence, clock);
}

/// Applies an update to a symbol's book and counts a stale one as an error.
pub fn apply_book(
    market: &mut MarketState,
    symbol: &str,
    kind: &str,
    bids: &Vec<Level>,
    asks: &Vec<Level>,
    sequence: i64,
    clock: Double,
)
    ensures
        final(market)@ == booked(
            old(market)@,
            symbol@,
            kind@,
            bids@,
            asks@,
            sequence,
            clock,
        ),
{
    let mut book = match market.books.remove(symbol) {
        Some(book) => book,
        None => OrderBook::new(),
    };
    let accepted = book.apply(kind, bids, asks, sequence, clock);
    market.books.insert(symbol, book);
    if !accepted {
        market.data_quality_errors = market.data_quality_errors.wrapping_add(1);
    }
    proof {
        let was = old(market)@;
        let next = booked(was, symbol@, kind@, bids@, asks@, sequence, clock);
        assert(market@.books =~= next.books);
    }
}

/// Takes a message of the market stream.
pub fn handle_message(market: &mut MarketState, msg: &Json, clock: Double)
    ensures
        final(market)@ == heard(old(market)@, *msg, clock),
{
    let topic = match msg.text_at("topic") {
        Some(topic) => topic,
        None => "",
    };
    let data = match msg.get("data") {
        Some(data) => data,
        None => {
            return;
        },
    };
    if text::starts_with(topic, "orderbook") && !data.is_null() {
        take_book(market, msg, data, clock);
    } else if text::starts_with(topic, "publicTrade") {
        match data.as_list() {
            Some(rows) => {
                let ghost start = market@;
                let mut i: usize = 0;
                while i < rows.len()
                    invariant
                        i <= rows@.len(),
                        market@ == traded(start, rows@.take(i as int)),
                    decreases rows@.len() - i,
                {
                    assert(rows@.take(i + 1).drop_last() =~= rows@.take(i as int));
                    take_trade(market, &rows[i]);
                    i = i + 1;
                }
                assert(rows@.take(i as int) =~= rows@);
            },
            None => {},
        }
    }
}

fn take_trade(market: &mut MarketState, row: &Json)
    ensures
        final(market)@ == (match trade_in(*row) {
            Some((symbol, tick)) => old(market)@.ticked(symbol, tick),
            None => old(market)@,
        }),
{
    let time = match row.get("T") {
        Some(value) => value.as_double(),
        None => None,
    };
    match (row.text_at("s"), time, row.text_at("S")) {
        (Some(symbol), Some(time), Some(side)) => {
            let tick = TradeTick {
                timestamp: time.div(Double::whole(1_000)),
                is_buy: text::text_eq(side, "Buy"),
                price: scanner::amount_at(row, "p"),
                size: scanner::amount_at(row, "v"),
            };
            market.push_tick(symbol, tick);
        },
        _ => {},
    }
}

/// The price around which the demo feed moves a symbol.
pub open spec fn demo_price(symbol: Seq<char>) -> Double {
    if symbol == "BTCUSDT"@ {
        Double::whole(66_500)
    } else if symbol == "ETHUSDT"@ {
        Double::whole(3_480)
    } else if symbol == "SOLUSDT"@ {
        Double::whole(148)
    } else if symbol == "XRPUSDT"@ {
        Double::ratio(52, 100)
    } else if symbol == "DOGEUSDT"@ {
        Double::ratio(128, 1_000)
    } else if symbol == "LINKUSDT"@ {
        Double::ratio(147, 10)
    } else if symbol == "AVAXUSDT"@ {
        Double::ratio(312, 10)
    } else if symbol == "SUIUSDT"@ {
        Double::ratio(91, 100)
    } else {
        Double::whole(10)
    }
}

/// The price around which the demo feed moves a symbol.
pub fn demo_base(symbol: &str) -> (r: Double)
    ensures
        r == demo_price(symbol@),
{
    if text::text_eq(symbol, "BTCUSDT") {
        Double::whole(66_500)
    } else if text::text_eq(symbol, "ETHUSDT") {
        Double::whole(3_480)
    } else if text::text_eq(symbol, "SOLUSDT") {
        Double::whole(148)
    } else if text::text_eq(symbol, "XRPUSDT") {
        Double::ratio(52, 100)
    } else if text::text_eq(symbol, "DOGEUSDT") {
        Double::ratio(128, 1_000)
    } else if text::text_eq(symbol, "LINKUSDT") {
        Double::ratio(147, 10)
    } else if text::text_eq(symbol, "AVAXUSDT") {
        Double::ratio(312, 10)
    } else if text::text_eq(symbol, "SUIUSDT") {
        Double::ratio(91, 100)
    } else {
        Double::whole(10)
    }
}

/// The number of candles that a demo history has.
pub const DEMO_CANDLES: usize = 100;

/// The angle whose sine moves a candle of the demo history.
pub open spec fn spec_wave_angle(index: u64) -> Double {
    Double::whole(index).div(Double::whole(9))
}

/// The angle whose sine moves a candle of the demo history.
#[verifier::when_used_as_spec(spec_wave_angle)]
pub fn wave_angle(index: u64) -> (r: Double)
    ensures
        r == spec_wave_angle(index),
{
    Double::whole(index).div(Double::whole(9))
}

/// A price times a number of ten-thousandths.
pub open spec fn spec_scaled(price: Double, parts: u64) -> Double {
    price.mul(Double::ratio(parts, 10_000))
}

#[verifier::when_used_as_spec(spec_scaled)]
pub fn scaled(price: Double, parts: u64) -> (r: Double)
    ensures
        r == spec_scaled(price, parts),
{
    price.mul(Double::ratio(parts, 10_000))
}

/// A candle of the demo history, before the last three of the M15 history are set.
pub open spec fn demo_candle(
    timeframe: Timeframe,
    base: Double,
    start: i64,
    index: int,
    wave: Double,
) -> Candle {
    let center = base.mul(Double::one().add(wave.mul(Double::ratio(8, 10_000))));
    Candle {
        timeframe,
        started_at: start.wrapping_sub(
            ((DEMO_CANDLES - index) as i64).wrapping_mul(timeframe.seconds()),
        ),
        open: scaled(center, 9_999),
        high: scaled(center, 10_003),
        low: scaled(center, 9_997),
        close: scaled(center, 10_001),
        volume: Double::whole(1_000),
        trades: 0,
    }
}

/// A candle with prices around a base, in ten-thousandths of it.
pub open spec fn spec_shaped(
    candle: Candle,
    base: Double,
    open: u64,
    high: u64,
    low: u64,
    close: u64,
) -> Candle {
    Candle {
        open: scaled(base, open),
        high: scaled(base, high),
        low: scaled(base, low),
        close: scaled(base, close),
        ..candle
    }
}

#[verifier::when_used_as_spec(spec_shaped)]
pub fn shaped(candle: Candle, base: Double, open: u64, high: u64, low: u64, close: u64) -> (r:
    Candle)
    ensures
        r == spec_shaped(candle, base, open, high, low, close),
{
    Candle {
        timeframe: candle.timeframe,
        started_at: candle.started_at,
        open: scaled(base, open),
        high: scaled(base, high),
        low: scaled(base, low),
        close: scaled(base, close),
        volume: candle.volume,
        trades: candle.trades,
    }
}

/// The history of the demo feed up to `now`: candles that swing around a base, moved by the
/// given sines. The M15 history ends with a bullish gap.
pub open spec fn demo_past(
    timeframe: Timeframe,
    base: Double,
    now: Double,
    waves: Seq<Double>,
) -> Seq<Candle> {
    let start = mtf_fvg::bucket(now.floor(), timeframe);
    let all = Seq::new(
        DEMO_CANDLES as nat,
        |i: int| demo_candle(timeframe, base, start, i, waves[i]),
    );
    if timeframe == Timeframe::M15 {
        all.update(97, shaped(all[97], base, 9_975, 9_982, 9_972, 9_980)).update(
            98,
            shaped(all[98], base, 9_980, 10_002, 9_978, 10_000),
        ).update(99, shaped(all[99], base, 9_990, 10_000, 9_988, 9_997))
    } else {
        all
    }
}

/// The history of the demo feed up to `now`.
pub fn demo_history(timeframe: Timeframe, base: Double, now: Double, waves: &Vec<Double>) -> (r: Vec<
    Candle,
>)
    requires
        waves@.len() == DEMO_CANDLES,
    ensures
        r@ == demo_past(timeframe, base, now, waves@),
{
    let start = mtf_fvg::bucket(now.floor(), timeframe);
    let ghost all = Seq::new(
        DEMO_CANDLES as nat,
        |i: int| demo_candle(timeframe, base, start, i, waves@[i]),
    );
    let mut r: Vec<Candle> = Vec::new();
    let mut i: usize = 0;
    while i < DEMO_CANDLES
        invariant
            i <= DEMO_CANDLES,
            waves@.len() == DEMO_CANDLES,
            all == Seq::new(
                DEMO_CANDLES as nat,
                |i: int| demo_candle(timeframe, base, start, i, waves@[i]),
            ),
            r@ == all.take(i as int),
        decreases DEMO_CANDLES - i,
    {
        let center = base.mul(Double::one().add(waves[i].mul(Double::ratio(8, 10_000))));
        r.push(
            Candle {
                timeframe,
                started_at: start.wrapping_sub(
                    ((DEMO_CANDLES - i) as i64).wrapping_mul(timeframe.seconds()),
                ),
                open: scaled(center, 9_999),
                high: scaled(center, 10_003),
                low: scaled(center, 9_997),
                close: scaled(center, 10_001),
                volume: Double::whole(1_000),
                trades: 0,
            },
        );
        assert(all.take(i + 1) =~= all.take(i as int).push(all[i as int]));
        i = i + 1;
    }
    assert(all.take(i as int) =~= all);
    if timeframe == Timeframe::M15 {
        let first = r[97];
        r.set(97, shaped(first, base, 9_975, 9_982, 9_972, 9_980));
        let middle = r[98];
        r.set(98, shaped(middle, base, 9_980, 10_002, 9_978, 10_000));
        let last = r[99];
        r.set(99, shaped(last, base, 9_990, 10_000, 9_988, 9_997));
    }
    r
}

/// The state after demo histories have been given to some symbols, in order.
pub open spec fn demo_seeded(
    m: MarketView,
    symbols: Seq<Seq<char>>,
    waves: Seq<Double>,
    now: Double,
) -> MarketView
    decreases symbols.len(),
{
    if symbols.len() == 0 {
        m
    } else {
        let symbol = symbols.last();
        scanner::with_history(
            demo_seeded(m, symbols.drop_last(), waves, now),
            symbol,
            demo_past(Timeframe::M15, demo_price(symbol), now, waves),
            demo_past(Timeframe::M1, demo_price(symbol), now, waves),
        )
    }
}

/// The state after the demo feed has been given its histories; only the gap strategy needs
/// them.
pub open spec fn demo_prepared(
    m: MarketView,
    settings: Settings,
    symbols: Seq<Seq<char>>,
    waves: Seq<Double>,
    now: Double,
) -> MarketView {
    if settings.strategy_mode@ == "fvg"@ {
        demo_seeded(m, symbols, waves, now)
    } else {
        m
    }
}

/// Gives the symbols of the demo feed their histories. `waves` are the sines of the angles
/// that [`wave_angle`] names.
pub fn seed_demo_mtf_history(
    market: &mut MarketState,
    settings: &Settings,
    symbols: &Vec<String>,
    waves: &Vec<Double>,
    now: Double,
)
    requires
        waves@.len() == DEMO_CANDLES,
    ensures
        final(market)@ == demo_prepared(
            old(market)@,
            *settings,
            sorting::texts(symbols@),
            waves@,
            now,
        ),
{
    if !text::text_eq(settings.strategy_mode.as_str(), "fvg") {
        return;
    }
    let ghost start = market@;
    let ghost all = sorting::texts(symbols@);
    let mut i: usize = 0;
    while i < symbols.len()
        invariant
            i <= symbols@.len(),
            waves@.len() == DEMO_CANDLES,
            all == sorting::texts(symbols@),
            market@ == demo_seeded(start, all.take(i as int), waves@, now),
        decreases symbols@.len() - i,
    {
        let symbol = symbols[i].as_str();
        proof {
            assert(all.take(i + 1).drop_last() =~= all.take(i as int));
            assert(all.take(i + 1).last() == symbol@);
        }
        let base = demo_base(symbol);
        let m15 = demo_history(Timeframe::M15, base, now, waves);
        let m1 = demo_history(Timeframe::M1, base, now, waves);
        scanner::take_history(market, symbol, &m15, &m1);
        i = i + 1;
    }
    assert(all.take(i as int) =~= all);
}

/// The entries of a map under some names.
pub open spec fn kept<V>(items: Map<Seq<char>, V>, names: Seq<Seq<char>>) -> Map<Seq<char>, V> {
    Map::new(
        |name: Seq<char>| items.dom().contains(name) && names.contains(name),
        |name: Seq<char>| items[name],
    )
}

fn has_text(list: &Vec<String>, name: &str) -> (r: bool)
    ensures
        r == sorting::texts(list@).contains(name@),
{
    let ghost all = sorting::texts(list@);
    let mut i: usize = 0;
    while i < list.len()
        invariant
            i <= list@.len(),
            all == sorting::texts(list@),
            forall|j: int| 0 <= j < i ==> #[trigger] all[j] != name@,
        decreases list@.len() - i,
    {
        assert(all[i as int] == list@[i as int]@);
        if text::text_eq(list[i].as_str(), name) {
            return true;
        }
        i = i + 1;
    }
    false
}

/// Takes out everything but the entries under some names.
fn keep_only<V>(items: &mut Table<V>, names: &Vec<String>)
    ensures
        final(items)@ == kept(old(items)@, sorting::texts(names@)),
{
    let ghost was = items@;
    let ghost wanted = sorting::texts(names@);
    let keys = sorting::names_of(items);
    let ghost all = sorting::texts(keys@);
    let mut i: usize = 0;
    while i < keys.len()
        invariant
            i <= keys@.len(),
            all == sorting::texts(keys@),
            wanted == sorting::texts(names@),
            forall|t: Seq<char>| #[trigger] all.contains(t) <==> was.dom().contains(t),
            forall|t: Seq<char>|
                #[trigger] items@.dom().contains(t) <==> was.dom().contains(t) && (
                wanted.contains(t) || !all.take(i as int).contains(t)),
            forall|t: Seq<char>| #[trigger] items@.dom().contains(t) ==> items@[t] == was[t],
        decreases keys@.len() - i,
    {
        let key = keys[i].as_str();
        let ghost before = items@;
        proof {
            assert(all[i as int] == key@);
            assert(all.take(i + 1) =~= all.take(i as int).push(key@));
            assert forall|t: Seq<char>| #[trigger]
                all.take(i + 1).contains(t) <==> all.take(i as int).contains(t) || t == key@ by {
                if all.take(i as int).contains(t) {
                    let j = choose|j: int| 0 <= j < i && all.take(i as int)[j] == t;
                    assert(all.take(i + 1)[j] == t);
                }
                if t == key@ {
                    assert(all.take(i + 1)[i as int] == t);
                }
            }
        }
        if !has_text(names, key) {
            let _ = items.remove(key);
        }
        i = i + 1;
    }
    proof {
        assert(all.take(i as int) =~= all);
        assert(items@ =~= kept(was, wanted));
    }
}

/// The streams that a manager keeps, by their contents.
#[verifier::ext_equal]
pub struct StreamView {
    pub symbols: Seq<Seq<char>>,
    pub demo: bool,
    pub generation: u64,
}

/// Which symbols are followed, on which source, and how often that changed.
pub struct StreamManager {
    pub symbols: Vec<String>,
    pub demo: bool,
    pub generation: u64,
}

/// What to do about the streams.
#[derive(Debug)]
pub enum StreamStep {
    /// The streams go on.
    Keep,
    /// All streams end, and one demo feed begins.
    Demo(Vec<String>),
    /// All streams end, and one live feed begins for each group of symbols.
    Live(Vec<Vec<String>>),
}

/// What to do about the streams, by its contents.
#[verifier::ext_equal]
pub enum StreamPlan {
    Keep,
    Demo(Seq<Seq<char>>),
    Live(Seq<Seq<Seq<char>>>),
}

/// Groups of symbols by their contents.
pub open spec fn groups_view(groups: Seq<Vec<String>>) -> Seq<Seq<Seq<char>>> {
    groups.map_values(|g: Vec<String>| sorting::texts(g@))
}

impl StreamStep {
    pub open spec fn view(&self) -> StreamPlan {
        match self {
            StreamStep::Keep => StreamPlan::Keep,
            StreamStep::Demo(symbols) => StreamPlan::Demo(sorting::texts(symbols@)),
            StreamStep::Live(groups) => StreamPlan::Live(groups_view(groups@)),
        }
    }
}

/// A list cut into groups of the same size; the last one may be smaller.
pub open spec fn groups(list: Seq<Seq<char>>, size: int) -> Seq<Seq<Seq<char>>>
    decreases list.len(),
{
    if size <= 0 || list.len() == 0 {
        Seq::empty()
    } else if list.len() <= size {
        seq![list]
    } else {
        seq![list.take(size)] + groups(list.skip(size), size)
    }
}

/// The symbols to follow: those asked for and those with open positions, each once, in
/// their order.
pub open spec fn effective(symbols: Seq<Seq<char>>, positions: Set<Seq<char>>) -> Seq<Seq<char>> {
    sorting::listing(wanted(symbols, positions))
}

/// The symbols asked for and those with open positions.
pub open spec fn wanted(symbols: Seq<Seq<char>>, positions: Set<Seq<char>>) -> Set<Seq<char>> {
    Set::new(|s: Seq<char>| symbols.contains(s) || positions.contains(s))
}

/// The source changes while positions are open: that has to wait.
pub open spec fn deferred(streams: StreamView, m: MarketView, demo: bool) -> bool {
    demo != streams.demo && streams.symbols.len() > 0 && m.positions.dom().len() > 0
}

/// The state when streams begin anew. What belongs to symbols that are no longer followed
/// goes; with the source everything goes.
pub open spec fn restarted(
    m: MarketView,
    symbols: Seq<Seq<char>>,
    demo: bool,
    source_changed: bool,
) -> MarketView {
    MarketView {
        source: if demo {
            "DEMO"@
        } else {
            "LIVE"@
        },
        connections: 0,
        books: if source_changed {
            Map::empty()
        } else {
            kept(m.books, symbols)
        },
        trades: if source_changed {
            Map::empty()
        } else {
            kept(m.trades, symbols)
        },
        mtf_bars: if source_changed {
            Map::empty()
        } else {
            kept(m.mtf_bars, symbols)
        },
        metrics: if source_changed {
            Map::empty()
        } else {
            kept(m.metrics, symbols)
        },
        mtf_fvg: Map::empty(),
        bid_walls: Map::empty(),
        ask_walls: Map::empty(),
        pending_signals: Map::empty(),
        session: m.session.wrapping_add(1),
        ..m
    }
}

/// What becomes of the streams, of the state and what is to be done when symbols are asked
/// for.
pub open spec fn followed(
    streams: StreamView,
    m: MarketView,
    settings: Settings,
    symbols: Seq<Seq<char>>,
    demo: bool,
    waves: Seq<Double>,
    clock: Double,
) -> (StreamView, MarketView, StreamPlan) {
    let list = effective(symbols, m.positions.dom());
    if deferred(streams, m, demo) {
        let noted = scanner::noted(
            m,
            "WARN"@,
            "Data-source switch deferred until all paper positions are closed"@,
            "SYSTEM"@,
            Double::whole(30),
            clock,
        );
        (streams, noted, StreamPlan::Keep)
    } else if list == streams.symbols && demo == streams.demo {
        (streams, m, StreamPlan::Keep)
    } else {
        let next = StreamView {
            symbols: list,
            demo,
            generation: streams.generation.wrapping_add(1),
        };
        let begun = restarted(m, list, demo, demo != streams.demo);
        if demo {
            let noted = scanner::noted(
                demo_prepared(begun, settings, list, waves, clock),
                "DEMO"@,
                "Deterministic demo feed active"@,
                "SYSTEM"@,
                Double::zero(),
                clock,
            );
            (next, noted, StreamPlan::Demo(list))
        } else {
            (next, begun, StreamPlan::Live(groups(list, settings.ws_chunk_size as int)))
        }
    }
}

fn restart(market: &mut MarketState, symbols: &Vec<String>, demo: bool, source_changed: bool)
    ensures
        final(market)@ == restarted(
            old(market)@,
            sorting::texts(symbols@),
            demo,
            source_changed,
        ),
{
    market.source = if demo {
        "DEMO".to_owned()
    } else {
        "LIVE".to_owned()
    };
    market.connections = 0;
    if source_changed {
        market.books = Table::new();
        market.trades = Table::new();
        market.mtf_bars = Table::new();
        market.metrics = Table::new();
    } else {
        keep_only(&mut market.books, symbols);
        keep_only(&mut market.trades, symbols);
        keep_only(&mut market.mtf_bars, symbols);
        keep_only(&mut market.metrics, symbols);
    }
    market.bid_walls = Table::new();
    market.ask_walls = Table::new();
    market.pending_signals = Table::new();
    market.mtf_fvg = Table::new();
    market.session = market.session.wrapping_add(1);
    proof {
        let next = restarted(old(market)@, sorting::texts(symbols@), demo, source_changed);
        assert(market@.books =~= next.books);
        assert(market@.trades =~= next.trades);
        assert(market@.mtf_bars =~= next.mtf_bars);
        assert(market@.mtf_fvg =~= next.mtf_fvg);
        assert(market@.metrics =~= next.metrics);
    }
}

fn list_effective(symbols: &Vec<String>, market: &MarketState) -> (r: Vec<String>)
    ensures
        sorting::texts(r@) == effective(sorting::texts(symbols@), market@.positions.dom()),
        sorting::is_listing(
            wanted(sorting::texts(symbols@), market@.positions.dom()),
            sorting::texts(r@),
        ),
{
    let ghost asked = sorting::texts(symbols@);
    let mut r = sorting::names_of(&market.positions);
    let mut i: usize = 0;
    while i < symbols.len()
        invariant
            i <= symbols@.len(),
            asked == sorting::texts(symbols@),
            sorting::ascending(sorting::texts(r@)),
            forall|t: Seq<char>|
                #[trigger] sorting::texts(r@).contains(t) <==> market@.positions.dom().contains(t)
                    || asked.take(i as int).contains(t),
        decreases symbols@.len() - i,
    {
        let symbol = symbols[i].as_str();
        proof {
            let next = asked.take(i + 1);
            assert(asked[i as int] == symbol@);
            assert forall|t: Seq<char>| #[trigger]
                asked.take(i + 1).contains(t) <==> asked.take(i as int).contains(t) || t
                    == symbol@ by {
                if asked.take(i as int).contains(t) {
                    let j = choose|j: int| 0 <= j < i && asked.take(i as int)[j] == t;
                    assert(asked.take(i + 1)[j] == t);
                }
                if next.contains(t) {
                    let j = choose|j: int| 0 <= j < next.len() && next[j] == t;
                    if j < i {
                        assert(asked.take(i as int)[j] == t);
                    }
                }
                if t == symbol@ {
                    assert(asked.take(i + 1)[i as int] == t);
                }
            }
        }
        sorting::put_text(&mut r, symbol);
        i = i + 1;
    }
    proof {
        assert(asked.take(i as int) =~= asked);
        let set = wanted(asked, market@.positions.dom());
        assert(sorting::is_listing(set, sorting::texts(r@)));
        sorting::listing_is_unique(set, sorting::texts(r@), sorting::listing(set));
    }
    r
}

fn same_texts(a: &Vec<String>, b: &Vec<String>) -> (r: bool)
    ensures
        r == (sorting::texts(a@) == sorting::texts(b@)),
{
    let ghost x = sorting::texts(a@);
    let ghost y = sorting::texts(b@);
    assert(x.len() == a@.len() && y.len() == b@.len());
    if a.len() != b.len() {
        return false;
    }
    let mut i: usize = 0;
    while i < a.len()
        invariant
            i <= a@.len(),
            a@.len() == b@.len(),
            x == sorting::texts(a@),
            y == sorting::texts(b@),
            forall|j: int| 0 <= j < i ==> #[trigger] x[j] == y[j],
        decreases a@.len() - i,
    {
        assert(x[i as int] == a@[i as int]@);
        assert(y[i as int] == b@[i as int]@);
        if !text::text_eq(a[i].as_str(), b[i].as_str()) {
            return false;
        }
        i = i + 1;
    }
    assert(x =~= y);
    true
}

fn copy_part(list: &Vec<String>, from: usize, to: usize) -> (r: Vec<String>)
    requires
        from <= to <= list@.len(),
    ensures
        sorting::texts(r@) == sorting::texts(list@).subrange(from as int, to as int),
{
    let ghost all = sorting::texts(list@);
    let mut r: Vec<String> = Vec::new();
    let mut i: usize = from;
    assert(sorting::texts(r@) =~= all.subrange(from as int, from as int));
    while i < to
        invariant
            from <= i <= to <= list@.len(),
            all == sorting::texts(list@),
            sorting::texts(r@) == all.subrange(from as int, i as int),
        decreases to - i,
    {
        let ghost before = sorting::texts(r@);
        r.push(list[i].clone());
        proof {
            assert(sorting::texts(r@) =~= before.push(all[i as int]));
            assert(all.subrange(from as int, i + 1) =~= all.subrange(from as int, i as int).push(
                all[i as int],
            ));
        }
        i = i + 1;
    }
    r
}

fn cut(list: &Vec<String>, size: usize) -> (r: Vec<Vec<String>>)
    requires
        size > 0,
    ensures
        groups_view(r@) == groups(sorting::texts(list@), size as int),
{
    let ghost all = sorting::texts(list@);
    let n = list.len();
    let mut r: Vec<Vec<String>> = Vec::new();
    let mut from: usize = 0;
    assert(all.skip(0) =~= all);
    assert(groups_view(r@) + groups(all, size as int) =~= groups(all, size as int));
    while from < n
        invariant
            size > 0,
            n == list@.len(),
            from <= n,
            all == sorting::texts(list@),
            groups_view(r@) + groups(all.skip(from as int), size as int) == groups(
                all,
                size as int,
            ),
        decreases n - from,
    {
        let ghost rest = all.skip(from as int);
        let ghost before = groups_view(r@);
        let to = if n - from <= size {
            n
        } else {
            from + size
        };
        let part = copy_part(list, from, to);
        let ghost added = sorting::texts(part@);
        r.push(part);
        proof {
            assert(groups_view(r@) =~= before.push(added));
            if n - from <= size {
                assert(added =~= rest);
                assert(before + seq![rest] =~= before.push(rest));
                assert(groups(all.skip(to as int), size as int) =~= Seq::empty());
                assert(before.push(added) + Seq::<Seq<Seq<char>>>::empty() =~= before.push(added));
            } else {
                assert(added =~= rest.take(size as int));
                assert(rest.skip(size as int) =~= all.skip(to as int));
                assert(before + (seq![added] + groups(all.skip(to as int), size as int))
                    =~= before.push(added) + groups(all.skip(to as int), size as int));
            }
        }
        from = to;
    }
    assert(groups(all.skip(from as int), size as int) =~= Seq::empty());
    assert(groups_view(r@) + Seq::<Seq<Seq<char>>>::empty() =~= groups_view(r@));
    r
}

impl StreamManager {
    pub open spec fn view(&self) -> StreamView {
        StreamView {
            symbols: sorting::texts(self.symbols@),
            demo: self.demo,
            generation: self.generation,
        }
    }

    pub fn new() -> (r: StreamManager)
        ensures
            r@ == (StreamView { symbols: Seq::empty(), demo: false, generation: 0 }),
    {
        let r = StreamManager { symbols: Vec::new(), demo: false, generation: 0 };
        assert(sorting::texts(r.symbols@) =~= Seq::empty());
        r
    }

    /// Whether the demo feed runs, or would whatever is asked for.
    pub fn is_demo(&self, settings: &Settings) -> (r: bool)
        ensures
            r == (self@.demo || settings.force_demo),
    {
        self.demo || settings.force_demo
    }

    /// Follows symbols, live or on the demo feed. `waves` are the sines of the angles that
    /// [`wave_angle`] names.
    pub fn set_symbols(
        &mut self,
        market: &mut MarketState,
        settings: &Settings,
        symbols: &Vec<String>,
        demo: bool,
        waves: &Vec<Double>,
        clock: Double,
    ) -> (r: StreamStep)
        requires
            demo || settings.force_demo || settings.ws_chunk_size > 0 || deferred(
                old(self)@,
                old(market)@,
                false,
            ) || (!old(self)@.demo && old(self)@.symbols == effective(
                sorting::texts(symbols@),
                old(market)@.positions.dom(),
            )),
            waves@.len() == DEMO_CANDLES,
        ensures
            (final(self)@, final(market)@, r@) == followed(
                old(self)@,
                old(market)@,
                *settings,
                sorting::texts(symbols@),
                demo || settings.force_demo,
                waves@,
                clock,
            ),
            !deferred(old(self)@, old(market)@, demo || settings.force_demo)
                ==> sorting::is_listing(
                wanted(sorting::texts(symbols@), old(market)@.positions.dom()),
                final(self)@.symbols,
            ),
    {
        let demo = demo || settings.force_demo;
        assert(sorting::texts(self.symbols@).len() == self.symbols@.len());
        if demo != self.demo && self.symbols.len() > 0 && market.positions.len() > 0 {
            market.log(
                "WARN",
                "Data-source switch deferred until all paper positions are closed",
                "SYSTEM",
                Double::whole(30),
                clock,
            );
            return StreamStep::Keep;
        }
        let list = list_effective(symbols, market);
        if same_texts(&list, &self.symbols) && demo == self.demo {
            return StreamStep::Keep;
        }
        let source_changed = demo != self.demo;
        self.symbols = copy_part(&list, 0, list.len());
        proof {
            let all = sorting::texts(list@);
            assert(all.subrange(0, list@.len() as int) =~= all);
        }
        self.demo = demo;
        self.generation = self.generation.wrapping_add(1);
        restart(market, &list, demo, source_changed);
        if demo {
            seed_demo_mtf_history(market, settings, &list, waves, clock);
            market.log("DEMO", "Deterministic demo feed active", "SYSTEM", Double::zero(), clock);
            StreamStep::Demo(list)
        } else {
            StreamStep::Live(cut(&list, settings.ws_chunk_size))
        }
    }
}

/// While positions are open the source of prices never changes under them: the streams stay,
/// and so does everything but the log.
pub proof fn the_source_waits_for_open_positions(
    streams: StreamView,
    m: MarketView,
    settings: Settings,
    symbols: Seq<Seq<char>>,
    demo: bool,
    waves: Seq<Double>,
    clock: Double,
)
    requires
        streams.symbols.len() > 0,
        m.positions.dom().len() > 0,
    ensures
        ({
            let (next, after, plan) = followed(
                streams,
                m,
                settings,
                symbols,
                demo,
                waves,
                clock,
            );
            &&& next.demo == streams.demo
            &&& demo != streams.demo ==> next == streams && plan is Keep && after == (MarketView {
                journal: after.journal,
                ..m
            })
        }),
{
}

/// Nothing observed on other streams survives a new beginning: whenever the streams change,
/// the session changes, and walls, signals and setups are forgotten.
pub proof fn a_new_beginning_forgets(
    streams: StreamView,
    m: MarketView,
    settings: Settings,
    symbols: Seq<Seq<char>>,
    demo: bool,
    waves: Seq<Double>,
    clock: Double,
)
    ensures
        ({
            let (next, after, plan) = followed(
                streams,
                m,
                settings,
                symbols,
                demo,
                waves,
                clock,
            );
            &&& plan is Keep <==> next == streams
            &&& !(plan is Keep) ==> {
                &&& after.session == m.session.wrapping_add(1)
                &&& after.session != m.session
                &&& after.bid_walls == Map::<Seq<char>, WallTrack>::empty()
                &&& after.ask_walls == Map::<Seq<char>, WallTrack>::empty()
                &&& after.pending_signals == Map::<
                    Seq<char>,
                    PendingSignal,
                >::empty()
                &&& after.mtf_fvg == Map::<Seq<char>, TrackerView>::empty()
                &&& after.positions == m.positions
                &&& after.closed == m.closed
            }
        }),
{
    let list = effective(symbols, m.positions.dom());
    lemma_seeding_keeps(restarted(m, list, demo, demo != streams.demo), list, waves, clock);
    assert(streams.generation.wrapping_add(1) != streams.generation);
}

proof fn lemma_seeding_keeps(
    m: MarketView,
    symbols: Seq<Seq<char>>,
    waves: Seq<Double>,
    now: Double,
)
    ensures
        demo_seeded(m, symbols, waves, now) == (MarketView {
            mtf_bars: demo_seeded(m, symbols, waves, now).mtf_bars,
            ..m
        }),
    decreases symbols.len(),
{
    if symbols.len() > 0 {
        lemma_seeding_keeps(m, symbols.drop_last(), waves, now);
    }
}

} // verus!

//! What the market streams and the demo feed bring into the state.
use vstd::prelude::*;
use crate::double::Double;
use crate::feeds;
use crate::feeds::DrawView;
use crate::json;
use crate::json::Json;
use crate::models::{BookView, Level};
use crate::mtf_fvg::Timeframe;
use crate::reading;
use crate::state::MarketView;
use crate::stream;
use crate::stream::{StreamPlan, StreamView};

verus! {

/// A level is a list of at least two texts that both are numbers, the price before the size;
/// anything else is no level.
pub proof fn a_level_is_a_price_and_a_size(row: Json)
    ensures
        match stream::level_in(row) {
            Some(level) => match row {
                Json::List(pair) => pair@.len() >= 2 && (match pair@[0] {
                    Json::Text(price) => reading::double_of(price@) == Some(level.0),
                    _ => false,
                }) && (match pair@[1] {
                    Json::Text(size) => reading::double_of(size@) == Some(level.1),
                    _ => false,
                }),
                _ => false,
            },
            None => match row {
                Json::List(pair) => pair@.len() < 2 || (match pair@[0] {
                    Json::Text(price) => reading::double_of(price@) is None,
                    _ => true,
                }) || (match pair@[1] {
                    Json::Text(size) => reading::double_of(size@) is None,
                    _ => true,
                }),
                _ => true,
            },
        },
{
}

/// Levels are read one after the other, and a row that is none is left out alone.
pub proof fn every_level_is_read(rows: Seq<Json>, row: Json)
    ensures
        stream::levels_in(Seq::empty()).len() == 0,
        stream::level_in(row) is Some ==> stream::levels_in(rows.push(row)) == stream::levels_in(
            rows,
        ).push(stream::level_in(row)->0),
        stream::level_in(row) is None ==> stream::levels_in(rows.push(row)) == stream::levels_in(
            rows,
        ),
{
    assert(rows.push(row).drop_last() =~= rows);
}

/// A row is a trade exactly when it has a symbol, a moment and a side; the moment is given in
/// thousandths of a second, and the buyer was the aggressor exactly when the side is `Buy`.
pub proof fn a_trade_has_a_symbol_a_moment_and_a_side(row: Json)
    ensures
        ({
            let symbol = json::text_in(json::member_of(row, "s"@));
            let time = json::double_in(json::member_of(row, "T"@));
            let side = json::text_in(json::member_of(row, "S"@));
            match stream::trade_in(row) {
                Some(trade) => {
                    &&& symbol == Some(trade.0)
                    &&& time is Some
                    &&& side is Some
                    &&& trade.1.timestamp == (time->0).div(Double::whole(1_000))
                    &&& trade.1.is_buy <==> side->0 == "Buy"@
                    &&& match json::member_of(row, "p"@) {
                        Json::Text(s) => reading::double_of(s@) is Some ==> trade.1.price
                            == reading::double_of(s@)->0,
                        _ => trade.1.price == Double::zero(),
                    }
                    &&& match json::member_of(row, "v"@) {
                        Json::Text(s) => reading::double_of(s@) is Some ==> trade.1.size
                            == reading::double_of(s@)->0,
                        _ => trade.1.size == Double::zero(),
                    }
                },
                None => symbol is None || time is None || side is None,
            }
        }),
{
}

/// The trades of a message enter the state one after the other.
pub proof fn every_trade_is_taken(m: MarketView, rows: Seq<Json>, row: Json)
    ensures
        stream::traded(m, Seq::empty()) == m,
        match stream::trade_in(row) {
            Some(trade) => stream::traded(m, rows.push(row)) == stream::traded(m, rows).ticked(
                trade.0,
                trade.1,
            ),
            None => stream::traded(m, rows.push(row)) == stream::traded(m, rows),
        },
{
    assert(rows.push(row).drop_last() =~= rows);
}

/// An update goes to the book of its symbol, an empty one where there was none. One that is
/// behind the book changes nothing but the count of data errors; one that is not leaves that
/// count alone. No other book changes.
pub proof fn an_update_goes_to_its_book(
    m: MarketView,
    symbol: Seq<char>,
    kind: Seq<char>,
    bids: Seq<Level>,
    asks: Seq<Level>,
    sequence: i64,
    clock: Double,
    other: Seq<char>,
)
    requires
        other != symbol,
    ensures
        ({
            let after = stream::booked(m, symbol, kind, bids, asks, sequence, clock);
            let before = if m.books.dom().contains(symbol) {
                m.books[symbol]
            } else {
                BookView::empty()
            };
            let taken = kind == "snapshot"@ || before.sequence < sequence;
            &&& after.books.dom().contains(symbol)
            &&& taken ==> after.books[symbol] == before.updated(kind, bids, asks, sequence, clock)
                && after.data_quality_errors == m.data_quality_errors
            &&& !taken ==> after.books[symbol] == before && (m.data_quality_errors < u64::MAX
                ==> after.data_quality_errors == m.data_quality_errors + 1)
            &&& after.books.dom().contains(other) <==> m.books.dom().contains(other)
            &&& m.books.dom().contains(other) ==> after.books[other] == m.books[other]
            &&& after.trades == m.trades
            &&& after.positions == m.positions
            &&& after.journal == m.journal
        }),
{
}

/// A new book holds nothing.
pub proof fn a_new_book_is_empty()
    ensures
        BookView::empty().bids.len() == 0,
        BookView::empty().asks.len() == 0,
        BookView::empty().sequence == 0,
        BookView::empty().updated_at == Double::zero(),
{
}

/// A message about a book without a symbol changes nothing; one with a symbol updates that book
/// with the bids and the asks that it holds, as a delta where it does not say what it is and with
/// sequence zero where it has none.
pub proof fn a_book_message_updates_its_book(m: MarketView, msg: Json, clock: Double)
    ensures
        ({
            let data = json::member_of(msg, "data"@);
            let after = stream::book_message(m, msg, clock);
            match json::member_of(data, "s"@) {
                Json::Text(symbol) => after == stream::booked(
                    m,
                    symbol@,
                    match json::member_of(msg, "type"@) {
                        Json::Text(kind) => kind@,
                        _ => "delta"@,
                    },
                    match json::member_of(data, "b"@) {
                        Json::List(rows) => stream::levels_in(rows@),
                        _ => Seq::empty(),
                    },
                    match json::member_of(data, "a"@) {
                        Json::List(rows) => stream::levels_in(rows@),
                        _ => Seq::empty(),
                    },
                    match json::signed_in(json::member_of(data, "u"@)) {
                        Some(sequence) => sequence,
                        None => 0,
                    },
                    clock,
                ),
                _ => after == m,
            }
        }),
{
}

/// A message is taken by what its topic begins with: one of the order book touches books only,
/// one of public trades touches tapes and candles only, and any other nothing at all.
pub proof fn a_message_touches_what_it_is_about(m: MarketView, msg: Json, clock: Double)
    ensures
        ({
            let topic = match json::member_of(msg, "topic"@) {
                Json::Text(s) => s@,
                _ => ""@,
            };
            let book = "orderbook"@.is_prefix_of(topic);
            let trade = "publicTrade"@.is_prefix_of(topic);
            let after = stream::heard(m, msg, clock);
            let data = json::member_of(msg, "data"@);
            &&& !book && !trade ==> after == m
            &&& data is Null ==> after == m
            &&& book && !(data is Null) ==> after == stream::book_message(m, msg, clock)
            &&& !book && trade ==> match data {
                Json::List(rows) => after == stream::traded(m, rows@),
                _ => after == m,
            }
        }),
{
    let topic = stream::text_or(msg, "topic"@, ""@);
    lemma_begins(topic, "orderbook"@);
    lemma_begins(topic, "publicTrade"@);
}

proof fn lemma_begins(s: Seq<char>, start: Seq<char>)
    ensures
        stream::begins(s, start) <==> start.is_prefix_of(s),
{
    if start.len() <= s.len() {
        assert(s.take(start.len() as int) =~= s.subrange(0, start.len() as int));
    }
}

/// Trades change tapes and candles and nothing else.
pub proof fn trades_change_tapes_only(m: MarketView, rows: Seq<Json>)
    ensures
        ({
            let after = stream::traded(m, rows);
            &&& after.books == m.books
            &&& after.positions == m.positions
            &&& after.closed == m.closed
            &&& after.journal == m.journal
            &&& after.data_quality_errors == m.data_quality_errors
        }),
    decreases rows.len(),
{
    if rows.len() > 0 {
        trades_change_tapes_only(m, rows.drop_last());
    }
}

/// The groups of a list are the list in order, cut into parts that all but the last are of the
/// full size and of which none is empty.
pub proof fn groups_are_the_list(list: Seq<Seq<char>>, size: int, i: int)
    requires
        size > 0,
    ensures
        ({
            let parts = stream::groups(list, size);
            &&& parts.flatten() == list
            &&& 0 <= i < parts.len() - 1 ==> parts[i].len() == size
            &&& 0 <= i < parts.len() ==> 0 < parts[i].len() <= size
        }),
    decreases list.len(),
{
    let parts = stream::groups(list, size);
    reveal_with_fuel(Seq::flatten, 3);
    if list.len() == 0 {
        assert(parts.flatten() =~= list);
    } else if list.len() <= size {
        assert(parts.first() == list);
        assert(parts.drop_first() =~= Seq::empty());
        assert(parts.flatten() =~= list);
    } else {
        groups_are_the_list(list.skip(size), size, i - 1);
        let rest = stream::groups(list.skip(size), size);
        assert(parts.first() == list.take(size));
        assert(parts.drop_first() =~= rest);
        assert(parts.flatten() =~= list.take(size) + rest.flatten());
        assert(parts.flatten() =~= list);
        if 0 < i < parts.len() {
            assert(parts[i] == rest[i - 1]);
        }
    }
}

/// Streams follow every symbol asked for and every symbol with an open position, and no other.
pub proof fn open_positions_are_followed(
    symbols: Seq<Seq<char>>,
    positions: Set<Seq<char>>,
    listed: Seq<Seq<char>>,
    name: Seq<char>,
)
    requires
        crate::sorting::is_listing(stream::wanted(symbols, positions), listed),
    ensures
        stream::effective(symbols, positions).contains(name) <==> symbols.contains(name)
            || positions.contains(name),
{
    crate::sorting::listing_is_unique(
        stream::wanted(symbols, positions),
        stream::effective(symbols, positions),
        listed,
    );
}

/// Streams that begin anew keep the books and the tapes of the symbols they follow, as they were,
/// and drop those of all others; from another source they drop all. Live and demo data say which
/// they are.
pub proof fn a_restart_keeps_what_is_followed(
    m: MarketView,
    symbols: Seq<Seq<char>>,
    demo: bool,
    source_changed: bool,
    name: Seq<char>,
)
    ensures
        ({
            let after = stream::restarted(m, symbols, demo, source_changed);
            let stays = symbols.contains(name) && !source_changed;
            &&& after.books.dom().contains(name) <==> stays && m.books.dom().contains(name)
            &&& after.trades.dom().contains(name) <==> stays && m.trades.dom().contains(name)
            &&& after.mtf_bars.dom().contains(name) <==> stays && m.mtf_bars.dom().contains(name)
            &&& after.metrics.dom().contains(name) <==> stays && m.metrics.dom().contains(name)
            &&& after.books.dom().contains(name) ==> after.books[name] == m.books[name]
            &&& after.trades.dom().contains(name) ==> after.trades[name] == m.trades[name]
            &&& after.mtf_bars.dom().contains(name) ==> after.mtf_bars[name] == m.mtf_bars[name]
            &&& after.metrics.dom().contains(name) ==> after.metrics[name] == m.metrics[name]
            &&& demo ==> after.source == "DEMO"@
            &&& !demo ==> after.source == "LIVE"@
            &&& after.connections == 0
            &&& after.positions == m.positions
            &&& after.closed == m.closed
            &&& after.cooldowns == m.cooldowns
        }),
{
}

/// Streams go on exactly when nothing changes or when the source would change under an open
/// position; else they begin anew, demo data on one feed and live data in groups.
pub proof fn streams_begin_anew_when_something_changes(
    streams: StreamView,
    m: MarketView,
    settings: crate::config::Settings,
    symbols: Seq<Seq<char>>,
    demo: bool,
    waves: Seq<Double>,
    clock: Double,
)
    ensures
        ({
            let (next, after, plan) = stream::followed(
                streams,
                m,
                settings,
                symbols,
                demo,
                waves,
                clock,
            );
            let list = stream::effective(symbols, m.positions.dom());
            let waits = demo != streams.demo && streams.symbols.len() > 0
                && m.positions.dom().len() > 0;
            let same = list == streams.symbols && demo == streams.demo;
            &&& plan is Keep <==> waits || same
            &&& !waits && same ==> after == m
            &&& !(plan is Keep) ==> next.symbols == list && next.demo == demo && next.generation
                != streams.generation
            &&& !(plan is Keep) && demo ==> plan == StreamPlan::Demo(list) && after.source
                == "DEMO"@
            &&& !(plan is Keep) && !demo ==> plan == StreamPlan::Live(
                stream::groups(list, settings.ws_chunk_size as int),
            ) && after == stream::restarted(m, list, false, streams.demo)
        }),
{
    let list = stream::effective(symbols, m.positions.dom());
    lemma_prepared(
        stream::restarted(m, list, demo, demo != streams.demo),
        settings,
        list,
        waves,
        clock,
    );
}

proof fn lemma_prepared(
    m: MarketView,
    settings: crate::config::Settings,
    symbols: Seq<Seq<char>>,
    waves: Seq<Double>,
    clock: Double,
)
    ensures
        stream::demo_prepared(m, settings, symbols, waves, clock).source == m.source,
        stream::demo_seeded(m, symbols, waves, clock).source == m.source,
    decreases symbols.len(),
{
    if symbols.len() > 0 {
        lemma_prepared(m, settings, symbols.drop_last(), waves, clock);
    }
}

/// A live feed asks for the book and for the trades of each of its symbols.
pub proof fn a_feed_asks_for_books_and_trades(symbols: Seq<Seq<char>>, i: int)
    requires
        0 <= i < symbols.len(),
    ensures
        feeds::topics(symbols).len() == 2 * symbols.len(),
        feeds::topics(symbols)[i] == "orderbook.50."@ + symbols[i],
        feeds::topics(symbols)[symbols.len() + i] == "publicTrade."@ + symbols[i],
{
}

/// A feed that breaks off is one less, but never fewer than none; the setups of its symbols are
/// gone, those of other symbols stay, and so do books, tapes and positions.
pub proof fn a_broken_feed_loses_its_own_setups(
    m: MarketView,
    symbols: Seq<Seq<char>>,
    clock: Double,
    other: Seq<char>,
)
    requires
        m.connections > i64::MIN,
        !symbols.contains(other),
    ensures
        ({
            let after = feeds::broken_off(m, symbols, clock);
            &&& after.connections == if m.connections > 1 {
                m.connections - 1
            } else {
                0
            }
            &&& after.mtf_fvg.dom().contains(other) <==> m.mtf_fvg.dom().contains(other)
            &&& m.mtf_fvg.dom().contains(other) ==> after.mtf_fvg[other] == m.mtf_fvg[other]
            &&& m.mtf_bars.dom().contains(other) ==> after.mtf_bars[other] == m.mtf_bars[other]
            &&& after.books == m.books
            &&& after.trades == m.trades
            &&& after.positions == m.positions
        }),
{
    let fewer = MarketView { connections: feeds::fewer(m.connections), ..m };
    lemma_reset(fewer, symbols, clock, other);
}

proof fn lemma_reset(m: MarketView, symbols: Seq<Seq<char>>, clock: Double, other: Seq<char>)
    requires
        !symbols.contains(other),
    ensures
        ({
            let after = feeds::reset(m, symbols, clock);
            &&& after.connections == m.connections
            &&& after.mtf_fvg.dom().contains(other) <==> m.mtf_fvg.dom().contains(other)
            &&& m.mtf_fvg.dom().contains(other) ==> after.mtf_fvg[other] == m.mtf_fvg[other]
            &&& m.mtf_bars.dom().contains(other) ==> after.mtf_bars.dom().contains(other)
                && after.mtf_bars[other] == m.mtf_bars[other]
            &&& after.books == m.books
            &&& after.trades == m.trades
            &&& after.positions == m.positions
        }),
    decreases symbols.len(),
{
    if symbols.len() > 0 {
        let rest = symbols.drop_last();
        assert(symbols[symbols.len() - 1] != other);
        assert(!rest.contains(other)) by {
            if rest.contains(other) {
                let i = choose|i: int| 0 <= i < rest.len() && rest[i] == other;
                assert(symbols[i] == other);
            }
        }
        lemma_reset(m, rest, clock, other);
    }
}

/// The levels of the demo feed lie on both sides of its price in equal steps, and a strong bias
/// puts a wall seven times as large on the fifth level of its own side.
#[verifier::spinoff_prover]
pub proof fn demo_levels_lie_around_the_price(price: Double, draw: DrawView, i: int)
    requires
        0 <= i < 50,
    ensures
        ({
            let away = Double::whole((i + 1) as u64).mul(Double::ratio(6, 100_000));
            let bid = feeds::demo_bids(price, draw)[i];
            let ask = feeds::demo_asks(price, draw)[i];
            let high = Double::ratio(45, 100);
            let bid_size = Double::whole(8).add(draw.sizes[2 * i].mul(Double::whole(14))).mul(
                Double::one().add(draw.bias.max(Double::zero()).mul(Double::ratio(17, 10))),
            );
            let ask_size = Double::whole(8).add(draw.sizes[2 * i + 1].mul(Double::whole(14))).mul(
                Double::one().add(draw.bias.neg().max(Double::zero()).mul(Double::ratio(17, 10))),
            );
            &&& feeds::demo_bids(price, draw).len() == 50
            &&& feeds::demo_asks(price, draw).len() == 50
            &&& bid.0 == price.mul(Double::one().sub(away))
            &&& ask.0 == price.mul(Double::one().add(away))
            &&& i != 4 || !high.lt(draw.bias) ==> bid.1 == bid_size
            &&& i == 4 && high.lt(draw.bias) ==> bid.1 == bid_size.mul(Double::whole(7))
            &&& i != 4 || !high.lt(draw.bias.neg()) ==> ask.1 == ask_size
            &&& i == 4 && high.lt(draw.bias.neg()) ==> ask.1 == ask_size.mul(Double::whole(7))
        }),
{
}

/// A tick of the demo feed shows a whole new book around its price and one trade at it, bought
/// where the coin falls below a half that leans with the bias.
#[verifier::spinoff_prover]
pub proof fn a_demo_tick_is_a_book_and_a_trade(
    m: MarketView,
    symbol: Seq<char>,
    ticks: u64,
    draw: DrawView,
    clock: Double,
)
    requires
        !m.trades.dom().contains(symbol),
    ensures
        ({
            let after = feeds::demo_ticked(m, symbol, ticks, draw, clock);
            let price = stream::demo_price(symbol).mul(
                Double::one().add(draw.drift.mul(Double::ratio(18, 10_000))).add(draw.noise),
            );
            let trade = after.trades[symbol][0];
            &&& after.books[symbol] == BookView::empty().updated(
                "snapshot"@,
                feeds::demo_bids(price, draw),
                feeds::demo_asks(price, draw),
                ticks as i64,
                clock,
            )
            &&& after.trades[symbol].len() == 1
            &&& trade.price == price
            &&& trade.size == draw.size
            &&& trade.timestamp == clock
            &&& trade.is_buy <==> draw.coin.lt(
                Double::ratio(5, 10).add(draw.bias.mul(Double::ratio(28, 100))),
            )
        }),
{
}

proof fn lemma_demo_names()
    ensures
        "ETHUSDT"@ != "BTCUSDT"@,
        "SOLUSDT"@ != "BTCUSDT"@,
        "SOLUSDT"@ != "ETHUSDT"@,
        "XRPUSDT"@ != "BTCUSDT"@,
        "XRPUSDT"@ != "ETHUSDT"@,
        "XRPUSDT"@ != "SOLUSDT"@,
        "DOGEUSDT"@ != "BTCUSDT"@,
        "DOGEUSDT"@ != "ETHUSDT"@,
        "DOGEUSDT"@ != "SOLUSDT"@,
        "DOGEUSDT"@ != "XRPUSDT"@,
        "LINKUSDT"@ != "BTCUSDT"@,
        "LINKUSDT"@ != "ETHUSDT"@,
        "LINKUSDT"@ != "SOLUSDT"@,
        "LINKUSDT"@ != "XRPUSDT"@,
        "LINKUSDT"@ != "DOGEUSDT"@,
        "AVAXUSDT"@ != "BTCUSDT"@,
        "AVAXUSDT"@ != "ETHUSDT"@,
        "AVAXUSDT"@ != "SOLUSDT"@,
        "AVAXUSDT"@ != "XRPUSDT"@,
        "AVAXUSDT"@ != "DOGEUSDT"@,
        "AVAXUSDT"@ != "LINKUSDT"@,
        "SUIUSDT"@ != "BTCUSDT"@,
        "SUIUSDT"@ != "ETHUSDT"@,
        "SUIUSDT"@ != "SOLUSDT"@,
        "SUIUSDT"@ != "XRPUSDT"@,
        "SUIUSDT"@ != "DOGEUSDT"@,
        "SUIUSDT"@ != "LINKUSDT"@,
        "SUIUSDT"@ != "AVAXUSDT"@,
{
    reveal_strlit("BTCUSDT");
    reveal_strlit("ETHUSDT");
    reveal_strlit("SOLUSDT");
    reveal_strlit("XRPUSDT");
    reveal_strlit("DOGEUSDT");
    reveal_strlit("LINKUSDT");
    reveal_strlit("AVAXUSDT");
    reveal_strlit("SUIUSDT");
    assert("BTCUSDT"@.len() == 7);
    assert("ETHUSDT"@.len() == 7);
    assert("SOLUSDT"@.len() == 7);
    assert("XRPUSDT"@.len() == 7);
    assert("DOGEUSDT"@.len() == 8);
    assert("LINKUSDT"@.len() == 8);
    assert("AVAXUSDT"@.len() == 8);
    assert("SUIUSDT"@.len() == 7);
    assert("BTCUSDT"@[0] == 'B' && "BTCUSDT"@[1] == 'T');
    assert("ETHUSDT"@[0] == 'E' && "ETHUSDT"@[1] == 'T');
    assert("SOLUSDT"@[0] == 'S' && "SOLUSDT"@[1] == 'O');
    assert("XRPUSDT"@[0] == 'X' && "XRPUSDT"@[1] == 'R');
    assert("DOGEUSDT"@[0] == 'D' && "DOGEUSDT"@[1] == 'O');
    assert("LINKUSDT"@[0] == 'L' && "LINKUSDT"@[1] == 'I');
    assert("AVAXUSDT"@[0] == 'A' && "AVAXUSDT"@[1] == 'V');
    assert("SUIUSDT"@[0] == 'S' && "SUIUSDT"@[1] == 'U');
}

/// Each symbol of the demo feed has a price of its own, and any other the price of ten.
pub proof fn demo_symbols_have_their_prices(symbol: Seq<char>)
    ensures
        symbol == "BTCUSDT"@ ==> stream::demo_price(symbol) == Double::whole(66_500),
        symbol == "ETHUSDT"@ ==> stream::demo_price(symbol) == Double::whole(3_480),
        symbol == "SOLUSDT"@ ==> stream::demo_price(symbol) == Double::whole(148),
        symbol == "XRPUSDT"@ ==> stream::demo_price(symbol) == Double::ratio(52, 100),
        symbol == "DOGEUSDT"@ ==> stream::demo_price(symbol) == Double::ratio(128, 1_000),
        symbol == "LINKUSDT"@ ==> stream::demo_price(symbol) == Double::ratio(147, 10),
        symbol == "AVAXUSDT"@ ==> stream::demo_price(symbol) == Double::ratio(312, 10),
        symbol == "SUIUSDT"@ ==> stream::demo_price(symbol) == Double::ratio(91, 100),
        !crate::config::demo_names().contains(symbol) ==> stream::demo_price(symbol)
            == Double::whole(10),
{
    lemma_demo_names();
    let names = crate::config::demo_names();
    assert(names[0] == "BTCUSDT"@);
    assert(names[1] == "ETHUSDT"@);
    assert(names[2] == "SOLUSDT"@);
    assert(names[3] == "XRPUSDT"@);
    assert(names[4] == "DOGEUSDT"@);
    assert(names[5] == "LINKUSDT"@);
    assert(names[6] == "AVAXUSDT"@);
    assert(names[7] == "SUIUSDT"@);
}

/// The waves of the demo feed turn with time and differ between symbols: the drift by a 37th a
/// tick, the bias by a 14th, and the history by a ninth a candle.
pub proof fn demo_waves_turn_with_time(ticks: u64, index: u64)
    ensures
        feeds::drift_angle(ticks, index) == Double::whole(ticks).div(Double::whole(37)).add(
            Double::whole(index),
        ),
        feeds::bias_angle(ticks, index) == Double::whole(ticks).div(Double::whole(14)).add(
            Double::whole(index).mul(Double::ratio(17, 10)),
        ),
        stream::wave_angle(index) == Double::whole(index).div(Double::whole(9)),
{
}

/// The candles of the demo history follow each other without gaps in time and end just before the
/// candle of the moment.
pub proof fn demo_history_ends_before_now(
    timeframe: Timeframe,
    base: Double,
    now: Double,
    waves: Seq<Double>,
    i: int,
)
    requires
        waves.len() == 100,
        0 <= i < 100,
        crate::mtf_fvg::bucket(now.floor(), timeframe) >= i64::MIN + 90_000,
    ensures
        ({
            let past = stream::demo_past(timeframe, base, now, waves);
            let start = crate::mtf_fvg::bucket(now.floor(), timeframe);
            &&& past.len() == 100
            &&& past[i].timeframe == timeframe
            &&& past[i].started_at == start - (100 - i) * timeframe.seconds()
        }),
{
    let past = stream::demo_past(timeframe, base, now, waves);
    let start = crate::mtf_fvg::bucket(now.floor(), timeframe);
    crate::gap_laws::timeframes_have_their_lengths();
    lemma_begins_at(start, i, timeframe.seconds());
    assert(past[i].started_at == stream::demo_candle(
        timeframe,
        base,
        start,
        i,
        waves[i],
    ).started_at);
}

proof fn lemma_begins_at(start: i64, i: int, seconds: i64)
    requires
        0 <= i < 100,
        0 < seconds <= 900,
        start >= i64::MIN + 90_000,
    ensures
        start.wrapping_sub(((100 - i) as i64).wrapping_mul(seconds)) == start - (100 - i) * seconds,
{
    assert(0 <= (100 - i) * seconds <= 90_000) by (nonlinear_arith)
        requires
            0 <= i < 100,
            0 < seconds <= 900,
    ;
}

/// The prices of a demo candle lie a few ten-thousandths around its own center, which waves
/// around the price.
pub proof fn demo_candles_wave_around_the_price(
    timeframe: Timeframe,
    base: Double,
    now: Double,
    waves: Seq<Double>,
    i: int,
)
    requires
        waves.len() == 100,
        0 <= i < 100,
        timeframe != Timeframe::M15 || i < 97,
    ensures
        ({
            let candle = stream::demo_past(timeframe, base, now, waves)[i];
            let center = base.mul(Double::one().add(waves[i].mul(Double::ratio(8, 10_000))));
            &&& candle.open == center.mul(Double::ratio(9_999, 10_000))
            &&& candle.high == center.mul(Double::ratio(10_003, 10_000))
            &&& candle.low == center.mul(Double::ratio(9_997, 10_000))
            &&& candle.close == center.mul(Double::ratio(10_001, 10_000))
        }),
{
}

/// The last three long candles of the demo history leave a gap: the high of the first lies below
/// the low of the third.
#[verifier::spinoff_prover]
pub proof fn demo_history_leaves_a_gap(base: Double, now: Double, waves: Seq<Double>)
    requires
        waves.len() == 100,
    ensures
        ({
            let past = stream::demo_past(Timeframe::M15, base, now, waves);
            &&& past[97].high == base.mul(Double::ratio(9_982, 10_000))
            &&& past[97].low == base.mul(Double::ratio(9_972, 10_000))
            &&& past[98].high == base.mul(Double::ratio(10_002, 10_000))
            &&& past[98].low == base.mul(Double::ratio(9_978, 10_000))
            &&& past[99].high == base.mul(Double::ratio(10_000, 10_000))
            &&& past[99].low == base.mul(Double::ratio(9_988, 10_000))
        }),
{
}

} // verus!

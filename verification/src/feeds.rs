//! The feeds behind the streams: subscribing, breaking off and coming back, and the ticks of
//! the demo feed.
use vstd::prelude::*;
use crate::double::Double;
use crate::models::{BookView, Level, OrderBook, TradeTick};
use crate::number_laws;
use crate::scanner;
use crate::sorting;
use crate::state::{MarketState, MarketView};
use crate::stream;
use crate::table;
use crate::text;

verus! {

/// The topics of some symbols: their books, then their trades.
pub open spec fn topics(symbols: Seq<Seq<char>>) -> Seq<Seq<char>> {
    symbols.map_values(|s: Seq<char>| "orderbook.50."@ + s) + symbols.map_values(
        |s: Seq<char>| "publicTrade."@ + s,
    )
}

fn put_topics(list: &mut Vec<String>, symbols: &Vec<String>, start: &str)
    ensures
        sorting::texts(final(list)@) == sorting::texts(old(list)@) + sorting::texts(
            symbols@,
        ).map_values(|s: Seq<char>| start@ + s),
{
    let ghost first = sorting::texts(list@);
    let ghost all = sorting::texts(symbols@).map_values(|s: Seq<char>| start@ + s);
    let mut i: usize = 0;
    assert(first + all.take(0) =~= first);
    while i < symbols.len()
        invariant
            i <= symbols@.len(),
            all == sorting::texts(symbols@).map_values(|s: Seq<char>| start@ + s),
            sorting::texts(list@) == first + all.take(i as int),
        decreases symbols@.len() - i,
    {
        let ghost before = sorting::texts(list@);
        let mut topic = start.to_owned();
        topic.append(symbols[i].as_str());
        list.push(topic);
        proof {
            assert(sorting::texts(symbols@)[i as int] == symbols@[i as int]@);
            assert(sorting::texts(list@) =~= before.push(all[i as int]));
            assert(first + all.take(i + 1) =~= (first + all.take(i as int)).push(all[i as int]));
        }
        i = i + 1;
    }
    assert(all.take(i as int) =~= all);
}

/// The topics that a live feed subscribes to.
pub fn subscriptions(symbols: &Vec<String>) -> (r: Vec<String>)
    ensures
        sorting::texts(r@) == topics(sorting::texts(symbols@)),
{
    let mut r: Vec<String> = Vec::new();
    assert(sorting::texts(r@) =~= Seq::empty());
    put_topics(&mut r, symbols, "orderbook.50.");
    put_topics(&mut r, symbols, "publicTrade.");
    assert(sorting::texts(r@) =~= topics(sorting::texts(symbols@)));
    r
}

/// Counts a feed that has subscribed.
pub fn take_connection(market: &mut MarketState)
    ensures
        final(market)@ == (MarketView {
            connections: old(market)@.connections.wrapping_add(1),
            ..old(market)@
        }),
{
    market.connections = market.connections.wrapping_add(1);
}

/// The state without the setups of some symbols, and with only the closed candles of theirs,
/// in order.
pub open spec fn reset(m: MarketView, symbols: Seq<Seq<char>>, clock: Double) -> MarketView
    decreases symbols.len(),
{
    if symbols.len() == 0 {
        m
    } else {
        let before = reset(m, symbols.drop_last(), clock);
        let symbol = symbols.last();
        MarketView {
            mtf_fvg: before.mtf_fvg.remove(symbol),
            mtf_bars: if before.mtf_bars.dom().contains(symbol) {
                before.mtf_bars.insert(symbol, before.mtf_bars[symbol].disconnected(clock))
            } else {
                before.mtf_bars
            },
            ..before
        }
    }
}

/// One feed less, never fewer than none.
pub open spec fn fewer(connections: i64) -> i64 {
    let left = connections.wrapping_sub(1);
    if left > 0 {
        left
    } else {
        0
    }
}

/// The state after the feed of some symbols broke off.
pub open spec fn broken_off(m: MarketView, symbols: Seq<Seq<char>>, clock: Double) -> MarketView {
    scanner::noted(
        reset(MarketView { connections: fewer(m.connections), ..m }, symbols, clock),
        "WARN"@,
        "MTF FVG state reset after market stream disconnect"@,
        "SYSTEM"@,
        Double::whole(10),
        clock,
    )
}

fn reset_symbol(market: &mut MarketState, symbol: &str, clock: Double)
    ensures
        final(market)@ == (MarketView {
            mtf_fvg: old(market)@.mtf_fvg.remove(symbol@),
            mtf_bars: if old(market)@.mtf_bars.dom().contains(symbol@) {
                old(market)@.mtf_bars.insert(
                    symbol@,
                    old(market)@.mtf_bars[symbol@].disconnected(clock),
                )
            } else {
                old(market)@.mtf_bars
            },
            ..old(market)@
        }),
{
    let ghost was = market@;
    let _ = market.mtf_fvg.remove(symbol);
    match market.mtf_bars.remove(symbol) {
        Some(mut bars) => {
            bars.handle_disconnect(clock);
            market.mtf_bars.insert(symbol, bars);
            assert(market@.mtf_bars =~= was.mtf_bars.insert(
                symbol@,
                was.mtf_bars[symbol@].disconnected(clock),
            ));
        },
        None => {
            assert(market@.mtf_bars =~= was.mtf_bars);
        },
    }
    assert(market@.mtf_fvg =~= was.mtf_fvg.remove(symbol@));
}

/// Takes note that the feed of some symbols broke off.
pub fn take_disconnect(market: &mut MarketState, symbols: &Vec<String>, clock: Double)
    ensures
        final(market)@ == broken_off(old(market)@, sorting::texts(symbols@), clock),
        final(market)@.connections >= 0,
{
    let left = market.connections.wrapping_sub(1);
    market.connections = if left > 0 {
        left
    } else {
        0
    };
    let ghost start = market@;
    let ghost all = sorting::texts(symbols@);
    let mut i: usize = 0;
    while i < symbols.len()
        invariant
            i <= symbols@.len(),
            all == sorting::texts(symbols@),
            market@ == reset(start, all.take(i as int), clock),
        decreases symbols@.len() - i,
    {
        proof {
            assert(all.take(i + 1).drop_last() =~= all.take(i as int));
            assert(all.take(i + 1).last() == symbols@[i as int]@);
        }
        reset_symbol(market, symbols[i].as_str(), clock);
        i = i + 1;
    }
    assert(all.take(i as int) =~= all);
    proof {
        lemma_reset_keeps_connections(start, all, clock);
    }
    market.log(
        "WARN",
        "MTF FVG state reset after market stream disconnect",
        "SYSTEM",
        Double::whole(10),
        clock,
    );
}

proof fn lemma_reset_keeps_connections(m: MarketView, symbols: Seq<Seq<char>>, clock: Double)
    ensures
        reset(m, symbols, clock).connections == m.connections,
    decreases symbols.len(),
{
    if symbols.len() > 0 {
        lemma_reset_keeps_connections(m, symbols.drop_last(), clock);
    }
}

/// A feed that broke off leaves no setup of its symbols behind, and no candle of theirs that
/// may lack trades: the five-second ones are gone, and the history counts from now on.
pub proof fn nothing_uncertain_survives(
    m: MarketView,
    symbols: Seq<Seq<char>>,
    clock: Double,
    symbol: Seq<char>,
)
    requires
        symbols.contains(symbol),
    ensures
        !reset(m, symbols, clock).mtf_fvg.dom().contains(symbol),
        reset(m, symbols, clock).mtf_bars.dom().contains(symbol) ==> {
            let bars = reset(m, symbols, clock).mtf_bars[symbol];
            bars.s5.len() == 0 && bars.valid_from == Some(clock.floor())
        },
    decreases symbols.len(),
{
    let rest = symbols.drop_last();
    if symbols.last() != symbol {
        let i = choose|i: int| 0 <= i < symbols.len() && symbols[i] == symbol;
        assert(rest[i] == symbol);
        nothing_uncertain_survives(m, rest, clock, symbol);
    }
}

/// Takes note that a feed could not connect.
pub fn note_reconnecting(market: &mut MarketState, error: &str, clock: Double)
    ensures
        final(market)@ == scanner::noted(
            old(market)@,
            "WARN"@,
            "Stream reconnecting: "@ + text::clipped(error@, 70),
            "SYSTEM"@,
            Double::whole(8),
            clock,
        ),
{
    let mut message = "Stream reconnecting: ".to_owned();
    message.append(text::clip(error, 70));
    market.log("WARN", message.as_str(), "SYSTEM", Double::whole(8), clock);
}

/// Takes note of a message that is no JSON.
pub fn note_malformed(market: &mut MarketState, clock: Double)
    ensures
        final(market)@ == scanner::noted(
            old(market)@,
            "WARN"@,
            "Malformed stream payload"@,
            "SYSTEM"@,
            Double::whole(10),
            clock,
        ),
{
    market.log("WARN", "Malformed stream payload", "SYSTEM", Double::whole(10), clock);
}

/// The seconds that a feed waits at first.
pub fn first_delay() -> (r: Double)
    ensures
        r == Double::one(),
{
    Double::one()
}

proof fn lemma_delay(delay: Double)
    ensures
        delay.mul(Double::whole(2)).min(Double::whole(30)).le(Double::whole(30)),
        delay.finite() && Double::zero().le(delay) && delay.le(Double::whole(30)) ==> delay.le(
            delay.mul(Double::whole(2)).min(Double::whole(30)),
        ),
{
    number_laws::whole_numbers_are_at_least_one(2);
    number_laws::whole_numbers_are_at_least_one(30);
    lemma_smaller(delay.mul(Double::whole(2)), Double::whole(30));
    if delay.finite() && Double::zero().le(delay) && delay.le(Double::whole(30)) {
        number_laws::product_with_at_least_one(delay, Double::whole(2));
        lemma_below_both(delay, delay.mul(Double::whole(2)), Double::whole(30));
    }
}

proof fn lemma_smaller(x: Double, most: Double)
    requires
        !most.nan(),
    ensures
        x.min(most).le(most),
{
}

proof fn lemma_below_both(x: Double, a: Double, b: Double)
    requires
        x.le(a),
        x.le(b),
    ensures
        x.le(a.min(b)),
{
}

/// The seconds that a feed waits after the next failure: twice as long, at most half a
/// minute.
pub fn next_delay(delay: Double) -> (r: Double)
    ensures
        r == delay.mul(Double::whole(2)).min(Double::whole(30)),
        r.le(Double::whole(30)),
        delay.finite() && Double::zero().le(delay) && delay.le(Double::whole(30)) ==> delay.le(r),
{
    proof {
        lemma_delay(delay);
    }
    delay.mul(Double::whole(2)).min(Double::whole(30))
}

/// The levels on each side of a demo book.
pub const DEMO_LEVELS: usize = 50;

/// The angle whose sine is the drift of a demo price.
pub open spec fn spec_drift_angle(ticks: u64, index: u64) -> Double {
    Double::whole(ticks).div(Double::whole(37)).add(Double::whole(index))
}

#[verifier::when_used_as_spec(spec_drift_angle)]
pub fn drift_angle(ticks: u64, index: u64) -> (r: Double)
    ensures
        r == spec_drift_angle(ticks, index),
{
    Double::whole(ticks).div(Double::whole(37)).add(Double::whole(index))
}

/// The angle whose sine is the bias of a demo market.
pub open spec fn spec_bias_angle(ticks: u64, index: u64) -> Double {
    Double::whole(ticks).div(Double::whole(14)).add(
        Double::whole(index).mul(Double::ratio(17, 10)),
    )
}

#[verifier::when_used_as_spec(spec_bias_angle)]
pub fn bias_angle(ticks: u64, index: u64) -> (r: Double)
    ensures
        r == spec_bias_angle(ticks, index),
{
    Double::whole(ticks).div(Double::whole(14)).add(
        Double::whole(index).mul(Double::ratio(17, 10)),
    )
}

/// What chance and the sine give to one tick of a symbol on the demo feed.
#[derive(Debug)]
pub struct DemoDraw {
    /// The sine of the drift angle.
    pub drift: Double,
    /// A number from -0.00035 up to 0.00035.
    pub noise: Double,
    /// The sine of the bias angle.
    pub bias: Double,
    /// Numbers from 0 up to 1, one for each bid and each ask, in turns.
    pub sizes: Vec<Double>,
    /// A number from 0 up to 1.
    pub coin: Double,
    /// A number from 2 up to 45.
    pub size: Double,
}

/// A draw by its contents.
#[verifier::ext_equal]
pub struct DrawView {
    pub drift: Double,
    pub noise: Double,
    pub bias: Double,
    pub sizes: Seq<Double>,
    pub coin: Double,
    pub size: Double,
}

impl DemoDraw {
    pub open spec fn view(&self) -> DrawView {
        DrawView {
            drift: self.drift,
            noise: self.noise,
            bias: self.bias,
            sizes: self.sizes@,
            coin: self.coin,
            size: self.size,
        }
    }
}

/// The price of a tick of the demo feed.
pub open spec fn spec_demo_mark(base: Double, drift: Double, noise: Double) -> Double {
    base.mul(Double::one().add(drift.mul(Double::ratio(18, 10_000))).add(noise))
}

#[verifier::when_used_as_spec(spec_demo_mark)]
pub fn demo_mark(base: Double, drift: Double, noise: Double) -> (r: Double)
    ensures
        r == spec_demo_mark(base, drift, noise),
{
    base.mul(Double::one().add(drift.mul(Double::ratio(18, 10_000))).add(noise))
}

/// The size of a level of a demo book. The side that the market leans to is thicker, and has
/// a wall at its fifth level when the market leans far.
pub open spec fn spec_demo_size(level: u64, lean: Double, chance: Double) -> Double {
    let size = Double::whole(8).add(chance.mul(Double::whole(14))).mul(
        Double::one().add(lean.max(Double::zero()).mul(Double::ratio(17, 10))),
    );
    if level == 5 && lean.gt(Double::ratio(45, 100)) {
        size.mul(Double::whole(7))
    } else {
        size
    }
}

#[verifier::when_used_as_spec(spec_demo_size)]
pub fn demo_size(level: u64, lean: Double, chance: Double) -> (r: Double)
    ensures
        r == spec_demo_size(level, lean, chance),
{
    let size = Double::whole(8).add(chance.mul(Double::whole(14))).mul(
        Double::one().add(lean.max(Double::zero()).mul(Double::ratio(17, 10))),
    );
    if level == 5 && lean.gt(Double::ratio(45, 100)) {
        size.mul(Double::whole(7))
    } else {
        size
    }
}

/// How far a level of a demo book is from its price, as a share of it.
pub open spec fn spec_demo_step(level: u64) -> Double {
    Double::whole(level).mul(Double::ratio(6, 100_000))
}

#[verifier::when_used_as_spec(spec_demo_step)]
pub fn demo_step(level: u64) -> (r: Double)
    ensures
        r == spec_demo_step(level),
{
    Double::whole(level).mul(Double::ratio(6, 100_000))
}

/// The bids of a demo book.
pub open spec fn demo_bids(price: Double, draw: DrawView) -> Seq<Level> {
    Seq::new(
        DEMO_LEVELS as nat,
        |i: int|
            (
                price.mul(Double::one().sub(demo_step((i + 1) as u64))),
                demo_size((i + 1) as u64, draw.bias, draw.sizes[2 * i]),
            ),
    )
}

/// The asks of a demo book.
pub open spec fn demo_asks(price: Double, draw: DrawView) -> Seq<Level> {
    Seq::new(
        DEMO_LEVELS as nat,
        |i: int|
            (
                price.mul(Double::one().add(demo_step((i + 1) as u64))),
                demo_size((i + 1) as u64, draw.bias.neg(), draw.sizes[2 * i + 1]),
            ),
    )
}

/// The state after one tick of a symbol on the demo feed.
pub open spec fn demo_ticked(
    m: MarketView,
    symbol: Seq<char>,
    ticks: u64,
    draw: DrawView,
    clock: Double,
) -> MarketView {
    let price = demo_mark(stream::demo_price(symbol), draw.drift, draw.noise);
    let book = table::entry_or(m.books, symbol, BookView::empty());
    let shown = MarketView {
        books: m.books.insert(
            symbol,
            book.updated(
                "snapshot"@,
                demo_bids(price, draw),
                demo_asks(price, draw),
                ticks as i64,
                clock,
            ),
        ),
        ..m
    };
    shown.ticked(
        symbol,
        TradeTick {
            timestamp: clock,
            is_buy: draw.coin.lt(
                Double::ratio(5, 10).add(draw.bias.mul(Double::ratio(28, 100))),
            ),
            price,
            size: draw.size,
        },
    )
}

/// Makes one tick of a symbol on the demo feed.
pub fn demo_tick(
    market: &mut MarketState,
    symbol: &str,
    ticks: u64,
    draw: &DemoDraw,
    clock: Double,
)
    requires
        draw.sizes@.len() == 2 * DEMO_LEVELS,
    ensures
        final(market)@ == demo_ticked(old(market)@, symbol@, ticks, draw@, clock),
{
    let ghost was = market@;
    let price = demo_mark(stream::demo_base(symbol), draw.drift, draw.noise);
    let mut bids: Vec<Level> = Vec::new();
    let mut asks: Vec<Level> = Vec::new();
    let ghost all_bids = demo_bids(price, draw@);
    let ghost all_asks = demo_asks(price, draw@);
    let mut i: usize = 0;
    while i < DEMO_LEVELS
        invariant
            i <= DEMO_LEVELS,
            draw.sizes@.len() == 2 * DEMO_LEVELS,
            all_bids == demo_bids(price, draw@),
            all_asks == demo_asks(price, draw@),
            bids@ == all_bids.take(i as int),
            asks@ == all_asks.take(i as int),
        decreases DEMO_LEVELS - i,
    {
        let level = (i + 1) as u64;
        bids.push(
            (
                price.mul(Double::one().sub(demo_step(level))),
                demo_size(level, draw.bias, draw.sizes[2 * i]),
            ),
        );
        asks.push(
            (
                price.mul(Double::one().add(demo_step(level))),
                demo_size(level, draw.bias.neg(), draw.sizes[2 * i + 1]),
            ),
        );
        proof {
            assert(all_bids.take(i + 1) =~= all_bids.take(i as int).push(all_bids[i as int]));
            assert(all_asks.take(i + 1) =~= all_asks.take(i as int).push(all_asks[i as int]));
        }
        i = i + 1;
    }
    proof {
        assert(all_bids.take(i as int) =~= all_bids);
        assert(all_asks.take(i as int) =~= all_asks);
    }
    let mut book = match market.books.remove(symbol) {
        Some(book) => book,
        None => OrderBook::new(),
    };
    let _ = book.apply("snapshot", &bids, &asks, ticks as i64, clock);
    market.books.insert(symbol, book);
    proof {
        let before = table::entry_or(was.books, symbol@, BookView::empty());
        assert(market@.books =~= was.books.insert(
            symbol@,
            before.updated("snapshot"@, all_bids, all_asks, ticks as i64, clock),
        ));
    }
    let is_buy = draw.coin.lt(Double::ratio(5, 10).add(draw.bias.mul(Double::ratio(28, 100))));
    market.push_tick(symbol, TradeTick { timestamp: clock, is_buy, price, size: draw.size });
}

} // verus!

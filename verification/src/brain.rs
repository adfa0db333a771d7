//! Order-flow decisions: tape, walls, the BTC filter, entries and exits.
use vstd::prelude::*;
use std::collections::VecDeque;
use crate::config::Settings;
use crate::double;
use crate::double::Double;
use crate::models;
use crate::models::{
    Absorption, BookView, Level, OrderBook, Side, TradeTick, TrendDirection, WallSide, WallTrack,
};
use crate::sorting;
use crate::text;

verus! {

/// How much of the last second's tape each side took, against the second before.
#[derive(Clone, Copy, Debug, PartialEq, Eq, Structural)]
pub struct Tape {
    pub buy_dominance: Double,
    pub sell_dominance: Double,
    pub buy_acceleration: Double,
    pub sell_acceleration: Double,
    pub current_buy_notional: Double,
    pub current_sell_notional: Double,
    pub previous_buy_notional: Double,
    pub previous_sell_notional: Double,
    pub buy_baseline_valid: bool,
    pub sell_baseline_valid: bool,
    pub buy_accelerating: bool,
    pub sell_accelerating: bool,
}

/// The state of one book and its tape.
#[derive(Clone, Copy, Debug, PartialEq, Eq)]
pub struct Metrics {
    pub imbalance: Double,
    pub strongest_bid_wall: Option<Level>,
    pub strongest_ask_wall: Option<Level>,
    pub wall_threshold: Double,
    pub flow: Double,
    pub bid: Double,
    pub ask: Double,
    pub mid: Double,
    pub spread: Double,
    pub freshness: Double,
    pub tape: Tape,
}

/// A stretch of the tape before a given moment.
#[derive(Clone, Copy, Debug, PartialEq, Eq, Structural)]
pub enum Window {
    /// The last second.
    Current,
    /// The second before the last.
    Previous,
    /// The last three seconds.
    Flow,
}

impl Window {
    pub open spec fn spec_holds(self, timestamp: Double, now: Double) -> bool {
        match self {
            Window::Current => timestamp.ge(now.sub(Double::one())),
            Window::Previous => !timestamp.ge(now.sub(Double::one())) && timestamp.ge(
                now.sub(Double::whole(2)),
            ),
            Window::Flow => now.sub(timestamp).le(Double::whole(3)),
        }
    }

    #[verifier::when_used_as_spec(spec_holds)]
    pub fn holds(self, timestamp: Double, now: Double) -> (r: bool)
        ensures
            r == self.spec_holds(timestamp, now),
    {
        match self {
            Window::Current => timestamp.ge(now.sub(Double::one())),
            Window::Previous => !timestamp.ge(now.sub(Double::one())) && timestamp.ge(
                now.sub(Double::whole(2)),
            ),
            Window::Flow => now.sub(timestamp).le(Double::whole(3)),
        }
    }
}

/// The notional that one side traded inside a window, summed in the order of the tape.
pub open spec fn notional(ticks: Seq<TradeTick>, now: Double, window: Window, is_buy: bool) -> Double
    decreases ticks.len(),
{
    if ticks.len() == 0 {
        Double::zero()
    } else {
        let t = ticks.last();
        let before = notional(ticks.drop_last(), now, window, is_buy);
        if t.is_buy == is_buy && window.holds(t.timestamp, now) {
            before.add(t.price.mul(t.size))
        } else {
            before
        }
    }
}

/// The notional that buyers and sellers traded inside a window.
fn traded(ticks: &VecDeque<TradeTick>, now: Double, window: Window) -> (r: (Double, Double))
    ensures
        r.0 == notional(ticks@, now, window, true),
        r.1 == notional(ticks@, now, window, false),
{
    let mut bought = Double::zero();
    let mut sold = Double::zero();
    let mut i: usize = 0;
    while i < ticks.len()
        invariant
            i <= ticks@.len(),
            bought == notional(ticks@.take(i as int), now, window, true),
            sold == notional(ticks@.take(i as int), now, window, false),
        decreases ticks@.len() - i,
    {
        let t = ticks[i];
        assert(ticks@.take(i + 1).drop_last() =~= ticks@.take(i as int));
        if window.holds(t.timestamp, now) {
            if t.is_buy {
                bought = bought.add(t.price.mul(t.size));
            } else {
                sold = sold.add(t.price.mul(t.size));
            }
        }
        i = i + 1;
    }
    assert(ticks@.take(i as int) =~= ticks@);
    (bought, sold)
}

/// The share of `part` in a total, one half when there is nothing.
pub open spec fn share(part: Double, total: Double) -> Double {
    if total.gt(Double::zero()) {
        part.div(total)
    } else {
        Double::ratio(1, 2)
    }
}

/// The least notional in the previous window that a ratio may be taken against.
pub open spec fn baseline(total: Double) -> Double {
    Double::whole(100).max(total.mul(Double::ratio(5, 100)))
}

pub open spec fn acceleration(current: Double, previous: Double, total: Double) -> Double {
    if previous.ge(baseline(total)) {
        current.div(previous).min(Double::whole(100))
    } else {
        Double::zero()
    }
}

/// A side accelerates when its baseline counts, it trades at least three times as much
/// as before, and it has at least seven tenths of the tape.
pub open spec fn accelerating(current: Double, previous: Double, total: Double) -> bool {
    &&& previous.ge(baseline(total))
    &&& current.gt(Double::zero())
    &&& acceleration(current, previous, total).ge(Double::whole(3))
    &&& share(current, total).ge(Double::ratio(7, 10))
}

/// The tape of four window totals.
pub open spec fn tape_of(
    current_buy: Double,
    current_sell: Double,
    previous_buy: Double,
    previous_sell: Double,
) -> Tape {
    let total = current_buy.add(current_sell);
    Tape {
        buy_dominance: share(current_buy, total),
        sell_dominance: share(current_sell, total),
        buy_acceleration: acceleration(current_buy, previous_buy, total),
        sell_acceleration: acceleration(current_sell, previous_sell, total),
        current_buy_notional: current_buy,
        current_sell_notional: current_sell,
        previous_buy_notional: previous_buy,
        previous_sell_notional: previous_sell,
        buy_baseline_valid: previous_buy.ge(baseline(total)),
        sell_baseline_valid: previous_sell.ge(baseline(total)),
        buy_accelerating: accelerating(current_buy, previous_buy, total),
        sell_accelerating: accelerating(current_sell, previous_sell, total),
    }
}

/// The tape at a moment.
pub open spec fn tape_at(ticks: Seq<TradeTick>, now: Double) -> Tape {
    tape_of(
        notional(ticks, now, Window::Current, true),
        notional(ticks, now, Window::Current, false),
        notional(ticks, now, Window::Previous, true),
        notional(ticks, now, Window::Previous, false),
    )
}

pub fn directional_tape(ticks: &VecDeque<TradeTick>, now: Double) -> (r: Tape)
    ensures
        r == tape_at(ticks@, now),
{
    let zero = Double::zero();
    let (current_buy, current_sell) = traded(ticks, now, Window::Current);
    let (previous_buy, previous_sell) = traded(ticks, now, Window::Previous);
    let total = current_buy.add(current_sell);
    let buy_dominance = share_of(current_buy, total);
    let sell_dominance = share_of(current_sell, total);
    // A ratio means something only over enough notional: an empty or microscopic
    // baseline must not turn one trade into an acceleration.
    let adaptive_baseline = Double::whole(100).max(total.mul(Double::ratio(5, 100)));
    let buy_baseline_valid = previous_buy.ge(adaptive_baseline);
    let sell_baseline_valid = previous_sell.ge(adaptive_baseline);
    let buy_acceleration = if buy_baseline_valid {
        current_buy.div(previous_buy).min(Double::whole(100))
    } else {
        zero
    };
    let sell_acceleration = if sell_baseline_valid {
        current_sell.div(previous_sell).min(Double::whole(100))
    } else {
        zero
    };
    Tape {
        buy_dominance,
        sell_dominance,
        buy_acceleration,
        sell_acceleration,
        current_buy_notional: current_buy,
        current_sell_notional: current_sell,
        previous_buy_notional: previous_buy,
        previous_sell_notional: previous_sell,
        buy_baseline_valid,
        sell_baseline_valid,
        buy_accelerating: buy_baseline_valid && current_buy.gt(zero) && buy_acceleration.ge(
            Double::whole(3),
        ) && buy_dominance.ge(Double::ratio(7, 10)),
        sell_accelerating: sell_baseline_valid && current_sell.gt(zero) && sell_acceleration.ge(
            Double::whole(3),
        ) && sell_dominance.ge(Double::ratio(7, 10)),
    }
}

/// How many levels of each side the metrics look at.
pub const METRIC_DEPTH: usize = 10;

/// The best bids, best first.
pub open spec fn top_bids(levels: Seq<Level>) -> Seq<Level> {
    let n = if levels.len() < METRIC_DEPTH {
        levels.len()
    } else {
        METRIC_DEPTH as nat
    };
    Seq::new(n, |i: int| levels[levels.len() - 1 - i])
}

/// The best asks, best first.
pub open spec fn top_asks(levels: Seq<Level>) -> Seq<Level> {
    if levels.len() < METRIC_DEPTH {
        levels
    } else {
        levels.take(METRIC_DEPTH as int)
    }
}

/// The sizes of some levels.
pub open spec fn sizes(levels: Seq<Level>) -> Seq<Double> {
    levels.map_values(|l: Level| l.1)
}

/// A sum taken from left to right.
pub open spec fn sum(xs: Seq<Double>) -> Double
    decreases xs.len(),
{
    if xs.len() == 0 {
        Double::zero()
    } else {
        sum(xs.drop_last()).add(xs.last())
    }
}

/// The middle of some numbers in the total order; the mean of the two middle ones for an
/// even count, zero for none.
pub open spec fn median(xs: Seq<Double>) -> Double {
    let sorted = sorting::picked(xs, sorting::order(sorting::rank_keys(xs)));
    let half = xs.len() as int / 2;
    if xs.len() == 0 {
        Double::zero()
    } else if xs.len() % 2 == 1 {
        sorted[half]
    } else {
        sorted[half - 1].add(sorted[half]).div(Double::whole(2))
    }
}

/// The largest level of at least the threshold; of equal ones the last.
pub open spec fn strongest(levels: Seq<Level>, threshold: Double) -> Option<Level>
    decreases levels.len(),
{
    if levels.len() == 0 {
        None
    } else {
        let best = strongest(levels.drop_last(), threshold);
        let l = levels.last();
        if !(threshold.gt(Double::zero()) && l.1.ge(threshold)) {
            best
        } else {
            match best {
                Some(b) => if double::rank(l.1) < double::rank(b.1) {
                    best
                } else {
                    Some(l)
                },
                None => Some(l),
            }
        }
    }
}

fn best_bids(book: &OrderBook) -> (r: Vec<Level>)
    ensures
        r@ == top_bids(book.bids@),
{
    let n = book.bids.len();
    let mut r: Vec<Level> = Vec::new();
    let mut i: usize = 0;
    while i < n && i < METRIC_DEPTH
        invariant
            n == book.bids@.len(),
            i <= n,
            i <= METRIC_DEPTH,
            r@.len() == i,
            forall|j: int| 0 <= j < i ==> #[trigger] r@[j] == book.bids@[n - 1 - j],
        decreases n - i,
    {
        r.push(book.bids.at(n - 1 - i));
        i = i + 1;
    }
    assert(r@ =~= top_bids(book.bids@));
    r
}

fn best_asks(book: &OrderBook) -> (r: Vec<Level>)
    ensures
        r@ == top_asks(book.asks@),
{
    let n = book.asks.len();
    let mut r: Vec<Level> = Vec::new();
    let mut i: usize = 0;
    while i < n && i < METRIC_DEPTH
        invariant
            n == book.asks@.len(),
            i <= n,
            i <= METRIC_DEPTH,
            r@.len() == i,
            forall|j: int| 0 <= j < i ==> #[trigger] r@[j] == book.asks@[j],
        decreases n - i,
    {
        r.push(book.asks.at(i));
        i = i + 1;
    }
    assert(r@ =~= top_asks(book.asks@));
    r
}

/// A sum taken from left to right.
pub fn sum_of(xs: &Vec<Double>) -> (r: Double)
    ensures
        r == sum(xs@),
{
    let mut r = Double::zero();
    let mut i: usize = 0;
    while i < xs.len()
        invariant
            i <= xs@.len(),
            r == sum(xs@.take(i as int)),
        decreases xs@.len() - i,
    {
        assert(xs@.take(i + 1).drop_last() =~= xs@.take(i as int));
        r = r.add(xs[i]);
        i = i + 1;
    }
    assert(xs@.take(i as int) =~= xs@);
    r
}

fn sizes_of(levels: &Vec<Level>) -> (r: Vec<Double>)
    ensures
        r@ == sizes(levels@),
{
    let mut r: Vec<Double> = Vec::new();
    let mut i: usize = 0;
    while i < levels.len()
        invariant
            i <= levels@.len(),
            r@ == sizes(levels@.take(i as int)),
        decreases levels@.len() - i,
    {
        r.push(levels[i].1);
        i = i + 1;
        assert(r@ =~= sizes(levels@.take(i as int)));
    }
    assert(levels@.take(i as int) =~= levels@);
    r
}

fn median_of(xs: &Vec<Double>) -> (r: Double)
    ensures
        r == median(xs@),
{
    let n = xs.len();
    if n == 0 {
        return Double::zero();
    }
    let p = sorting::rising_order(xs);
    assert(p@.len() == n);
    let half = n / 2;
    assert(p@[half as int] < n);
    if n % 2 == 1 {
        xs[p[half]]
    } else {
        assert(p@[half - 1] < n);
        xs[p[half - 1]].add(xs[p[half]]).div(Double::whole(2))
    }
}

fn pick_wall(levels: &Vec<Level>, threshold: Double) -> (r: Option<Level>)
    ensures
        r == strongest(levels@, threshold),
{
    let mut best: Option<Level> = None;
    let mut i: usize = 0;
    while i < levels.len()
        invariant
            i <= levels@.len(),
            best == strongest(levels@.take(i as int), threshold),
        decreases levels@.len() - i,
    {
        assert(levels@.take(i + 1).drop_last() =~= levels@.take(i as int));
        let l = levels[i];
        if threshold.gt(Double::zero()) && l.1.ge(threshold) {
            best = match best {
                Some(b) => if l.1.total_lt(b.1) {
                    Some(b)
                } else {
                    Some(l)
                },
                None => Some(l),
            };
        }
        i = i + 1;
    }
    assert(levels@.take(i as int) =~= levels@);
    best
}

/// The relative spread of a two-sided quote in percent.
pub open spec fn spread_or(bid: Double, ask: Double, missing: Double) -> Double {
    if bid.gt(Double::zero()) && ask.gt(Double::zero()) {
        ask.sub(bid).div(bid).mul(Double::whole(100))
    } else {
        missing
    }
}

/// The relative spread of a two-sided quote in percent; `missing` without one.
pub fn spread_pct(bid: Double, ask: Double, missing: Double) -> (r: Double)
    ensures
        r == spread_or(bid, ask, missing),
{
    if bid.gt(Double::zero()) && ask.gt(Double::zero()) {
        ask.sub(bid).div(bid).mul(Double::whole(100))
    } else {
        missing
    }
}

/// The middle of a two-sided quote, zero without one.
pub open spec fn middle(bid: Double, ask: Double) -> Double {
    if bid.gt(Double::zero()) && ask.gt(Double::zero()) {
        bid.add(ask).div(Double::whole(2))
    } else {
        Double::zero()
    }
}

/// The middle of a two-sided quote, zero without one.
pub fn mid_price(bid: Double, ask: Double) -> (r: Double)
    ensures
        r == middle(bid, ask),
{
    if bid.gt(Double::zero()) && ask.gt(Double::zero()) {
        bid.add(ask).div(Double::whole(2))
    } else {
        Double::zero()
    }
}

/// The size from which a level counts as a wall.
pub open spec fn threshold_of(multiplier: Double, bids: Seq<Level>, asks: Seq<Level>) -> Double {
    median(sizes(top_bids(bids)) + sizes(top_asks(asks))).mul(multiplier)
}

/// The metrics of a book and its tape at a moment.
pub open spec fn metrics_of(
    settings: Settings,
    book: BookView,
    ticks: Seq<TradeTick>,
    now: Double,
) -> Metrics {
    let bids = top_bids(book.bids);
    let asks = top_asks(book.asks);
    let bid_volume = sum(sizes(bids));
    let threshold = threshold_of(settings.alternative_wall_multiplier, book.bids, book.asks);
    let bought = notional(ticks, now, Window::Flow, true);
    let sold = notional(ticks, now, Window::Flow, false);
    let (bid, ask) = models::best_prices(book);
    Metrics {
        imbalance: share(bid_volume, bid_volume.add(sum(sizes(asks)))),
        strongest_bid_wall: strongest(bids, threshold),
        strongest_ask_wall: strongest(asks, threshold),
        wall_threshold: threshold,
        flow: share(bought, bought.add(sold)),
        bid,
        ask,
        mid: middle(bid, ask),
        spread: spread_or(bid, ask, Double::whole(999)),
        freshness: now.sub(book.updated_at),
        tape: tape_at(ticks, now),
    }
}

fn share_of(part: Double, total: Double) -> (r: Double)
    ensures
        r == share(part, total),
{
    if total.gt(Double::zero()) {
        part.div(total)
    } else {
        Double::ratio(1, 2)
    }
}

pub fn book_metrics(
    settings: &Settings,
    book: &OrderBook,
    ticks: &VecDeque<TradeTick>,
    now: Double,
) -> (r: Metrics)
    ensures
        r == metrics_of(*settings, book@, ticks@, now),
{
    let bids = best_bids(book);
    let asks = best_asks(book);
    let mut all = sizes_of(&bids);
    let bid_volume = sum_of(&all);
    let mut ask_sizes = sizes_of(&asks);
    let ask_volume = sum_of(&ask_sizes);
    let imbalance = share_of(bid_volume, bid_volume.add(ask_volume));
    all.append(&mut ask_sizes);
    let wall_threshold = median_of(&all).mul(settings.alternative_wall_multiplier);
    let (bought, sold) = traded(ticks, now, Window::Flow);
    let flow = share_of(bought, bought.add(sold));
    let (bid, ask) = book.quote();
    Metrics {
        imbalance,
        strongest_bid_wall: pick_wall(&bids, wall_threshold),
        strongest_ask_wall: pick_wall(&asks, wall_threshold),
        wall_threshold,
        flow,
        bid,
        ask,
        mid: mid_price(bid, ask),
        spread: spread_pct(bid, ask, Double::whole(999)),
        freshness: now.sub(book.updated_at),
        tape: directional_tape(ticks, now),
    }
}

/// How far from a wall a price may stand and still count as the wall's: the live spread,
/// and at least a ten-thousandth of the price.
pub open spec fn tolerance(book: BookView, wall_price: Double) -> Double {
    let (bid, ask) = models::best_prices(book);
    let live_spread = if bid.gt(Double::zero()) && ask.gt(Double::zero()) {
        ask.sub(bid)
    } else {
        Double::zero()
    };
    live_spread.max(wall_price.mul(Double::ratio(1, 10_000)))
}

fn wall_price_tolerance(book: &OrderBook, wall_price: Double) -> (r: Double)
    ensures
        r == tolerance(book@, wall_price),
{
    let (bid, ask) = book.quote();
    let live_spread = if bid.gt(Double::zero()) && ask.gt(Double::zero()) {
        ask.sub(bid)
    } else {
        Double::zero()
    };
    live_spread.max(wall_price.mul(Double::ratio(1, 10_000)))
}

/// Whether a trade can have consumed a wall: an ask wall is consumed by buyers at or
/// above it, a bid wall by sellers at or below it.
pub open spec fn consumes(
    tick: TradeTick,
    side: WallSide,
    wall_price: Double,
    started_at: Double,
    now: Double,
    reach: Double,
) -> bool {
    &&& !tick.timestamp.lt(started_at)
    &&& !tick.timestamp.gt(now)
    &&& match side {
        WallSide::Ask => tick.is_buy && tick.price.ge(wall_price.sub(reach)),
        WallSide::Bid => !tick.is_buy && tick.price.le(wall_price.add(reach)),
    }
}

/// The size of the trades that can have consumed a wall.
pub open spec fn executed(
    ticks: Seq<TradeTick>,
    side: WallSide,
    wall_price: Double,
    started_at: Double,
    now: Double,
    reach: Double,
) -> Double
    decreases ticks.len(),
{
    if ticks.len() == 0 {
        Double::zero()
    } else {
        let before = executed(ticks.drop_last(), side, wall_price, started_at, now, reach);
        if consumes(ticks.last(), side, wall_price, started_at, now, reach) {
            before.add(ticks.last().size)
        } else {
            before
        }
    }
}

fn executed_quantity_at_wall(
    ticks: &VecDeque<TradeTick>,
    side: WallSide,
    wall_price: Double,
    started_at: Double,
    now: Double,
    book: &OrderBook,
) -> (r: Double)
    ensures
        r == executed(ticks@, side, wall_price, started_at, now, tolerance(book@, wall_price)),
{
    let reach = wall_price_tolerance(book, wall_price);
    let mut done = Double::zero();
    let mut i: usize = 0;
    while i < ticks.len()
        invariant
            i <= ticks@.len(),
            done == executed(ticks@.take(i as int), side, wall_price, started_at, now, reach),
        decreases ticks@.len() - i,
    {
        assert(ticks@.take(i + 1).drop_last() =~= ticks@.take(i as int));
        let tick = ticks[i];
        if !tick.timestamp.lt(started_at) && !tick.timestamp.gt(now) {
            let hit = match side {
                WallSide::Ask => tick.is_buy && tick.price.ge(wall_price.sub(reach)),
                WallSide::Bid => !tick.is_buy && tick.price.le(wall_price.add(reach)),
            };
            if hit {
                done = done.add(tick.size);
            }
        }
        i = i + 1;
    }
    assert(ticks@.take(i as int) =~= ticks@);
    done
}

pub open spec fn fresh_track(side: WallSide, level: Level, now: Double) -> WallTrack {
    WallTrack {
        side,
        price: level.0,
        initial_size: level.1,
        peak_size: level.1,
        started_at: now,
        verified: false,
        triggered: false,
    }
}

fn new_wall_track(side: WallSide, level: Level, now: Double) -> (r: WallTrack)
    ensures
        r == fresh_track(side, level, now),
{
    WallTrack {
        side,
        price: level.0,
        initial_size: level.1,
        peak_size: level.1,
        started_at: now,
        verified: false,
        triggered: false,
    }
}

/// The size that rests at a wall's price, zero for none.
pub open spec fn resting(book: BookView, side: WallSide, price: Double) -> Double {
    let levels = match side {
        WallSide::Ask => book.asks,
        WallSide::Bid => book.bids,
    };
    match models::size_at(levels, price) {
        Some(size) => size,
        None => Double::zero(),
    }
}

/// The size that rests at a wall's price, zero for none.
pub fn resting_size(book: &OrderBook, side: WallSide, price: Double) -> (r: Double)
    ensures
        r == resting(book@, side, price),
{
    let found = match side {
        WallSide::Ask => book.asks.get(price),
        WallSide::Bid => book.bids.get(price),
    };
    match found {
        Some(size) => size,
        None => Double::zero(),
    }
}

/// The tape runs into a wall on this side.
pub open spec fn tape_confirms(side: WallSide, tape: Tape) -> bool {
    match side {
        WallSide::Ask => tape.buy_accelerating,
        WallSide::Bid => tape.sell_accelerating,
    }
}

/// The share of a wall that has to be gone.
pub open spec fn depletion_needed() -> Double {
    Double::ratio(20, 100)
}

/// The share of what is gone that trades have to account for.
pub open spec fn match_needed() -> Double {
    Double::ratio(90, 100)
}

/// What a verified wall has lost. It counts as absorbed when enough of it is gone, trades
/// at the wall account for the loss, and the tape confirms.
pub open spec fn absorption_at(
    book: BookView,
    ticks: Seq<TradeTick>,
    track: WallTrack,
    side: WallSide,
    now: Double,
) -> Absorption {
    let zero = Double::zero();
    let current_size = resting(book, side, track.price);
    let depleted = track.initial_size.sub(current_size).max(zero);
    let ratio = if track.initial_size.gt(zero) {
        depleted.div(track.initial_size)
    } else {
        zero
    };
    let traded = executed(
        ticks,
        side,
        track.price,
        track.started_at,
        now,
        tolerance(book, track.price),
    );
    Absorption {
        side,
        price: track.price,
        initial_size: track.initial_size,
        current_size,
        depleted_quantity: depleted,
        depletion_ratio: ratio,
        executed_quantity: traded,
        matched_ratio: if depleted.gt(zero) {
            traded.div(depleted)
        } else {
            zero
        },
        verified_for: now.sub(track.started_at),
        absorbed: ratio.ge(depletion_needed()) && traded.ge(depleted.mul(match_needed()))
            && tape_confirms(side, tape_at(ticks, now)),
    }
}

/// A wall that vanished without the trades to explain it.
pub open spec fn vanished(a: Absorption) -> bool {
    &&& !a.absorbed
    &&& a.current_size.le(Double::zero())
    &&& (a.depletion_ratio.lt(depletion_needed()) || a.executed_quantity.lt(
        a.depleted_quantity.mul(match_needed()),
    ))
}

/// One observation of a verified wall.
pub open spec fn observed(
    book: BookView,
    ticks: Seq<TradeTick>,
    track: WallTrack,
    side: WallSide,
    now: Double,
) -> (Option<WallTrack>, Option<Absorption>) {
    let a = absorption_at(book, ticks, track, side, now);
    if track.triggered {
        (Some(track), None)
    } else if vanished(a) {
        (None, Some(a))
    } else {
        (Some(WallTrack { triggered: a.absorbed, ..track }), Some(a))
    }
}

/// One observation of a wall side: what is watched afterwards, and what a verified wall
/// has lost. A wall is verified once it has stood for three seconds without a meaningful
/// refill and without losing a fifth of its size.
pub open spec fn wall_step(
    watched: Option<WallTrack>,
    book: BookView,
    ticks: Seq<TradeTick>,
    side: WallSide,
    candidate: Option<Level>,
    now: Double,
) -> (Option<WallTrack>, Option<Absorption>) {
    match watched {
        None => (
            match candidate {
                Some(level) => Some(fresh_track(side, level, now)),
                None => None,
            },
            None,
        ),
        Some(track) => if track.verified {
            observed(book, ticks, track, side, now)
        } else {
            match candidate {
                None => (None, None),
                Some(level) => if !level.0.sub(track.price).abs().le(tolerance(book, track.price)) {
                    (Some(fresh_track(side, level, now)), None)
                } else if level.1.gt(track.peak_size.mul(Double::ratio(105, 100))) {
                    (
                        Some(
                            WallTrack {
                                initial_size: level.1,
                                peak_size: level.1,
                                started_at: now,
                                ..track
                            },
                        ),
                        None,
                    )
                } else {
                    let seen = WallTrack { peak_size: track.peak_size.max(level.1), ..track };
                    let lost = track.initial_size.sub(resting(book, side, track.price));
                    if lost.ge(track.initial_size.mul(depletion_needed())) {
                        (None, None)
                    } else if now.sub(track.started_at).ge(Double::whole(3)) {
                        observed(book, ticks, WallTrack { verified: true, ..seen }, side, now)
                    } else {
                        (Some(seen), None)
                    }
                },
            }
        },
    }
}

fn observe_wall(
    book: &OrderBook,
    ticks: &VecDeque<TradeTick>,
    track: WallTrack,
    side: WallSide,
    now: Double,
) -> (r: (Option<WallTrack>, Option<Absorption>))
    ensures
        r == observed(book@, ticks@, track, side, now),
{
    if track.triggered {
        return (Some(track), None);
    }
    let zero = Double::zero();
    let needed = Double::ratio(20, 100);
    let initial_size = track.initial_size;
    let current_size = resting_size(book, side, track.price);
    let depleted_quantity = initial_size.sub(current_size).max(zero);
    let depletion_ratio = if initial_size.gt(zero) {
        depleted_quantity.div(initial_size)
    } else {
        zero
    };
    let executed_quantity = executed_quantity_at_wall(
        ticks,
        side,
        track.price,
        track.started_at,
        now,
        book,
    );
    let matched_ratio = if depleted_quantity.gt(zero) {
        executed_quantity.div(depleted_quantity)
    } else {
        zero
    };
    let tape = directional_tape(ticks, now);
    let tape_confirmed = match side {
        WallSide::Ask => tape.buy_accelerating,
        WallSide::Bid => tape.sell_accelerating,
    };
    let explained = depleted_quantity.mul(Double::ratio(90, 100));
    let absorbed = depletion_ratio.ge(needed) && executed_quantity.ge(explained) && tape_confirmed;
    let result = Absorption {
        side,
        price: track.price,
        initial_size,
        current_size,
        depleted_quantity,
        depletion_ratio,
        executed_quantity,
        matched_ratio,
        verified_for: now.sub(track.started_at),
        absorbed,
    };
    if !absorbed && current_size.le(zero) && (depletion_ratio.lt(needed) || executed_quantity.lt(
        explained,
    )) {
        return (None, Some(result));
    }
    let mut next = track;
    next.triggered = absorbed;
    (Some(next), Some(result))
}

/// Observes a wall side once. Depletion alone is never absorption: trades at the wall have
/// to account for what is gone, and the tape has to confirm.
pub fn update_wall_track(
    watched: Option<WallTrack>,
    book: &OrderBook,
    ticks: &VecDeque<TradeTick>,
    side: WallSide,
    candidate: Option<Level>,
    now: Double,
) -> (r: (Option<WallTrack>, Option<Absorption>))
    ensures
        r == wall_step(watched, book@, ticks@, side, candidate, now),
{
    let track = match watched {
        Some(track) => track,
        None => {
            return match candidate {
                Some(level) => (Some(new_wall_track(side, level, now)), None),
                None => (None, None),
            };
        },
    };
    if track.verified {
        return observe_wall(book, ticks, track, side, now);
    }
    let level = match candidate {
        Some(level) => level,
        None => {
            return (None, None);
        },
    };
    if !level.0.sub(track.price).abs().le(wall_price_tolerance(book, track.price)) {
        return (Some(new_wall_track(side, level, now)), None);
    }
    let mut next = track;
    // A meaningful refill restarts continuous verification.
    if level.1.gt(track.peak_size.mul(Double::ratio(105, 100))) {
        next.initial_size = level.1;
        next.peak_size = level.1;
        next.started_at = now;
        return (Some(next), None);
    }
    next.peak_size = track.peak_size.max(level.1);
    let lost = track.initial_size.sub(resting_size(book, side, track.price));
    if lost.ge(track.initial_size.mul(Double::ratio(20, 100))) {
        return (None, None);
    }
    if now.sub(track.started_at).ge(Double::whole(3)) {
        next.verified = true;
        observe_wall(book, ticks, next, side, now)
    } else {
        (Some(next), None)
    }
}

/// The most samples that the BTC history keeps.
pub const BTC_HISTORY_MAXLEN: usize = 400;

/// A moment and the BTC mid price at it.
pub type Sample = (Double, Double);

/// The history with a sample added, unless the last one is younger than a quarter of a
/// second; a full history loses its oldest sample.
pub open spec fn with_sample(history: Seq<Sample>, now: Double, mid: Double) -> Seq<Sample> {
    if history.len() > 0 && !now.sub(history.last().0).ge(Double::ratio(1, 4)) {
        history
    } else if history.len() >= BTC_HISTORY_MAXLEN {
        history.drop_first().push((now, mid))
    } else {
        history.push((now, mid))
    }
}

/// The history without the oldest samples taken before a moment.
pub open spec fn from_moment(history: Seq<Sample>, cutoff: Double) -> Seq<Sample>
    decreases history.len(),
{
    if history.len() > 0 && history[0].0.lt(cutoff) {
        from_moment(history.drop_first(), cutoff)
    } else {
        history
    }
}

/// The BTC history after one look at the BTC book.
pub open spec fn recorded(history: Seq<Sample>, book: Option<BookView>, now: Double) -> Seq<
    Sample,
> {
    match book {
        None => history,
        Some(b) => {
            let (bid, ask) = models::best_prices(b);
            if bid.le(Double::zero()) || ask.le(Double::zero()) {
                history
            } else {
                from_moment(
                    with_sample(history, now, bid.add(ask).div(Double::whole(2))),
                    now.sub(Double::whole(60).add(Double::whole(5))),
                )
            }
        },
    }
}

/// Records the BTC mid price.
pub fn record_btc_mid(history: &mut VecDeque<Sample>, book: Option<&OrderBook>, now: Double)
    ensures
        final(history)@ == recorded(
            old(history)@,
            match book {
                Some(b) => Some(b@),
                None => None,
            },
            now,
        ),
        old(history)@.len() <= BTC_HISTORY_MAXLEN ==> final(history)@.len() <= BTC_HISTORY_MAXLEN,
{
    let book = match book {
        Some(b) => b,
        None => {
            return;
        },
    };
    let (bid, ask) = book.quote();
    if bid.le(Double::zero()) || ask.le(Double::zero()) {
        return;
    }
    let mid = bid.add(ask).div(Double::whole(2));
    let n = history.len();
    if n == 0 || now.sub(history[n - 1].0).ge(Double::ratio(1, 4)) {
        if n >= BTC_HISTORY_MAXLEN {
            let _ = history.pop_front();
        }
        history.push_back((now, mid));
    }
    assert(history@ =~= with_sample(old(history)@, now, mid));
    let cutoff = now.sub(Double::whole(60).add(Double::whole(5)));
    let ghost full = history@;
    while history.len() > 0 && history[0].0.lt(cutoff)
        invariant
            from_moment(history@, cutoff) == from_moment(full, cutoff),
            history@.len() <= full.len(),
        decreases history@.len(),
    {
        let ghost before = history@;
        let _ = history.pop_front();
        assert(history@ =~= before.drop_first());
    }
}

/// The direction of BTC over the last minute.
#[derive(Clone, Copy, Debug, PartialEq, Eq, Structural)]
pub struct BtcTrend {
    pub ready: bool,
    pub direction: TrendDirection,
    pub change_pct: Double,
    pub coverage: Double,
}

/// The samples taken at or after a moment.
pub open spec fn since(history: Seq<Sample>, cutoff: Double) -> Seq<Sample>
    decreases history.len(),
{
    if history.len() == 0 {
        history
    } else {
        let before = since(history.drop_last(), cutoff);
        if history.last().0.ge(cutoff) {
            before.push(history.last())
        } else {
            before
        }
    }
}

/// The trend from a first to a last sample.
pub open spec fn trend_between(first: Sample, last: Sample) -> BtcTrend {
    let coverage = last.0.sub(first.0);
    let change_pct = if first.1.gt(Double::zero()) {
        last.1.sub(first.1).div(first.1)
    } else {
        Double::zero()
    };
    let least = Double::ratio(2, 10_000);
    if coverage.lt(Double::whole(45)) {
        BtcTrend { ready: false, direction: TrendDirection::Unknown, change_pct, coverage }
    } else if change_pct.ge(least) {
        BtcTrend { ready: true, direction: TrendDirection::Up, change_pct, coverage }
    } else if change_pct.le(least.neg()) {
        BtcTrend { ready: true, direction: TrendDirection::Down, change_pct, coverage }
    } else {
        BtcTrend { ready: true, direction: TrendDirection::Flat, change_pct, coverage }
    }
}

/// The trend of the last minute; unknown on fewer than two samples or on samples that
/// cover less than forty-five seconds.
pub open spec fn trend_at(history: Seq<Sample>, now: Double) -> BtcTrend {
    let samples = since(history, now.sub(Double::whole(60)));
    if samples.len() < 2 {
        BtcTrend {
            ready: false,
            direction: TrendDirection::Unknown,
            change_pct: Double::zero(),
            coverage: Double::zero(),
        }
    } else {
        trend_between(samples.first(), samples.last())
    }
}

pub fn btc_trend(history: &VecDeque<Sample>, now: Double) -> (r: BtcTrend)
    ensures
        r == trend_at(history@, now),
{
    let cutoff = now.sub(Double::whole(60));
    let mut samples: Vec<Sample> = Vec::new();
    let mut i: usize = 0;
    while i < history.len()
        invariant
            i <= history@.len(),
            samples@ == since(history@.take(i as int), cutoff),
        decreases history@.len() - i,
    {
        assert(history@.take(i + 1).drop_last() =~= history@.take(i as int));
        if history[i].0.ge(cutoff) {
            samples.push(history[i]);
        }
        i = i + 1;
    }
    assert(history@.take(i as int) =~= history@);
    let n = samples.len();
    if n < 2 {
        return BtcTrend {
            ready: false,
            direction: TrendDirection::Unknown,
            change_pct: Double::zero(),
            coverage: Double::zero(),
        };
    }
    let first = samples[0];
    let last = samples[n - 1];
    let coverage = last.0.sub(first.0);
    let change_pct = if first.1.gt(Double::zero()) {
        last.1.sub(first.1).div(first.1)
    } else {
        Double::zero()
    };
    let least = Double::ratio(2, 10_000);
    let (direction, ready) = if coverage.lt(Double::whole(45)) {
        (TrendDirection::Unknown, false)
    } else if change_pct.ge(least) {
        (TrendDirection::Up, true)
    } else if change_pct.le(least.neg()) {
        (TrendDirection::Down, true)
    } else {
        (TrendDirection::Flat, true)
    };
    BtcTrend { ready, direction, change_pct, coverage }
}

/// Whether the BTC filter lets a symbol be traded on a side. It never holds BTC back, and
/// nothing else passes before a trend is known.
pub open spec fn trend_allows(symbol: Seq<char>, side: Side, trend: BtcTrend) -> bool {
    symbol == "BTCUSDT"@ || (trend.ready && trend.direction == match side {
        Side::Long => TrendDirection::Up,
        Side::Short => TrendDirection::Down,
    })
}

pub fn btc_allows(history: &VecDeque<Sample>, symbol: &str, side: Side, now: Double) -> (r: (
    bool,
    BtcTrend,
))
    ensures
        r.1 == trend_at(history@, now),
        r.0 == trend_allows(symbol@, side, r.1),
{
    let trend = btc_trend(history, now);
    if text::text_eq(symbol, "BTCUSDT") {
        return (true, trend);
    }
    if !trend.ready {
        return (false, trend);
    }
    let allowed = match side {
        Side::Long => trend.direction == TrendDirection::Up,
        Side::Short => trend.direction == TrendDirection::Down,
    };
    (allowed, trend)
}

/// Depletion alone is never absorption: a wall counts as absorbed only when at least a fifth
/// of it is gone, trades at the wall account for nine tenths of what is gone, and the tape
/// runs into it; and only a wall that has stood verified is looked at.
pub proof fn absorption_needs_trades_and_tape(
    watched: Option<WallTrack>,
    book: BookView,
    ticks: Seq<TradeTick>,
    side: WallSide,
    candidate: Option<Level>,
    now: Double,
)
    requires
        wall_step(watched, book, ticks, side, candidate, now).1 is Some,
        (wall_step(watched, book, ticks, side, candidate, now).1->0).absorbed,
    ensures
        ({
            let a = wall_step(watched, book, ticks, side, candidate, now).1->0;
            &&& a.depletion_ratio.ge(depletion_needed())
            &&& a.executed_quantity.ge(a.depleted_quantity.mul(match_needed()))
            &&& tape_confirms(side, tape_at(ticks, now))
            &&& watched is Some
            &&& (watched->0).verified || now.sub((watched->0).started_at).ge(Double::whole(3))
            &&& !(watched->0).triggered
        }),
{
}

/// A wall is reported as absorbed once: afterwards its track says nothing more.
pub proof fn absorption_is_reported_once(
    watched: Option<WallTrack>,
    book: BookView,
    ticks: Seq<TradeTick>,
    side: WallSide,
    candidate: Option<Level>,
    now: Double,
    later_book: BookView,
    later_ticks: Seq<TradeTick>,
    later_candidate: Option<Level>,
    later: Double,
)
    requires
        wall_step(watched, book, ticks, side, candidate, now).1 is Some,
        (wall_step(watched, book, ticks, side, candidate, now).1->0).absorbed,
    ensures
        wall_step(
            wall_step(watched, book, ticks, side, candidate, now).0,
            later_book,
            later_ticks,
            side,
            later_candidate,
            later,
        ).1 is None,
{
}

/// An empty or microscopic baseline never confirms an acceleration: below a hundred in the
/// previous second a side does not accelerate, whatever trades now.
pub proof fn small_baseline_never_accelerates(
    current_buy: Double,
    current_sell: Double,
    previous_buy: Double,
    previous_sell: Double,
)
    ensures
        ({
            let tape = tape_of(current_buy, current_sell, previous_buy, previous_sell);
            &&& previous_buy.lt(Double::whole(100)) ==> !tape.buy_accelerating
                && !tape.buy_baseline_valid && tape.buy_acceleration == Double::zero()
            &&& previous_sell.lt(Double::whole(100)) ==> !tape.sell_accelerating
                && !tape.sell_baseline_valid && tape.sell_acceleration == Double::zero()
        }),
{
}

/// The BTC filter fails closed: before a trend is known, and against the trend, nothing but
/// BTC itself may be traded.
pub proof fn btc_filter_fails_closed(
    history: Seq<Sample>,
    symbol: Seq<char>,
    side: Side,
    now: Double,
)
    requires
        symbol != "BTCUSDT"@,
    ensures
        !trend_at(history, now).ready ==> !trend_allows(symbol, side, trend_at(history, now)),
        trend_allows(symbol, side, trend_at(history, now)) ==> !trend_allows(
            symbol,
            side.inverted(),
            trend_at(history, now),
        ),
        trend_at(history, now).ready ==> trend_at(history, now).coverage.ge(Double::whole(45))
            || trend_at(history, now).coverage.nan(),
{
}

/// What the radar shows for a symbol.
#[derive(Clone, Copy, Debug, PartialEq, Eq, Structural)]
pub enum Status {
    Long,
    Short,
    Cooldown,
    Watch,
}

impl Status {
    pub open spec fn name(self) -> Seq<char> {
        match self {
            Status::Long => "LONG"@,
            Status::Short => "SHORT"@,
            Status::Cooldown => "COOLDOWN"@,
            Status::Watch => "WATCH"@,
        }
    }

    pub fn as_str(&self) -> (r: &'static str)
        ensures
            r@ == self.name(),
    {
        match self {
            Status::Long => "LONG",
            Status::Short => "SHORT",
            Status::Cooldown => "COOLDOWN",
            Status::Watch => "WATCH",
        }
    }

    pub open spec fn spec_holding(side: Side) -> Status {
        match side {
            Side::Long => Status::Long,
            Side::Short => Status::Short,
        }
    }

    /// The status of a symbol with an open position.
    #[verifier::when_used_as_spec(spec_holding)]
    pub fn holding(side: Side) -> (r: Status)
        ensures
            r == Status::spec_holding(side),
    {
        match side {
            Side::Long => Status::Long,
            Side::Short => Status::Short,
        }
    }
}

/// One symbol on the radar.
#[derive(Clone, Copy, Debug, PartialEq, Eq, Structural)]
pub struct RadarRow {
    pub status: Status,
    pub price: Double,
    pub imbalance: Double,
    pub bid_wall: bool,
    pub ask_wall: bool,
    pub wall_threshold: Double,
    pub flow: Double,
    pub bid: Double,
    pub ask: Double,
    pub mid: Double,
    pub spread: Double,
    pub freshness: Double,
    pub tape: Tape,
    pub bid_absorption: Option<Absorption>,
    pub ask_absorption: Option<Absorption>,
    pub btc_trend: TrendDirection,
    pub btc_trend_pct: Double,
    pub btc_trend_coverage: Double,
}

pub open spec fn radar_row(
    metrics: Metrics,
    status: Status,
    trend: BtcTrend,
    bid_absorption: Option<Absorption>,
    ask_absorption: Option<Absorption>,
) -> RadarRow {
    RadarRow {
        status,
        price: metrics.mid,
        imbalance: metrics.imbalance,
        bid_wall: metrics.strongest_bid_wall is Some,
        ask_wall: metrics.strongest_ask_wall is Some,
        wall_threshold: metrics.wall_threshold,
        flow: metrics.flow,
        bid: metrics.bid,
        ask: metrics.ask,
        mid: metrics.mid,
        spread: metrics.spread,
        freshness: metrics.freshness,
        tape: metrics.tape,
        bid_absorption,
        ask_absorption,
        btc_trend: trend.direction,
        btc_trend_pct: trend.change_pct.mul(Double::whole(100)),
        btc_trend_coverage: trend.coverage,
    }
}

pub fn metrics_to_radar(
    metrics: &Metrics,
    status: Status,
    trend: BtcTrend,
    bid_absorption: Option<Absorption>,
    ask_absorption: Option<Absorption>,
) -> (r: RadarRow)
    ensures
        r == radar_row(*metrics, status, trend, bid_absorption, ask_absorption),
{
    RadarRow {
        status,
        price: metrics.mid,
        imbalance: metrics.imbalance,
        bid_wall: metrics.strongest_bid_wall.is_some(),
        ask_wall: metrics.strongest_ask_wall.is_some(),
        wall_threshold: metrics.wall_threshold,
        flow: metrics.flow,
        bid: metrics.bid,
        ask: metrics.ask,
        mid: metrics.mid,
        spread: metrics.spread,
        freshness: metrics.freshness,
        tape: metrics.tape,
        bid_absorption,
        ask_absorption,
        btc_trend: trend.direction,
        btc_trend_pct: trend.change_pct.mul(Double::whole(100)),
        btc_trend_coverage: trend.coverage,
    }
}

} // verus!

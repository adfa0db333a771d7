//! What the pages of symbols and of heatmaps show.
use vstd::prelude::*;
use crate::brain::Status;
use crate::coinglass;
use crate::coinglass::{ApiStatus, Cluster};
use crate::detail;
use crate::detail::EventView;
use crate::double;
use crate::double::Double;
use crate::journal::LogLine;
use crate::json;
use crate::json::Json;
use crate::models;
use crate::models::{
    BookView, ExitReason, Level, Side, TrendDirection, WallSide, WallTrack,
};
use crate::mtf_fvg::{MtfPhase, Timeframe};
use crate::mtf_tracker;
use crate::routes;
use crate::sorting;
use crate::state::{ClosedRow, MarketView};
use crate::text;
use crate::text::Edge;

verus! {

/// The bids of a page are the best first, which are the highest, and its asks the best first,
/// which are the lowest, each with what it is worth.
pub proof fn levels_are_shown_from_the_best(levels: Seq<Level>, i: int)
    requires
        0 <= i < levels.len(),
        i < 50,
    ensures
        ({
            let bids = detail::shown_levels(levels, true);
            let asks = detail::shown_levels(levels, false);
            let bid = levels[levels.len() - 1 - i];
            let ask = levels[i];
            &&& bids.len() == asks.len()
            &&& bids.len() == if levels.len() > 50 {
                50
            } else {
                levels.len()
            }
            &&& bids[i].price == bid.0
            &&& bids[i].size == bid.1
            &&& bids[i].notional == bid.0.mul(bid.1)
            &&& asks[i].price == ask.0
            &&& asks[i].size == ask.1
            &&& asks[i].notional == ask.0.mul(ask.1)
        }),
{
}

/// A wall is shown with its own price and sizes; what is left of it is what rests at its price on
/// its own side; it ages from nothing to whole in three seconds.
pub proof fn a_wall_is_shown_as_it_stands(
    wall: WallTrack,
    side: WallSide,
    book: BookView,
    now: Double,
)
    ensures
        ({
            let w = detail::shown_wall(wall, side, Some(book), now);
            let levels = match side {
                WallSide::Bid => book.bids,
                WallSide::Ask => book.asks,
            };
            let age = now.sub(wall.started_at);
            &&& w.side == side
            &&& w.price == wall.price
            &&& w.initial_size == wall.initial_size
            &&& models::size_at(levels, wall.price) is Some ==> w.current_size == models::size_at(
                levels,
                wall.price,
            )->0
            &&& models::size_at(levels, wall.price) is None ==> w.current_size == Double::zero()
            &&& w.verified == wall.verified
            &&& w.triggered == wall.triggered
            &&& w.confirmation_seconds == Double::whole(3)
            &&& Double::zero().le(age) ==> w.age_seconds == age
            &&& age.lt(Double::zero()) ==> w.age_seconds == Double::zero()
            &&& !Double::one().lt(w.aging_progress)
        }),
{
    lemma_progress(now.sub(wall.started_at).max(Double::zero()).div(Double::whole(3)));
    lemma_age(now.sub(wall.started_at));
}

proof fn lemma_progress(x: Double)
    ensures
        !Double::one().lt(x.min(Double::one())),
{
}

proof fn lemma_age(x: Double)
    ensures
        Double::zero().le(x) ==> x.max(Double::zero()) == x,
        x.lt(Double::zero()) ==> x.max(Double::zero()) == Double::zero(),
{
}

/// The walls of a symbol are those that are tracked for it, the bid before the ask, each on its
/// own side.
pub proof fn the_tracked_walls_are_shown(m: MarketView, symbol: Seq<char>, now: Double)
    requires
        m.books.dom().contains(symbol),
    ensures
        ({
            let walls = detail::walls_of(m, symbol, now);
            let book = Some(m.books[symbol]);
            let bid = m.bid_walls.dom().contains(symbol);
            let ask = m.ask_walls.dom().contains(symbol);
            &&& walls.len() == (if bid {
                1int
            } else {
                0
            }) + (if ask {
                1int
            } else {
                0
            })
            &&& bid ==> walls[0] == detail::shown_wall(
                m.bid_walls[symbol],
                WallSide::Bid,
                book,
                now,
            )
            &&& ask ==> walls[walls.len() - 1] == detail::shown_wall(
                m.ask_walls[symbol],
                WallSide::Ask,
                book,
                now,
            )
        }),
{
}

proof fn lemma_events(closed: Seq<ClosedRow>, logs: Seq<LogLine>, symbol: Seq<char>, e: EventView)
    ensures
        detail::trade_events(closed, symbol).contains(e) <==> exists|i: int|
            0 <= i < closed.len() && (#[trigger] closed[i]).symbol == symbol && e
                == EventView::Trade(closed[i].result),
        detail::log_events(logs, symbol).contains(e) <==> exists|i: int|
            0 <= i < logs.len() && (#[trigger] logs[i]).symbol == symbol && e == EventView::Log(
                logs[i],
            ),
    decreases closed.len() + logs.len(),
{
    if closed.len() > 0 {
        let rest = closed.drop_last();
        lemma_events(rest, logs, symbol, e);
        let before = detail::trade_events(rest, symbol);
        let after = detail::trade_events(closed, symbol);
        let n = closed.len() - 1;
        let new = EventView::Trade(closed[n].result);
        assert(closed.last() == closed[n]);
        if after.contains(e) {
            let k = choose|k: int| 0 <= k < after.len() && after[k] == e;
            if k < before.len() {
                assert(before[k] == e);
                let i = choose|i: int|
                    0 <= i < rest.len() && (#[trigger] rest[i]).symbol == symbol && e
                        == EventView::Trade(rest[i].result);
                assert(closed[i] == rest[i]);
            } else {
                assert(closed[n].symbol == symbol && e == new);
            }
        }
        if exists|i: int|
            0 <= i < closed.len() && (#[trigger] closed[i]).symbol == symbol && e
                == EventView::Trade(closed[i].result) {
            let i = choose|i: int|
                0 <= i < closed.len() && (#[trigger] closed[i]).symbol == symbol && e
                    == EventView::Trade(closed[i].result);
            if i < n {
                assert(rest[i] == closed[i]);
                let k = choose|k: int| 0 <= k < before.len() && before[k] == e;
                assert(after[k] == e);
            } else {
                assert(after[before.len() as int] == e);
            }
        }
    } else if logs.len() > 0 {
        let rest = logs.drop_last();
        lemma_events(closed, rest, symbol, e);
        let before = detail::log_events(rest, symbol);
        let after = detail::log_events(logs, symbol);
        let n = logs.len() - 1;
        let new = EventView::Log(logs[n]);
        assert(logs.last() == logs[n]);
        if after.contains(e) {
            let k = choose|k: int| 0 <= k < after.len() && after[k] == e;
            if k < before.len() {
                assert(before[k] == e);
                let i = choose|i: int|
                    0 <= i < rest.len() && (#[trigger] rest[i]).symbol == symbol && e
                        == EventView::Log(rest[i]);
                assert(logs[i] == rest[i]);
            } else {
                assert(logs[n].symbol == symbol && e == new);
            }
        }
        if exists|i: int|
            0 <= i < logs.len() && (#[trigger] logs[i]).symbol == symbol && e == EventView::Log(
                logs[i],
            ) {
            let i = choose|i: int|
                0 <= i < logs.len() && (#[trigger] logs[i]).symbol == symbol && e
                    == EventView::Log(logs[i]);
            if i < n {
                assert(rest[i] == logs[i]);
                let k = choose|k: int| 0 <= k < before.len() && before[k] == e;
                assert(after[k] == e);
            } else {
                assert(after[before.len() as int] == e);
            }
        }
    }
}

/// When an event of a history happened: a trade when it was closed, a line when it was written.
pub open spec fn happened(e: EventView) -> Double {
    match e {
        EventView::Trade(result) => result.closed_at,
        EventView::Log(line) => line.timestamp,
    }
}

proof fn lemma_not_later(a: Double, b: Double)
    requires
        double::rank(b) <= double::rank(a),
    ensures
        !a.lt(b),
{
}

/// The history of a symbol shows at most five of its own trades and log lines, the latest first;
/// a trade or line of the symbol that is not shown is no later than any that is.
pub proof fn a_history_shows_the_latest(
    m: MarketView,
    symbol: Seq<char>,
    i: int,
    j: int,
    e: EventView,
)
    requires
        m.closed.len() + m.journal.logs.len() <= usize::MAX,
        (exists|k: int|
            0 <= k < m.closed.len() && (#[trigger] m.closed[k]).symbol == symbol && e
                == EventView::Trade(m.closed[k].result)) || (exists|k: int|
            0 <= k < m.journal.logs.len() && (#[trigger] m.journal.logs[k]).symbol == symbol && e
                == EventView::Log(m.journal.logs[k])),
    ensures
        ({
            let shown = detail::history_of(m, symbol);
            &&& shown.len() <= 5
            &&& 0 <= i < j < shown.len() ==> !happened(shown[i]).lt(happened(shown[j]))
            &&& shown.contains(e) || (shown.len() == 5 && (0 <= i < 5 ==> !happened(shown[i]).lt(
                happened(e),
            )))
        }),
{
    let trades = detail::trade_events(m.closed, symbol);
    let lines = detail::log_events(m.journal.logs, symbol);
    let all = trades + lines;
    let times = detail::event_times(all);
    let keys = sorting::falling_keys(times);
    let places = sorting::order(keys);
    let sorted = sorting::picked(all, places);
    let shown = detail::history_of(m, symbol);
    lemma_counts(m.closed, m.journal.logs, symbol);
    sorting::every_list_has_an_order(keys);
    lemma_events(m.closed, m.journal.logs, symbol, e);
    if 0 <= i < j < shown.len() {
        assert(sorting::before(keys, places[i], places[j]));
        lemma_not_later(times[places[i] as int], times[places[j] as int]);
    }
    let at = if trades.contains(e) {
        choose|k: int| 0 <= k < trades.len() && trades[k] == e
    } else {
        trades.len() + choose|k: int| 0 <= k < lines.len() && lines[k] == e
    };
    assert(all[at] == e);
    assert(places.contains(at as usize));
    let p = choose|p: int| 0 <= p < places.len() && places[p] == at as usize;
    assert(sorted[p] == e);
    if p < shown.len() {
        assert(shown[p] == e);
    } else if 0 <= i < 5 {
        assert(sorting::before(keys, places[i], places[p]));
        lemma_not_later(times[places[i] as int], times[at]);
    }
}

proof fn lemma_counts(closed: Seq<ClosedRow>, logs: Seq<LogLine>, symbol: Seq<char>)
    ensures
        detail::trade_events(closed, symbol).len() <= closed.len(),
        detail::log_events(logs, symbol).len() <= logs.len(),
    decreases closed.len() + logs.len(),
{
    if closed.len() > 0 {
        lemma_counts(closed.drop_last(), logs, symbol);
    } else if logs.len() > 0 {
        lemma_counts(closed, logs.drop_last(), symbol);
    }
}

/// There is a page of a symbol exactly when there is a book of it; it is of its moment and shows
/// that book: the best prices, their middle, and their distance in percent of the bid.
pub proof fn a_page_shows_its_book(m: MarketView, symbol: Seq<char>, now: Double)
    ensures
        match detail::detail_of(m, symbol, now) {
            None => !m.books.dom().contains(symbol),
            Some(page) => {
                let book = m.books[symbol];
                let two = Double::zero().lt(page.bid) && Double::zero().lt(page.ask);
                &&& m.books.dom().contains(symbol)
                &&& page.symbol == symbol
                &&& page.timestamp == now
                &&& page.book_updated_at == book.updated_at
                &&& (page.bid, page.ask) == models::best_prices(book)
                &&& two ==> page.mid == page.bid.add(page.ask).div(Double::whole(2))
                &&& two ==> page.spread_pct == page.ask.sub(page.bid).div(page.bid).mul(
                    Double::whole(100),
                )
                &&& !two ==> page.mid == Double::zero() && page.spread_pct == Double::zero()
                &&& page.bids == detail::shown_levels(book.bids, true)
                &&& page.asks == detail::shown_levels(book.asks, false)
                &&& page.walls == detail::walls_of(m, symbol, now)
                &&& page.history == detail::history_of(m, symbol)
            },
        },
{
}

/// A page shows what the radar says of its symbol: numbers as they are, and in place of what is
/// no finite number nothing for a change and an even half for a share.
pub proof fn a_page_shows_the_radar(m: MarketView, symbol: Seq<char>, now: Double)
    requires
        m.books.dom().contains(symbol),
        m.metrics.dom().contains(symbol),
    ensures
        ({
            let row = m.metrics[symbol];
            let page = (detail::detail_of(m, symbol, now)->0).brain;
            let half = Double::ratio(5, 10);
            &&& page.status == row.status
            &&& page.btc_trend == row.btc_trend
            &&& page.buy_accelerating == row.tape.buy_accelerating
            &&& page.sell_accelerating == row.tape.sell_accelerating
            &&& page.tape_accelerating <==> row.tape.buy_accelerating || row.tape.sell_accelerating
            &&& row.flow.finite() ==> page.flow == row.flow
            &&& !row.flow.finite() ==> page.flow == half
            &&& row.imbalance.finite() ==> page.imbalance == row.imbalance
            &&& !row.imbalance.finite() ==> page.imbalance == half
            &&& row.tape.buy_dominance.finite() ==> page.buy_dominance == row.tape.buy_dominance
            &&& row.tape.sell_dominance.finite() ==> page.sell_dominance == row.tape.sell_dominance
            &&& row.tape.buy_acceleration.finite() ==> page.buy_acceleration
                == row.tape.buy_acceleration
            &&& row.tape.sell_acceleration.finite() ==> page.sell_acceleration
                == row.tape.sell_acceleration
            &&& !row.tape.buy_acceleration.finite() ==> page.buy_acceleration == Double::zero()
            &&& row.btc_trend_pct.finite() ==> page.btc_trend_pct == row.btc_trend_pct
            &&& row.btc_trend_coverage.finite() ==> page.btc_trend_coverage
                == row.btc_trend_coverage
        }),
{
}

/// A heatmap may be asked for exactly when the name is of one to 24 letters and digits, the range
/// is one of eight, and there is a book of the symbol; the first of these that fails is what the
/// answer says.
pub proof fn a_heatmap_is_of_a_followed_symbol(
    name: Seq<char>,
    range: Seq<char>,
    books: Set<Seq<char>>,
)
    ensures
        ({
            let good = 1 <= name.len() <= 24 && forall|i: int|
                0 <= i < name.len() ==> ('0' <= #[trigger] name[i] <= '9') || ('a' <= name[i]
                    <= 'z') || ('A' <= name[i] <= 'Z');
            let known = range == "12h"@ || range == "24h"@ || range == "3d"@ || range == "7d"@
                || range == "30d"@ || range == "90d"@ || range == "180d"@ || range == "1y"@;
            match coinglass::named_query(name, range, books) {
                Ok(symbol) => good && known && books.contains(name) && symbol == name,
                Err(why) => {
                    &&& why.status == ApiStatus::NotFound ==> good && known && !books.contains(name)
                    &&& why.status == ApiStatus::BadRequest ==> !good || !known
                    &&& why.status == ApiStatus::NotFound || why.status == ApiStatus::BadRequest
                },
            }
        }),
{
    assert forall|i: int| 0 <= i < name.len() implies coinglass::alphanumeric(#[trigger] name[i])
        == (('0' <= name[i] <= '9') || ('a' <= name[i] <= 'z') || ('A' <= name[i] <= 'Z')) by {}
}

/// A cluster below the last price is of longs and one at or above it of shorts; its price is that
/// of its row, its amount its own.
pub proof fn a_cluster_is_of_the_side_it_would_close(point: Json, y_axis: Json, candles: Json)
    ensures
        match coinglass::cluster_in(point, y_axis, candles) {
            Some(c) => {
                let last = coinglass::last_close(candles);
                &&& json::unsigned_in(coinglass::item(point, 0)) == Some(c.x_index)
                &&& json::unsigned_in(coinglass::item(point, 1)) == Some(c.y_index)
                &&& coinglass::number_in(coinglass::item(point, 2)) == Some(c.amount)
                &&& coinglass::number_in(coinglass::item(y_axis, c.y_index as int)) == Some(c.price)
                &&& c.timestamp == json::unsigned_in(
                    coinglass::item(coinglass::item(candles, c.x_index as int), 0),
                )
                &&& c.side == Side::Long <==> Double::zero().lt(last) && c.price.lt(last)
            },
            None => {
                let y = json::unsigned_in(coinglass::item(point, 1));
                ||| json::unsigned_in(coinglass::item(point, 0)) is None
                ||| y is None
                ||| coinglass::number_in(coinglass::item(point, 2)) is None
                ||| coinglass::number_in(coinglass::item(y_axis, y->0 as int)) is None
            },
        },
{
}

/// The last price of a heatmap is the close of its last candle, the fifth of its numbers.
pub proof fn the_last_price_is_the_last_close(rows: Vec<Json>)
    requires
        rows@.len() > 0,
    ensures
        ({
            let close = coinglass::number_in(coinglass::item(rows@[rows@.len() - 1], 4));
            let last = coinglass::last_close(Json::List(rows));
            &&& close is Some ==> last == close->0
            &&& close is None ==> last == Double::zero()
        }),
{
}

/// What counts as a number is one that is finite, given as such or as a text.
pub proof fn only_finite_numbers_count(value: Json)
    ensures
        match coinglass::number_in(value) {
            Some(x) => x.finite() && (json::double_in(value) == Some(x) || (match value {
                Json::Text(s) => crate::reading::double_of(s@) == Some(x),
                _ => false,
            })),
            None => match value {
                Json::Text(s) => match crate::reading::double_of(s@) {
                    Some(x) => !x.finite(),
                    None => true,
                },
                _ => match json::double_in(value) {
                    Some(x) => !x.finite(),
                    None => true,
                },
            },
        },
{
}

/// Every point of a heatmap is looked at.
pub proof fn every_point_is_looked_at(points: Seq<Json>, point: Json, y_axis: Json, candles: Json)
    ensures
        coinglass::clusters_in(Seq::empty(), y_axis, candles).len() == 0,
        match coinglass::cluster_in(point, y_axis, candles) {
            Some(c) => coinglass::clusters_in(points.push(point), y_axis, candles)
                == coinglass::clusters_in(points, y_axis, candles).push(c),
            None => coinglass::clusters_in(points.push(point), y_axis, candles)
                == coinglass::clusters_in(points, y_axis, candles),
        },
{
    assert(points.push(point).drop_last() =~= points);
}

/// At most twelve clusters are shown, larger before smaller, and none that is left out is larger
/// than one that is shown.
pub proof fn the_largest_clusters_are_shown(data: Json, i: int, j: int, at: int)
    requires
        json::member_of(data, "liquidation_leverage_data"@) is List,
        ({
            let all = coinglass::clusters_in(
                json::items_in(json::member_of(data, "liquidation_leverage_data"@))->0,
                json::member_of(data, "y_axis"@),
                json::member_of(data, "price_candlesticks"@),
            );
            all.len() <= usize::MAX && 0 <= at < all.len()
        }),
    ensures
        ({
            let all = coinglass::clusters_in(
                json::items_in(json::member_of(data, "liquidation_leverage_data"@))->0,
                json::member_of(data, "y_axis"@),
                json::member_of(data, "price_candlesticks"@),
            );
            let shown = coinglass::largest_in(data);
            &&& shown.len() == if all.len() > 12 {
                12
            } else {
                all.len()
            }
            &&& 0 <= i < j < shown.len() ==> !shown[i].amount.lt(shown[j].amount)
            &&& shown.contains(all[at]) || (0 <= i < shown.len() ==> !shown[i].amount.lt(
                all[at].amount,
            ))
            &&& all.len() <= 12 ==> shown.contains(all[at])
        }),
{
    let all: Seq<Cluster> = coinglass::clusters_in(
        json::items_in(json::member_of(data, "liquidation_leverage_data"@))->0,
        json::member_of(data, "y_axis"@),
        json::member_of(data, "price_candlesticks"@),
    );
    let amounts = coinglass::amounts(all);
    let keys = sorting::falling_keys(amounts);
    let places = sorting::order(keys);
    let sorted = sorting::picked(all, places);
    let shown = coinglass::largest_in(data);
    sorting::every_list_has_an_order(keys);
    if 0 <= i < j < shown.len() {
        assert(sorting::before(keys, places[i], places[j]));
        lemma_not_later(amounts[places[i] as int], amounts[places[j] as int]);
    }
    assert(places.contains(at as usize));
    let p = choose|p: int| 0 <= p < places.len() && places[p] == at as usize;
    assert(sorted[p] == all[at]);
    if p < shown.len() {
        assert(shown[p] == all[at]);
    } else if 0 <= i < shown.len() {
        assert(sorting::before(keys, places[i], places[p]));
        lemma_not_later(amounts[places[i] as int], amounts[at]);
    }
}

/// An answer is taken exactly when it came through, does not carry a code other than `0`, and
/// holds all three lists of a heatmap.
pub proof fn an_answer_is_taken_whole(success: bool, payload: Json)
    ensures
        ({
            let data = json::member_of(payload, "data"@);
            let refused = !success || match json::member_of(payload, "code"@) {
                Json::Text(code) => code@ != "0"@,
                _ => false,
            };
            let whole = json::member_of(data, "y_axis"@) is List && json::member_of(
                data,
                "liquidation_leverage_data"@,
            ) is List && json::member_of(data, "price_candlesticks"@) is List;
            match coinglass::heatmap_in(success, payload) {
                Ok(found) => !refused && whole && found == data,
                Err(why) => (refused || !whole) && why.status == ApiStatus::BadGateway,
            }
        }),
{
}

/// A name is known exactly when it is not empty and there is a book of it.
pub proof fn a_known_name_has_a_book(m: MarketView, name: Seq<char>)
    ensures
        routes::known(m, name) == Some(name) <==> name.len() > 0 && m.books.dom().contains(name),
        routes::known(m, name) is None <==> name.len() == 0 || !m.books.dom().contains(name),
{
}

/// A symbol is asked for by its name alone or by a member of that name.
pub proof fn a_symbol_is_asked_for_by_name(payload: Json)
    ensures
        match payload {
            Json::Text(s) => routes::raw_symbol(payload) == Some(s@),
            _ => match json::member_of(payload, "symbol"@) {
                Json::Text(s) => routes::raw_symbol(payload) == Some(s@),
                _ => routes::raw_symbol(payload) is None,
            },
        },
{
}

/// Sides, statuses, trends, closings and timeframes are shown by their names; a symbol with a
/// position is shown by the name of its side.
pub proof fn everything_is_shown_by_its_name(side: Side)
    ensures
        Status::holding(side).name() == side.name(),
        Status::Cooldown.name() == "COOLDOWN"@,
        Status::Watch.name() == "WATCH"@,
        WallSide::Bid.name() == "bid"@,
        WallSide::Ask.name() == "ask"@,
        TrendDirection::Unknown.name() == "UNKNOWN"@,
        TrendDirection::Up.name() == "UP"@,
        TrendDirection::Down.name() == "DOWN"@,
        TrendDirection::Flat.name() == "FLAT"@,
        ExitReason::StructuralStop.name() == "STRUCTURAL STOP"@,
        ExitReason::Target.name() == "R-MULTIPLE TARGET"@,
        ExitReason::Breakeven.name() == "COST-PROTECTED BREAKEVEN"@,
        ExitReason::FlowInvalidation.name() == "CONFIRMED FLOW INVALIDATION"@,
        ExitReason::Trail.name() == "R-BASED TRAIL"@,
        Timeframe::S5.name() == "S5"@,
        Timeframe::M1.name() == "M1"@,
        Timeframe::M15.name() == "M15"@,
{
}

/// Phases are shown by what is waited for.
pub proof fn phases_are_shown_by_what_is_waited_for(phase: MtfPhase)
    ensures
        match phase {
            MtfPhase::WaitingContext => mtf_tracker::phase_label(phase) == "WAIT_M15_CONTEXT"@,
            MtfPhase::WaitingContextTouch { .. } => mtf_tracker::phase_label(phase)
                == "WAIT_M15_TOUCH"@,
            MtfPhase::WaitingM1 { .. } => mtf_tracker::phase_label(phase)
                == "WAIT_M1_CONFIRMATION"@,
            MtfPhase::WaitingS5Candidate { .. } => mtf_tracker::phase_label(phase)
                == "WAIT_S5_FVG"@,
            MtfPhase::WaitingS5Inversion { .. } => mtf_tracker::phase_label(phase)
                == "WAIT_S5_INVERSION"@,
            MtfPhase::WaitingS5Retest { .. } => mtf_tracker::phase_label(phase)
                == "WAIT_S5_RETEST"@,
            MtfPhase::Ready(_) => mtf_tracker::phase_label(phase) == "ENTRY_READY"@,
        },
{
}

/// The key of the heatmap service is the variable as it stands, where it is not blank.
pub proof fn a_blank_key_is_no_key(env: Map<Seq<char>, String>)
    ensures
        ({
            let name = "COINGLASS_API_KEY"@;
            let given = env.dom().contains(name) && text::stripped(env[name]@, Edge::Space).len()
                > 0;
            match coinglass::key_in(env) {
                Ok(key) => given && key == env[name]@,
                Err(why) => !given && why.status == ApiStatus::ServiceUnavailable,
            }
        }),
{
}

} // verus!

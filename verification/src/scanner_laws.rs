//! What a scan of the exchange selects and what histories bring.
use vstd::prelude::*;
use vstd::arithmetic::power2::{lemma_pow2_pos, pow2};
use crate::config::Settings;
use crate::double;
use crate::double::Double;
use crate::json;
use crate::json::Json;
use crate::mtf_fvg::{BarsView, Candle, Timeframe};
use crate::reading;
use crate::scanner;
use crate::scanner::RadarPlan;
use crate::sorting;
use crate::state::{InstrumentView, MarketView};

verus! {

/// The number in the text of a member, zero where there is none.
pub open spec fn number_at(row: Json, key: Seq<char>) -> Double {
    match json::member_of(row, key) {
        Json::Text(s) => if reading::double_of(s@) is Some {
            reading::double_of(s@)->0
        } else {
            Double::zero()
        },
        _ => Double::zero(),
    }
}

/// Whether a row is of a perpetual contract in USDT that trades.
pub open spec fn trades_in_usdt(row: Json) -> bool {
    match (
        json::member_of(row, "status"@),
        json::member_of(row, "quoteCoin"@),
        json::member_of(row, "contractType"@),
    ) {
        (Json::Text(a), Json::Text(b), Json::Text(c)) => a@ == "Trading"@ && b@ == "USDT"@ && c@
            == "LinearPerpetual"@,
        _ => false,
    }
}

/// A ticker comes into question exactly when its contract is listed as trading in USDT, its
/// price is no less than the least, its turnover above the least and its spread no wider than
/// allowed; what is read of it are its own figures.
pub proof fn a_candidate_is_listed_and_liquid(row: Json, info: Json, settings: Settings)
    ensures
        match scanner::candidate(row, info, settings) {
            Some(found) => {
                &&& json::text_in(json::member_of(row, "symbol"@)) == Some(found.symbol)
                &&& found.price == number_at(row, "lastPrice"@)
                &&& found.turnover24h == number_at(row, "turnover24h"@)
                &&& settings.min_price.le(found.price)
                &&& settings.min_turnover.lt(found.turnover24h)
                &&& found.spread_pct.le(settings.max_spread_pct)
                &&& exists|i: int|
                    0 <= i < scanner::rows_in(info).len() && trades_in_usdt(
                        #[trigger] scanner::rows_in(info)[i],
                    ) && json::text_in(json::member_of(scanner::rows_in(info)[i], "symbol"@))
                        == Some(found.symbol)
            },
            None => json::text_in(json::member_of(row, "symbol"@)) is Some ==> ({
                let symbol = json::text_in(json::member_of(row, "symbol"@))->0;
                let found = scanner::instrument_in(row, symbol);
                ||| !settings.min_price.le(found.price)
                ||| !settings.min_turnover.lt(found.turnover24h)
                ||| !found.spread_pct.le(settings.max_spread_pct)
                ||| forall|i: int|
                    0 <= i < scanner::rows_in(info).len() ==> !(trades_in_usdt(
                        #[trigger] scanner::rows_in(info)[i],
                    ) && json::text_in(json::member_of(scanner::rows_in(info)[i], "symbol"@))
                        == Some(symbol))
            }),
        },
{
    let rows = scanner::rows_in(info);
    assert forall|i: int| 0 <= i < rows.len() implies scanner::tradable(#[trigger] rows[i])
        == trades_in_usdt(rows[i]) by {}
    match json::text_in(json::member_of(row, "symbol"@)) {
        Some(symbol) => {
            if scanner::listed(rows, symbol) {
                let i = choose|i: int|
                    0 <= i < rows.len() && scanner::tradable(#[trigger] rows[i]) && json::text_in(
                        json::member_of(rows[i], "symbol"@),
                    ) == Some(symbol);
                assert(trades_in_usdt(rows[i]));
            }
        },
        None => {},
    }
}

/// The spread of a ticker is that between its best ask and bid, in percent of the bid, and 999
/// where one of them is missing.
pub proof fn a_spread_is_between_the_best_prices(row: Json, symbol: Seq<char>)
    ensures
        ({
            let bid = number_at(row, "bid1Price"@);
            let ask = number_at(row, "ask1Price"@);
            let found = scanner::instrument_in(row, symbol);
            &&& found.symbol == symbol
            &&& Double::zero().lt(bid) && Double::zero().lt(ask) ==> found.spread_pct == ask.sub(
                bid,
            ).div(bid).mul(Double::whole(100))
            &&& !Double::zero().lt(bid) || !Double::zero().lt(ask) ==> found.spread_pct
                == Double::whole(999)
        }),
{
}

/// Every ticker is looked at, in order.
pub proof fn every_ticker_is_looked_at(rows: Seq<Json>, row: Json, info: Json, settings: Settings)
    ensures
        scanner::candidates(Seq::empty(), info, settings).len() == 0,
        match scanner::candidate(row, info, settings) {
            Some(found) => scanner::candidates(rows.push(row), info, settings)
                == scanner::candidates(rows, info, settings).push(found),
            None => scanner::candidates(rows.push(row), info, settings) == scanner::candidates(
                rows,
                info,
                settings,
            ),
        },
{
    assert(rows.push(row).drop_last() =~= rows);
}

proof fn lemma_not_larger(a: Double, b: Double)
    requires
        double::rank(b) <= double::rank(a),
    ensures
        !a.lt(b),
{
}

/// The contracts with the largest turnover are kept, larger before smaller, each of them one of
/// the list; one that is left out has no larger turnover than any that is kept, and none is left
/// out while there is room.
pub proof fn the_largest_turnover_is_kept(
    list: Seq<InstrumentView>,
    most: nat,
    i: int,
    j: int,
    at: int,
)
    requires
        list.len() <= usize::MAX,
    ensures
        ({
            let kept = scanner::largest(list, most);
            &&& kept.len() == if list.len() > most {
                most
            } else {
                list.len()
            }
            &&& 0 <= i < kept.len() ==> list.contains(kept[i])
            &&& 0 <= i < j < kept.len() ==> !kept[i].turnover24h.lt(kept[j].turnover24h)
            &&& 0 <= at < list.len() && 0 <= i < kept.len() ==> kept.contains(list[at])
                || !kept[i].turnover24h.lt(list[at].turnover24h)
            &&& 0 <= at < list.len() && list.len() <= most ==> kept.contains(list[at])
        }),
{
    let amounts = scanner::turnovers(list);
    let keys = sorting::falling_keys(amounts);
    let places = sorting::order(keys);
    let sorted = sorting::picked(list, places);
    let kept = scanner::largest(list, most);
    sorting::every_list_has_an_order(keys);
    if 0 <= i < kept.len() {
        assert(kept[i] == list[places[i] as int]);
    }
    if 0 <= i < j < kept.len() {
        assert(sorting::before(keys, places[i], places[j]));
        lemma_not_larger(amounts[places[i] as int], amounts[places[j] as int]);
    }
    if 0 <= at < list.len() {
        assert(places.contains(at as usize));
        let p = choose|p: int| 0 <= p < places.len() && places[p] == at as usize;
        assert(sorted[p] == list[at]);
        if p < kept.len() {
            assert(kept[p] == list[at]);
        } else if 0 <= i < kept.len() {
            assert(sorting::before(keys, places[i], places[p]));
            lemma_not_larger(amounts[places[i] as int], amounts[at]);
        }
    }
}

/// BTC is followed whenever there is a ticker of it, behind the others where it is not among the
/// largest; apart from that the selection is the largest candidates.
pub proof fn btc_is_always_followed(info: Json, tickers: Json, settings: Settings, at: int)
    requires
        0 <= at < scanner::rows_in(tickers).len(),
        json::text_in(json::member_of(scanner::rows_in(tickers)[at], "symbol"@)) == Some(
            "BTCUSDT"@,
        ),
    ensures
        ({
            let best = scanner::largest(
                scanner::candidates(scanner::rows_in(tickers), info, settings),
                settings.max_symbols as nat,
            );
            let chosen = scanner::selection(info, tickers, settings);
            &&& exists|k: int|
                0 <= k < chosen.len() && (#[trigger] chosen[k]).symbol == "BTCUSDT"@
            &&& chosen == best || chosen.drop_last() == best
        }),
{
    lemma_ticker(scanner::rows_in(tickers), at);
    let best = scanner::largest(
        scanner::candidates(scanner::rows_in(tickers), info, settings),
        settings.max_symbols as nat,
    );
    let chosen = scanner::selection(info, tickers, settings);
    if !scanner::has_btc(best) {
        assert(chosen[best.len() as int].symbol == "BTCUSDT"@);
        assert(chosen.drop_last() =~= best);
    }
}

proof fn lemma_ticker(rows: Seq<Json>, at: int)
    requires
        0 <= at < rows.len(),
        json::text_in(json::member_of(rows[at], "symbol"@)) == Some("BTCUSDT"@),
    ensures
        scanner::btc_ticker(rows) is Some,
    decreases rows.len(),
{
    if json::text_in(json::member_of(rows[0], "symbol"@)) != Some("BTCUSDT"@) {
        lemma_ticker(rows.drop_first(), at - 1);
    }
}

/// An answer is good exactly when its code is zero, and else says what went wrong.
pub proof fn an_answer_is_good_with_code_zero(payload: Json)
    ensures
        match scanner::answer_in(payload) {
            Ok(result) => json::signed_in(json::member_of(payload, "retCode"@)) == Some(0i64)
                && result == json::member_of(payload, "result"@),
            Err(why) => json::signed_in(json::member_of(payload, "retCode"@)) != Some(0i64) && (
            match json::member_of(payload, "retMsg"@) {
                Json::Text(s) => why == s@,
                _ => why == "Bybit error"@,
            }),
        },
{
}

/// The second of a moment in thousandths is the whole one before it, toward zero.
pub proof fn a_second_holds_a_thousand(milliseconds: i64)
    ensures
        ({
            let s = scanner::second_of(milliseconds);
            &&& milliseconds >= 0 ==> 1000 * s <= milliseconds < 1000 * s + 1000
            &&& milliseconds < 0 ==> 1000 * s - 1000 < milliseconds <= 1000 * s
        }),
{
}

/// A row is a candle exactly when it holds at least six numbers: its start in thousandths of a
/// second, and open, high, low, close and volume in this order.
pub proof fn a_candle_is_six_numbers(row: Json, timeframe: Timeframe)
    ensures
        match scanner::candle_in(row, timeframe) {
            Some(candle) => match row {
                Json::List(v) => {
                    &&& v@.len() >= 6
                    &&& scanner::numeral(v@[0]) is Some
                    &&& candle.started_at == scanner::second_of(
                        scanner::whole_part(scanner::numeral(v@[0])->0),
                    )
                    &&& scanner::numeral(v@[1]) == Some(candle.open)
                    &&& scanner::numeral(v@[2]) == Some(candle.high)
                    &&& scanner::numeral(v@[3]) == Some(candle.low)
                    &&& scanner::numeral(v@[4]) == Some(candle.close)
                    &&& scanner::numeral(v@[5]) == Some(candle.volume)
                    &&& candle.timeframe == timeframe
                },
                _ => false,
            },
            None => match row {
                Json::List(v) => v@.len() < 6 || exists|k: int|
                    0 <= k < 6 && scanner::numeral(#[trigger] v@[k]) is None,
                _ => true,
            },
        },
{
    match row {
        Json::List(v) => {
            if v@.len() >= 6 && scanner::candle_in(row, timeframe) is None {
                assert(scanner::numeral(v@[0]) is None || scanner::numeral(v@[1]) is None
                    || scanner::numeral(v@[2]) is None || scanner::numeral(v@[3]) is None
                    || scanner::numeral(v@[4]) is None || scanner::numeral(v@[5]) is None);
            }
        },
        _ => {},
    }
}

/// A history holds every candle of its rows, oldest first.
pub proof fn a_history_is_oldest_first(result: Json, timeframe: Timeframe, i: int, j: int)
    requires
        scanner::candles_in(scanner::rows_in(result), timeframe).len() <= usize::MAX,
    ensures
        ({
            let found = scanner::candles_in(scanner::rows_in(result), timeframe);
            let history = scanner::history_in(result, timeframe);
            &&& history.len() == found.len()
            &&& 0 <= i < found.len() ==> history.contains(found[i])
            &&& 0 <= i < j < history.len() ==> history[i].started_at <= history[j].started_at
        }),
{
    let found = scanner::candles_in(scanner::rows_in(result), timeframe);
    let keys = scanner::start_keys(found);
    let places = sorting::order(keys);
    let history = scanner::history_in(result, timeframe);
    sorting::every_list_has_an_order(keys);
    if 0 <= i < found.len() {
        assert(places.contains(i as usize));
        let p = choose|p: int| 0 <= p < places.len() && places[p] == i as usize;
        assert(history[p] == found[i]);
    }
    if 0 <= i < j < history.len() {
        assert(sorting::before(keys, places[i], places[j]));
    }
}

/// Every row of a history is read.
pub proof fn every_candle_is_read(rows: Seq<Json>, row: Json, timeframe: Timeframe)
    ensures
        scanner::candles_in(Seq::empty(), timeframe).len() == 0,
        match scanner::candle_in(row, timeframe) {
            Some(candle) => scanner::candles_in(rows.push(row), timeframe) == scanner::candles_in(
                rows,
                timeframe,
            ).push(candle),
            None => scanner::candles_in(rows.push(row), timeframe) == scanner::candles_in(
                rows,
                timeframe,
            ),
        },
{
    assert(rows.push(row).drop_last() =~= rows);
}

/// A history goes to the candles of its own symbol, which are then good from any moment on.
pub proof fn a_history_goes_to_its_symbol(
    m: MarketView,
    symbol: Seq<char>,
    m15: Seq<Candle>,
    m1: Seq<Candle>,
    other: Seq<char>,
)
    requires
        other != symbol,
    ensures
        ({
            let after = scanner::with_history(m, symbol, m15, m1);
            let before = if m.mtf_bars.dom().contains(symbol) {
                m.mtf_bars[symbol]
            } else {
                BarsView::empty()
            };
            let seeded = before.seeded(Timeframe::M15, m15).seeded(Timeframe::M1, m1);
            &&& after.mtf_bars.dom().contains(symbol)
            &&& after.mtf_bars[symbol].m15 == seeded.m15
            &&& after.mtf_bars[symbol].m1 == seeded.m1
            &&& after.mtf_bars[symbol].s5 == seeded.s5
            &&& after.mtf_bars[symbol].valid_from is None
            &&& after.mtf_bars.dom().contains(other) <==> m.mtf_bars.dom().contains(other)
            &&& m.mtf_bars.dom().contains(other) ==> after.mtf_bars[other] == m.mtf_bars[other]
            &&& after.books == m.books
            &&& after.trades == m.trades
        }),
{
}

/// A scan that found contracts replaces the radar and is followed symbol by symbol; one that
/// found none or failed leaves the radar and its moment as they were, and falls back to the demo
/// symbols where that is wanted.
pub proof fn a_scan_is_followed_where_it_found_something(
    m: MarketView,
    settings: Settings,
    scan: Result<Seq<InstrumentView>, Seq<char>>,
    clock: Double,
)
    ensures
        ({
            let after = scanner::scanned(m, scan, clock);
            let plan = scanner::planned(scan, settings);
            let failed = match scan {
                Ok(found) => found.len() == 0,
                Err(_) => true,
            };
            &&& failed ==> after.radar == m.radar && after.last_scan == m.last_scan
            &&& failed && settings.demo_fallback ==> plan == RadarPlan::Demo(
                sorting::texts(settings.demo_symbols@),
            )
            &&& failed && !settings.demo_fallback ==> plan == RadarPlan::Wait
            &&& !failed ==> {
                &&& after.radar == scan->Ok_0
                &&& after.last_scan == clock
                &&& match plan {
                    RadarPlan::Follow(symbols) => symbols.len() == (scan->Ok_0).len() && forall|
                        i: int,
                    |
                        0 <= i < symbols.len() ==> #[trigger] symbols[i] == (scan->Ok_0)[i].symbol,
                    _ => false,
                }
            }
            &&& after.books == m.books
            &&& after.positions == m.positions
            &&& after.session == m.session
        }),
{
}

/// The whole part of a number is the whole number next to it toward zero.
pub proof fn a_whole_part_lies_toward_zero(x: Double)
    requires
        x.finite(),
        i64::MIN < scanner::whole_part(x) < i64::MAX,
    ensures
        ({
            let unit = pow2(double::UNIT as nat) as int;
            let whole = scanner::whole_part(x) as int;
            &&& !x.negative() ==> 0 <= whole * unit <= x.value() < (whole + 1) * unit
            &&& x.negative() ==> (whole - 1) * unit < x.value() <= whole * unit <= 0
        }),
{
    let unit = pow2(double::UNIT as nat) as int;
    lemma_pow2_pos(double::UNIT as nat);
    let m = x.units() as int;
    let q = m / unit;
    vstd::arithmetic::div_mod::lemma_fundamental_div_mod(m, unit);
    vstd::arithmetic::div_mod::lemma_mod_bound(m, unit);
    assert(q >= 0) by {
        vstd::arithmetic::div_mod::lemma_div_pos_is_pos(m, unit);
    }
    assert(q * unit == unit * q) by (nonlinear_arith);
    assert((q + 1) * unit == unit * q + unit) by (nonlinear_arith);
    assert(-q * unit == -(unit * q)) by (nonlinear_arith);
    assert((-q - 1) * unit == -(unit * q) - unit) by (nonlinear_arith);
    assert(unit * q >= 0) by (nonlinear_arith)
        requires
            unit > 0,
            q >= 0,
    ;
    if x.negative() {
        assert(scanner::whole_part(x) == -q);
    } else {
        assert(scanner::whole_part(x) == q);
    }
}

/// Histories are asked for in minutes, and there are none of candles shorter than one.
pub proof fn histories_are_asked_for_in_minutes(timeframe: Timeframe)
    ensures
        match scanner::interval_name(timeframe) {
            Some(name) => timeframe.seconds() % 60 == 0 && name == crate::text::digits(
                (timeframe.seconds() / 60) as nat,
            ),
            None => timeframe.seconds() < 60,
        },
{
    reveal_strlit("1");
    reveal_strlit("15");
    reveal_with_fuel(crate::text::digits, 3);
    assert("1"@ =~= crate::text::digits(1));
    assert("15"@ =~= crate::text::digits(15));
}

} // verus!

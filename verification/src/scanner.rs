//! What the exchange's market lists say: which contracts to follow, and their history.
use vstd::prelude::*;
use vstd::arithmetic::power2::*;
use vstd::arithmetic::div_mod::*;
use crate::brain;
use crate::config::Settings;
use crate::double;
use crate::double::{Double, UNIT};
use crate::journal;
use crate::json;
use crate::json::Json;
use crate::models::Instrument;
use crate::mtf_fvg::{BarsView, Candle, MtfBars, Timeframe};
use crate::number_laws;
use crate::reading;
use crate::rounding;
use crate::rounding::P52;
use crate::sorting;
use crate::state;
use crate::state::{InstrumentView, MarketState, MarketView};
use crate::table;
use crate::text;

verus! {

/// A number without what stands behind its point, clamped to the range of `i64`; 0 for NaN.
pub open spec fn whole_part(x: Double) -> i64 {
    let un = pow2(UNIT as nat);
    if x.nan() {
        0
    } else if x.infinite() {
        if x.negative() {
            i64::MIN
        } else {
            i64::MAX
        }
    } else if x.negative() {
        double::clamp64(-((x.units() / un) as int))
    } else {
        double::clamp64((x.units() / un) as int)
    }
}

proof fn lemma_below_range(x: Double)
    requires
        x.finite(),
        x.negative(),
    ensures
        x.le(Double { bits: 0xc3e0_0000_0000_0000 }) <==> x.units() / pow2(UNIT as nat)
            >= 0x8000_0000_0000_0000,
{
    let un = pow2(UNIT as nat);
    let b = Double { bits: 0xc3e0_0000_0000_0000 };
    assert(b.units() == P52 * pow2(1085));
    rounding::lemma_p53();
    rounding::lemma_pow2_split(52, 1085);
    lemma2_to64_rest();
    rounding::lemma_pow2_split(63, 1074);
    assert(b.units() == 0x8000_0000_0000_0000 * un);
    number_laws::order_is_numeric(x, b);
    let n = x.units() as int;
    let d = un as int;
    if n >= 0x8000_0000_0000_0000 * d {
        lemma_div_is_ordered(0x8000_0000_0000_0000 * d, n, d);
        lemma_div_multiples_vanish(0x8000_0000_0000_0000, d);
        assert(d * 0x8000_0000_0000_0000 == 0x8000_0000_0000_0000 * d);
    } else {
        lemma_fundamental_div_mod(n, d);
        lemma_mod_bound(n, d);
        assert(n / d < 0x8000_0000_0000_0000) by (nonlinear_arith)
            requires
                n < 0x8000_0000_0000_0000 * d,
                n == d * (n / d) + n % d,
                0 <= n % d,
                d > 0,
        ;
    }
}

/// Cuts off what stands behind the point of a number.
pub fn find_whole_part(x: Double) -> (r: i64)
    ensures
        r == whole_part(x),
{
    proof {
        lemma_pow2_pos(UNIT as nat);
    }
    if x.is_negative() && x.is_finite() {
        let low = x.le(Double { bits: 0xc3e0_0000_0000_0000 });
        proof {
            lemma_below_range(x);
        }
        if low {
            return -0x7fff_ffff_ffff_ffff - 1;
        }
        assert(x.neg().units() == x.units());
        let q = x.neg().floor();
        assert(q == x.units() / pow2(UNIT as nat));
        return -q;
    }
    x.floor()
}

/// What an answer of the exchange holds, or what it says went wrong.
pub open spec fn answer_in(payload: Json) -> Result<Json, Seq<char>> {
    if json::signed_in(json::member_of(payload, "retCode"@)) == Some(0i64) {
        Ok(json::member_of(payload, "result"@))
    } else {
        Err(
            match json::text_in(json::member_of(payload, "retMsg"@)) {
                Some(message) => message,
                None => "Bybit error"@,
            },
        )
    }
}

/// Takes the result out of an answer of the exchange.
pub fn answer(payload: Json) -> (r: Result<Json, String>)
    ensures
        match r {
            Ok(result) => answer_in(payload) == Ok::<Json, Seq<char>>(result),
            Err(why) => answer_in(payload) == Err::<Json, Seq<char>>(why@),
        },
{
    let code = match payload.get("retCode") {
        Some(code) => code.as_signed(),
        None => None,
    };
    let fine = match code {
        Some(n) => n == 0,
        None => false,
    };
    if !fine {
        return match payload.text_at("retMsg") {
            Some(message) => Err(message.to_owned()),
            None => Err("Bybit error".to_owned()),
        };
    }
    match payload {
        Json::Object(mut members) => match members.remove("result") {
            Some(result) => Ok(result),
            None => Ok(Json::Null),
        },
        _ => Ok(Json::Null),
    }
}

/// A contract that can be followed: a perpetual in USDT that trades.
pub open spec fn tradable(row: Json) -> bool {
    &&& json::text_in(json::member_of(row, "status"@)) == Some("Trading"@)
    &&& json::text_in(json::member_of(row, "quoteCoin"@)) == Some("USDT"@)
    &&& json::text_in(json::member_of(row, "contractType"@)) == Some("LinearPerpetual"@)
}

fn has_text(row: &Json, key: &str, value: &str) -> (r: bool)
    ensures
        r == (json::text_in(json::member_of(*row, key@)) == Some(value@)),
{
    match row.text_at(key) {
        Some(s) => text::text_eq(s, value),
        None => false,
    }
}

fn is_tradable(row: &Json) -> (r: bool)
    ensures
        r == tradable(*row),
{
    has_text(row, "status", "Trading") && has_text(row, "quoteCoin", "USDT") && has_text(
        row,
        "contractType",
        "LinearPerpetual",
    )
}

/// The rows under `list`, none where there is no such list.
pub open spec fn rows_in(value: Json) -> Seq<Json> {
    match json::items_in(json::member_of(value, "list"@)) {
        Some(rows) => rows,
        None => Seq::empty(),
    }
}

/// A symbol is among the contracts that can be followed.
pub open spec fn listed(rows: Seq<Json>, symbol: Seq<char>) -> bool {
    exists|i: int|
        0 <= i < rows.len() && tradable(#[trigger] rows[i]) && json::text_in(
            json::member_of(rows[i], "symbol"@),
        ) == Some(symbol)
}

fn is_listed(info: &Json, symbol: &str) -> (r: bool)
    ensures
        r == listed(rows_in(*info), symbol@),
{
    let rows = match info.list_at("list") {
        Some(rows) => rows,
        None => {
            return false;
        },
    };
    let mut i: usize = 0;
    while i < rows.len()
        invariant
            i <= rows@.len(),
            rows@ == rows_in(*info),
            forall|j: int|
                0 <= j < i ==> !(tradable(#[trigger] rows@[j]) && json::text_in(
                    json::member_of(rows@[j], "symbol"@),
                ) == Some(symbol@)),
        decreases rows@.len() - i,
    {
        let row = &rows[i];
        if is_tradable(row) && has_text(row, "symbol", symbol) {
            assert(tradable(rows@[i as int]));
            return true;
        }
        i = i + 1;
    }
    false
}

/// The number that a text holds, zero where there is none.
pub open spec fn amount(value: Json) -> Double {
    match json::text_in(value) {
        Some(s) => match reading::double_of(s) {
            Some(x) => x,
            None => Double::zero(),
        },
        None => Double::zero(),
    }
}

/// The number that the text of a member holds, zero where there is none.
pub fn amount_at(row: &Json, key: &str) -> (r: Double)
    ensures
        r == amount(json::member_of(*row, key@)),
{
    match row.text_at(key) {
        Some(s) => match reading::parse_double(s) {
            Some(x) => x,
            None => Double::zero(),
        },
        None => Double::zero(),
    }
}

/// What a ticker says of its contract.
pub open spec fn instrument_in(row: Json, symbol: Seq<char>) -> InstrumentView {
    InstrumentView {
        symbol,
        price: amount(json::member_of(row, "lastPrice"@)),
        turnover24h: amount(json::member_of(row, "turnover24h"@)),
        spread_pct: brain::spread_or(
            amount(json::member_of(row, "bid1Price"@)),
            amount(json::member_of(row, "ask1Price"@)),
            Double::whole(999),
        ),
    }
}

fn read_instrument(row: &Json, symbol: &str) -> (r: Instrument)
    ensures
        r@ == instrument_in(*row, symbol@),
{
    let bid = amount_at(row, "bid1Price");
    let ask = amount_at(row, "ask1Price");
    Instrument {
        symbol: symbol.to_owned(),
        price: amount_at(row, "lastPrice"),
        turnover24h: amount_at(row, "turnover24h"),
        spread_pct: brain::spread_pct(bid, ask, Double::whole(999)),
    }
}

/// A contract that is liquid enough to follow.
pub open spec fn spec_eligible(
    price: Double,
    turnover: Double,
    spread: Double,
    settings: Settings,
) -> bool {
    price.ge(settings.min_price) && turnover.gt(settings.min_turnover) && spread.le(
        settings.max_spread_pct,
    )
}

/// Whether a contract is liquid enough to follow.
pub fn eligible(price: Double, turnover: Double, spread: Double, settings: &Settings) -> (r: bool)
    ensures
        r == spec_eligible(price, turnover, spread, *settings),
{
    price.ge(settings.min_price) && turnover.gt(settings.min_turnover) && spread.le(
        settings.max_spread_pct,
    )
}

/// The contract of a ticker, if it can be followed and is liquid enough.
pub open spec fn candidate(row: Json, info: Json, settings: Settings) -> Option<InstrumentView> {
    match json::text_in(json::member_of(row, "symbol"@)) {
        Some(symbol) => {
            let found = instrument_in(row, symbol);
            if listed(rows_in(info), symbol) && spec_eligible(
                found.price,
                found.turnover24h,
                found.spread_pct,
                settings,
            ) {
                Some(found)
            } else {
                None
            }
        },
        None => None,
    }
}

/// The contracts of tickers that can be followed and are liquid enough, in their order.
pub open spec fn candidates(rows: Seq<Json>, info: Json, settings: Settings) -> Seq<InstrumentView>
    decreases rows.len(),
{
    if rows.len() == 0 {
        Seq::empty()
    } else {
        let before = candidates(rows.drop_last(), info, settings);
        match candidate(rows.last(), info, settings) {
            Some(found) => before.push(found),
            None => before,
        }
    }
}

fn find_candidates(rows: &Vec<Json>, info: &Json, settings: &Settings) -> (r: Vec<Instrument>)
    ensures
        state::instrument_rows(r@) == candidates(rows@, *info, *settings),
{
    let mut r: Vec<Instrument> = Vec::new();
    let mut i: usize = 0;
    assert(state::instrument_rows(r@) =~= candidates(rows@.take(0), *info, *settings));
    while i < rows.len()
        invariant
            i <= rows@.len(),
            state::instrument_rows(r@) == candidates(rows@.take(i as int), *info, *settings),
        decreases rows@.len() - i,
    {
        let row = &rows[i];
        let ghost before = state::instrument_rows(r@);
        assert(rows@.take(i + 1).drop_last() =~= rows@.take(i as int));
        match row.text_at("symbol") {
            Some(symbol) => if is_listed(info, symbol) {
                let found = read_instrument(row, symbol);
                if eligible(found.price, found.turnover24h, found.spread_pct, settings) {
                    let ghost added = found@;
                    r.push(found);
                    assert(state::instrument_rows(r@) =~= before.push(added));
                }
            },
            None => {},
        }
        i = i + 1;
    }
    assert(rows@.take(i as int) =~= rows@);
    r
}

/// The turnovers of some contracts.
pub open spec fn turnovers(list: Seq<InstrumentView>) -> Seq<Double> {
    list.map_values(|i: InstrumentView| i.turnover24h)
}

/// The contracts with the largest turnover, largest first, at most so many.
pub open spec fn largest(list: Seq<InstrumentView>, most: nat) -> Seq<InstrumentView> {
    let sorted = sorting::picked(list, sorting::order(sorting::falling_keys(turnovers(list))));
    if sorted.len() > most {
        sorted.take(most as int)
    } else {
        sorted
    }
}

fn pick_largest(list: &Vec<Instrument>, most: usize) -> (r: Vec<Instrument>)
    ensures
        state::instrument_rows(r@) == largest(state::instrument_rows(list@), most as nat),
{
    let ghost all = state::instrument_rows(list@);
    let mut amounts: Vec<Double> = Vec::new();
    let mut i: usize = 0;
    while i < list.len()
        invariant
            i <= list@.len(),
            all == state::instrument_rows(list@),
            amounts@ == turnovers(all).take(i as int),
        decreases list@.len() - i,
    {
        amounts.push(list[i].turnover24h);
        assert(turnovers(all).take(i + 1) =~= turnovers(all).take(i as int).push(
            turnovers(all)[i as int],
        ));
        i = i + 1;
    }
    assert(turnovers(all).take(i as int) =~= turnovers(all));
    let places = sorting::falling_order(&amounts);
    let n = if places.len() > most {
        most
    } else {
        places.len()
    };
    let ghost expected = largest(all, most as nat);
    let mut r: Vec<Instrument> = Vec::new();
    let mut k: usize = 0;
    assert(state::instrument_rows(r@) =~= expected.take(0));
    while k < n
        invariant
            k <= n <= places@.len(),
            n == expected.len(),
            all == state::instrument_rows(list@),
            expected == largest(all, most as nat),
            places@ == sorting::order(sorting::falling_keys(turnovers(all))),
            forall|x: int| 0 <= x < places@.len() ==> #[trigger] places@[x] < list@.len(),
            state::instrument_rows(r@) == expected.take(k as int),
        decreases n - k,
    {
        let at = places[k];
        let item = &list[at];
        let ghost before = state::instrument_rows(r@);
        r.push(
            Instrument {
                symbol: item.symbol.clone(),
                price: item.price,
                turnover24h: item.turnover24h,
                spread_pct: item.spread_pct,
            },
        );
        proof {
            assert(all[at as int] == item@);
            assert(state::instrument_rows(r@) =~= before.push(expected[k as int]));
            assert(expected.take(k + 1) =~= expected.take(k as int).push(expected[k as int]));
        }
        k = k + 1;
    }
    assert(expected.take(k as int) =~= expected);
    r
}

/// BTC is among some contracts.
pub open spec fn has_btc(list: Seq<InstrumentView>) -> bool {
    exists|i: int| 0 <= i < list.len() && (#[trigger] list[i]).symbol == "BTCUSDT"@
}

fn holds_btc(list: &Vec<Instrument>) -> (r: bool)
    ensures
        r == has_btc(state::instrument_rows(list@)),
{
    let ghost all = state::instrument_rows(list@);
    let mut i: usize = 0;
    while i < list.len()
        invariant
            i <= list@.len(),
            all == state::instrument_rows(list@),
            forall|j: int| 0 <= j < i ==> (#[trigger] all[j]).symbol != "BTCUSDT"@,
        decreases list@.len() - i,
    {
        assert(all[i as int] == list@[i as int]@);
        if text::text_eq(list[i].symbol.as_str(), "BTCUSDT") {
            return true;
        }
        i = i + 1;
    }
    false
}

/// The first ticker of BTC.
pub open spec fn btc_ticker(rows: Seq<Json>) -> Option<Json>
    decreases rows.len(),
{
    if rows.len() == 0 {
        None
    } else if json::text_in(json::member_of(rows[0], "symbol"@)) == Some("BTCUSDT"@) {
        Some(rows[0])
    } else {
        btc_ticker(rows.drop_first())
    }
}

fn find_btc_ticker(rows: &Vec<Json>) -> (r: Option<&Json>)
    ensures
        match r {
            Some(row) => btc_ticker(rows@) == Some(*row),
            None => btc_ticker(rows@) is None,
        },
{
    let mut i: usize = 0;
    assert(rows@.skip(0) =~= rows@);
    while i < rows.len()
        invariant
            i <= rows@.len(),
            btc_ticker(rows@) == btc_ticker(rows@.skip(i as int)),
        decreases rows@.len() - i,
    {
        assert(rows@.skip(i as int)[0] == rows@[i as int]);
        assert(rows@.skip(i as int).drop_first() =~= rows@.skip(i + 1));
        if has_text(&rows[i], "symbol", "BTCUSDT") {
            return Some(&rows[i]);
        }
        i = i + 1;
    }
    None
}

/// The contracts to follow: the liquid ones with the largest turnover, and BTC, whose trend
/// every other symbol depends on, wherever the exchange quotes it.
pub open spec fn selection(info: Json, tickers: Json, settings: Settings) -> Seq<InstrumentView> {
    let rows = rows_in(tickers);
    let best = largest(candidates(rows, info, settings), settings.max_symbols as nat);
    if has_btc(best) {
        best
    } else {
        match btc_ticker(rows) {
            Some(row) => best.push(instrument_in(row, "BTCUSDT"@)),
            None => best,
        }
    }
}

/// Selects the contracts to follow from the exchange's list of contracts and its tickers.
pub fn select_instruments(info: &Json, tickers: &Json, settings: &Settings) -> (r: Vec<Instrument>)
    ensures
        state::instrument_rows(r@) == selection(*info, *tickers, *settings),
{
    match tickers.list_at("list") {
        Some(rows) => {
            let found = find_candidates(rows, info, settings);
            let mut best = pick_largest(&found, settings.max_symbols);
            if !holds_btc(&best) {
                match find_btc_ticker(rows) {
                    Some(row) => {
                        let ghost before = state::instrument_rows(best@);
                        let btc = read_instrument(row, "BTCUSDT");
                        let ghost added = btc@;
                        best.push(btc);
                        assert(state::instrument_rows(best@) =~= before.push(added));
                    },
                    None => {},
                }
            }
            best
        },
        None => {
            let found: Vec<Instrument> = Vec::new();
            assert(state::instrument_rows(found@) =~= candidates(
                rows_in(*tickers),
                *info,
                *settings,
            ));
            let best = pick_largest(&found, settings.max_symbols);
            best
        },
    }
}

proof fn lemma_candidates_are_eligible(rows: Seq<Json>, info: Json, settings: Settings)
    ensures
        candidates(rows, info, settings).len() <= rows.len(),
        forall|i: int|
            0 <= i < candidates(rows, info, settings).len() ==> is_fit(
                #[trigger] candidates(rows, info, settings)[i],
                info,
                settings,
            ),
    decreases rows.len(),
{
    if rows.len() > 0 {
        lemma_candidates_are_eligible(rows.drop_last(), info, settings);
    }
}

/// A contract that the exchange trades and that is liquid enough.
pub open spec fn is_fit(found: InstrumentView, info: Json, settings: Settings) -> bool {
    listed(rows_in(info), found.symbol) && spec_eligible(
        found.price,
        found.turnover24h,
        found.spread_pct,
        settings,
    )
}

/// Every contract that is followed, but for BTC, trades and is liquid enough; there are no
/// more than allowed, with one more for BTC; and BTC is followed wherever it is quoted.
pub proof fn selection_is_liquid(info: Json, tickers: Json, settings: Settings)
    requires
        rows_in(tickers).len() <= usize::MAX,
    ensures
        selection(info, tickers, settings).len() <= settings.max_symbols + 1,
        btc_ticker(rows_in(tickers)) is Some ==> has_btc(selection(info, tickers, settings)),
        forall|i: int|
            0 <= i < selection(info, tickers, settings).len() && (#[trigger] selection(
                info,
                tickers,
                settings,
            )[i]).symbol != "BTCUSDT"@ ==> is_fit(
                selection(info, tickers, settings)[i],
                info,
                settings,
            ),
{
    let rows = rows_in(tickers);
    let list = candidates(rows, info, settings);
    lemma_candidates_are_eligible(rows, info, settings);
    let places = sorting::order(sorting::falling_keys(turnovers(list)));
    sorting::every_list_has_an_order(sorting::falling_keys(turnovers(list)));
    let best = largest(list, settings.max_symbols as nat);
    let all = selection(info, tickers, settings);
    if !has_btc(best) && btc_ticker(rows) is Some {
        assert(all[all.len() - 1].symbol == "BTCUSDT"@);
    }
    assert forall|i: int|
        0 <= i < all.len() && (#[trigger] all[i]).symbol != "BTCUSDT"@ implies is_fit(
        all[i],
        info,
        settings,
    ) by {
        assert(all[i] == best[i]);
        assert(places[i] < list.len());
        assert(best[i] == list[places[i] as int]);
    }
}

/// How the exchange names the interval of a timeframe; it has no history of five-second
/// candles.
pub open spec fn interval_name(timeframe: Timeframe) -> Option<Seq<char>> {
    match timeframe {
        Timeframe::M1 => Some("1"@),
        Timeframe::M15 => Some("15"@),
        Timeframe::S5 => None,
    }
}

/// How the exchange names the interval of a timeframe.
pub fn interval(timeframe: Timeframe) -> (r: Option<&'static str>)
    ensures
        match r {
            Some(name) => interval_name(timeframe) == Some(name@),
            None => interval_name(timeframe) is None,
        },
{
    match timeframe {
        Timeframe::M1 => Some("1"),
        Timeframe::M15 => Some("15"),
        Timeframe::S5 => None,
    }
}

/// The number that a text holds, if it is one.
pub open spec fn numeral(value: Json) -> Option<Double> {
    match json::text_in(value) {
        Some(s) => reading::double_of(s),
        None => None,
    }
}

/// The number that a text holds, if it is one.
pub fn read_numeral(value: &Json) -> (r: Option<Double>)
    ensures
        r == numeral(*value),
{
    match value.as_text() {
        Some(s) => reading::parse_double(s),
        None => None,
    }
}

/// The second of a time in milliseconds.
pub open spec fn second_of(milliseconds: i64) -> i64 {
    if milliseconds >= 0 {
        (milliseconds as int / 1000) as i64
    } else {
        (-(-(milliseconds as int) / 1000)) as i64
    }
}

fn find_second(milliseconds: i64) -> (r: i64)
    ensures
        r == second_of(milliseconds),
{
    let wide = milliseconds as i128;
    if wide >= 0 {
        (wide / 1000) as i64
    } else {
        (-(-wide / 1000)) as i64
    }
}

/// The candle of a row of history, if the row holds one.
pub open spec fn candle_in(row: Json, timeframe: Timeframe) -> Option<Candle> {
    match json::items_in(row) {
        Some(v) => if v.len() < 6 {
            None
        } else {
            match (
                numeral(v[0]),
                numeral(v[1]),
                numeral(v[2]),
                numeral(v[3]),
                numeral(v[4]),
                numeral(v[5]),
            ) {
                (Some(time), Some(open), Some(high), Some(low), Some(close), Some(volume)) => Some(
                    Candle {
                        timeframe,
                        started_at: second_of(whole_part(time)),
                        open,
                        high,
                        low,
                        close,
                        volume,
                        trades: 0,
                    },
                ),
                _ => None,
            }
        },
        None => None,
    }
}

fn read_candle(row: &Json, timeframe: Timeframe) -> (r: Option<Candle>)
    ensures
        r == candle_in(*row, timeframe),
{
    let v = match row.as_list() {
        Some(v) => v,
        None => {
            return None;
        },
    };
    if v.len() < 6 {
        return None;
    }
    match (
        read_numeral(&v[0]),
        read_numeral(&v[1]),
        read_numeral(&v[2]),
        read_numeral(&v[3]),
        read_numeral(&v[4]),
        read_numeral(&v[5]),
    ) {
        (Some(time), Some(open), Some(high), Some(low), Some(close), Some(volume)) => Some(
            Candle {
                timeframe,
                started_at: find_second(find_whole_part(time)),
                open,
                high,
                low,
                close,
                volume,
                trades: 0,
            },
        ),
        _ => None,
    }
}

/// The candles of rows of history, in their order.
pub open spec fn candles_in(rows: Seq<Json>, timeframe: Timeframe) -> Seq<Candle>
    decreases rows.len(),
{
    if rows.len() == 0 {
        Seq::empty()
    } else {
        let before = candles_in(rows.drop_last(), timeframe);
        match candle_in(rows.last(), timeframe) {
            Some(candle) => before.push(candle),
            None => before,
        }
    }
}

/// Keys that order candles by their start.
pub open spec fn start_keys(candles: Seq<Candle>) -> Seq<i128> {
    Seq::new(candles.len(), |i: int| candles[i].started_at as i128)
}

/// The candles of a history, oldest first.
pub open spec fn history_in(result: Json, timeframe: Timeframe) -> Seq<Candle> {
    let candles = candles_in(rows_in(result), timeframe);
    sorting::picked(candles, sorting::order(start_keys(candles)))
}

/// Reads the candles of a history, oldest first.
pub fn read_history(result: &Json, timeframe: Timeframe) -> (r: Vec<Candle>)
    ensures
        r@ == history_in(*result, timeframe),
        forall|i: int, j: int|
            0 <= i < j < r@.len() ==> (#[trigger] r@[i]).started_at <= (#[trigger] r@[j]).started_at,
{
    let mut candles: Vec<Candle> = Vec::new();
    let ghost all = rows_in(*result);
    match result.list_at("list") {
        Some(rows) => {
            let mut i: usize = 0;
            while i < rows.len()
                invariant
                    i <= rows@.len(),
                    all == rows@,
                    candles@ == candles_in(all.take(i as int), timeframe),
                decreases rows@.len() - i,
            {
                assert(all.take(i + 1).drop_last() =~= all.take(i as int));
                match read_candle(&rows[i], timeframe) {
                    Some(candle) => {
                        candles.push(candle);
                    },
                    None => {},
                }
                i = i + 1;
            }
            assert(all.take(i as int) =~= all);
        },
        None => {},
    }
    let ghost list = candles_in(all, timeframe);
    assert(candles@ == list);
    let mut keys: Vec<i128> = Vec::new();
    let mut j: usize = 0;
    while j < candles.len()
        invariant
            j <= candles@.len(),
            keys@ == start_keys(candles@.take(j as int)),
        decreases candles@.len() - j,
    {
        keys.push(candles[j].started_at as i128);
        j = j + 1;
        assert(keys@ =~= start_keys(candles@.take(j as int)));
    }
    assert(candles@.take(j as int) =~= candles@);
    let places = sorting::stable_order(&keys);
    let ghost expected = sorting::picked(candles@, places@);
    let mut r: Vec<Candle> = Vec::new();
    let mut k: usize = 0;
    while k < places.len()
        invariant
            k <= places@.len(),
            expected == sorting::picked(candles@, places@),
            forall|x: int| 0 <= x < places@.len() ==> #[trigger] places@[x] < candles@.len(),
            r@ == expected.take(k as int),
        decreases places@.len() - k,
    {
        let at = places[k];
        r.push(candles[at]);
        assert(expected.take(k + 1) =~= expected.take(k as int).push(expected[k as int]));
        k = k + 1;
    }
    assert(expected.take(k as int) =~= expected);
    proof {
        let keys = start_keys(candles@);
        assert forall|i: int, j: int| 0 <= i < j < r@.len() implies (#[trigger] r@[i]).started_at
            <= (#[trigger] r@[j]).started_at by {
            assert(sorting::before(keys, places@[i], places@[j]));
        }
    }
    r
}

/// Candles with a complete history.
pub open spec fn warmed(bars: BarsView, m15: Seq<Candle>, m1: Seq<Candle>) -> BarsView {
    BarsView {
        valid_from: None,
        ..bars.seeded(Timeframe::M15, m15).seeded(Timeframe::M1, m1)
    }
}

/// The state after a symbol's history has come.
pub open spec fn with_history(
    m: MarketView,
    symbol: Seq<char>,
    m15: Seq<Candle>,
    m1: Seq<Candle>,
) -> MarketView {
    MarketView {
        mtf_bars: m.mtf_bars.insert(
            symbol,
            warmed(table::entry_or(m.mtf_bars, symbol, BarsView::empty()), m15, m1),
        ),
        ..m
    }
}

/// A state with a line in its log.
pub open spec fn noted(
    m: MarketView,
    level: Seq<char>,
    message: Seq<char>,
    symbol: Seq<char>,
    throttle: Double,
    clock: Double,
) -> MarketView {
    MarketView {
        journal: journal::logged(m.journal, level, message, symbol, throttle, clock),
        ..m
    }
}

/// Takes the history of a symbol into its candles.
pub fn take_history(market: &mut MarketState, symbol: &str, m15: &Vec<Candle>, m1: &Vec<Candle>)
    ensures
        final(market)@ == with_history(old(market)@, symbol@, m15@, m1@),
{
    let mut bars = match market.mtf_bars.remove(symbol) {
        Some(bars) => bars,
        None => MtfBars::new(),
    };
    bars.seed(Timeframe::M15, m15);
    bars.seed(Timeframe::M1, m1);
    bars.mark_history_valid();
    market.mtf_bars.insert(symbol, bars);
    proof {
        let was = old(market)@;
        assert(market@.mtf_bars =~= with_history(was, symbol@, m15@, m1@).mtf_bars);
    }
}

/// Whether histories are needed at all.
pub fn needs_history(settings: &Settings, symbols: &Vec<String>) -> (r: bool)
    ensures
        r == (settings.strategy_mode@ == "fvg"@ && symbols@.len() > 0),
{
    text::text_eq(settings.strategy_mode.as_str(), "fvg") && symbols.len() > 0
}

/// Notes that the history of a symbol did not come.
pub fn note_missing_history(market: &mut MarketState, symbol: &str, error: &str, clock: Double)
    ensures
        final(market)@ == noted(
            old(market)@,
            "WARN"@,
            "MTF FVG warm-up failed: "@ + error@,
            symbol@,
            Double::whole(30),
            clock,
        ),
{
    let mut message = "MTF FVG warm-up failed: ".to_owned();
    message.append(error);
    market.log("WARN", message.as_str(), symbol, Double::whole(30), clock);
}

/// Notes how many histories came.
pub fn note_histories(market: &mut MarketState, warmed: usize, symbols: &Vec<String>, clock: Double)
    ensures
        final(market)@ == noted(
            old(market)@,
            "SYSTEM"@,
            "MTF FVG history warmed for "@ + text::digits(warmed as nat) + "/"@ + text::digits(
                symbols@.len(),
            ) + " symbols"@,
            "SYSTEM"@,
            Double::zero(),
            clock,
        ),
{
    let mut message = "MTF FVG history warmed for ".to_owned();
    message.append(text::decimal(warmed as u64).as_str());
    message.append("/");
    message.append(text::decimal(symbols.len() as u64).as_str());
    message.append(" symbols");
    market.log("SYSTEM", message.as_str(), "SYSTEM", Double::zero(), clock);
}

/// What to do after a scan.
#[derive(Debug)]
pub enum RadarStep {
    /// Follow these symbols live.
    Follow(Vec<String>),
    /// Follow these symbols on the demo feed.
    Demo(Vec<String>),
    /// Wait for the next scan.
    Wait,
}

/// What to do after a scan, by its contents.
#[verifier::ext_equal]
pub enum RadarPlan {
    Follow(Seq<Seq<char>>),
    Demo(Seq<Seq<char>>),
    Wait,
}

impl RadarStep {
    pub open spec fn view(&self) -> RadarPlan {
        match self {
            RadarStep::Follow(symbols) => RadarPlan::Follow(sorting::texts(symbols@)),
            RadarStep::Demo(symbols) => RadarPlan::Demo(sorting::texts(symbols@)),
            RadarStep::Wait => RadarPlan::Wait,
        }
    }
}

/// Why a scan found nothing to follow.
pub open spec fn scan_failure(scan: Result<Seq<InstrumentView>, Seq<char>>) -> Seq<char> {
    match scan {
        Ok(_) => "no instruments passed liquidity filters"@,
        Err(why) => why,
    }
}

/// The state after a scan.
pub open spec fn scanned(
    m: MarketView,
    scan: Result<Seq<InstrumentView>, Seq<char>>,
    clock: Double,
) -> MarketView {
    if scan is Ok && (scan->Ok_0).len() > 0 {
        noted(
            MarketView { radar: scan->Ok_0, last_scan: clock, ..m },
            "SCAN"@,
            "Radar selected "@ + text::digits((scan->Ok_0).len()) + " liquid perpetuals"@,
            "SYSTEM"@,
            Double::zero(),
            clock,
        )
    } else {
        noted(
            m,
            "WARN"@,
            "Live radar unavailable: "@ + text::clipped(scan_failure(scan), 80),
            "SYSTEM"@,
            Double::whole(30),
            clock,
        )
    }
}

/// What to do after a scan.
pub open spec fn planned(
    scan: Result<Seq<InstrumentView>, Seq<char>>,
    settings: Settings,
) -> RadarPlan {
    if scan is Ok && (scan->Ok_0).len() > 0 {
        RadarPlan::Follow((scan->Ok_0).map_values(|i: InstrumentView| i.symbol))
    } else if settings.demo_fallback {
        RadarPlan::Demo(sorting::texts(settings.demo_symbols@))
    } else {
        RadarPlan::Wait
    }
}

/// A scan by its contents.
pub open spec fn scan_view(scan: Result<Vec<Instrument>, String>) -> Result<
    Seq<InstrumentView>,
    Seq<char>,
> {
    match scan {
        Ok(rows) => Ok(state::instrument_rows(rows@)),
        Err(why) => Err(why@),
    }
}

fn symbols_of(rows: &Vec<Instrument>) -> (r: Vec<String>)
    ensures
        sorting::texts(r@) == state::instrument_rows(rows@).map_values(
            |i: InstrumentView| i.symbol,
        ),
{
    let ghost all = state::instrument_rows(rows@).map_values(|i: InstrumentView| i.symbol);
    let mut r: Vec<String> = Vec::new();
    let mut i: usize = 0;
    assert(sorting::texts(r@) =~= all.take(0));
    while i < rows.len()
        invariant
            i <= rows@.len(),
            all == state::instrument_rows(rows@).map_values(|i: InstrumentView| i.symbol),
            sorting::texts(r@) == all.take(i as int),
        decreases rows@.len() - i,
    {
        let ghost before = sorting::texts(r@);
        r.push(rows[i].symbol.clone());
        assert(sorting::texts(r@) =~= before.push(all[i as int]));
        assert(all.take(i + 1) =~= all.take(i as int).push(all[i as int]));
        i = i + 1;
    }
    assert(all.take(i as int) =~= all);
    r
}

fn copied_texts(list: &Vec<String>) -> (r: Vec<String>)
    ensures
        sorting::texts(r@) == sorting::texts(list@),
{
    let ghost all = sorting::texts(list@);
    let mut r: Vec<String> = Vec::new();
    let mut i: usize = 0;
    assert(sorting::texts(r@) =~= all.take(0));
    while i < list.len()
        invariant
            i <= list@.len(),
            all == sorting::texts(list@),
            sorting::texts(r@) == all.take(i as int),
        decreases list@.len() - i,
    {
        let ghost before = sorting::texts(r@);
        r.push(list[i].clone());
        assert(sorting::texts(r@) =~= before.push(all[i as int]));
        assert(all.take(i + 1) =~= all.take(i as int).push(all[i as int]));
        i = i + 1;
    }
    assert(all.take(i as int) =~= all);
    r
}

/// Takes the outcome of a scan and says what to do.
pub fn take_scan(
    market: &mut MarketState,
    settings: &Settings,
    scan: Result<Vec<Instrument>, String>,
    clock: Double,
) -> (r: RadarStep)
    ensures
        final(market)@ == scanned(old(market)@, scan_view(scan), clock),
        r@ == planned(scan_view(scan), *settings),
{
    let failure = match scan {
        Ok(rows) => {
            if rows.len() > 0 {
                let symbols = symbols_of(&rows);
                let mut message = "Radar selected ".to_owned();
                message.append(text::decimal(rows.len() as u64).as_str());
                message.append(" liquid perpetuals");
                market.radar = rows;
                market.last_scan = clock;
                market.log("SCAN", message.as_str(), "SYSTEM", Double::zero(), clock);
                return RadarStep::Follow(symbols);
            }
            "no instruments passed liquidity filters".to_owned()
        },
        Err(why) => why,
    };
    let mut message = "Live radar unavailable: ".to_owned();
    message.append(text::clip(failure.as_str(), 80));
    market.log("WARN", message.as_str(), "SYSTEM", Double::whole(30), clock);
    if settings.demo_fallback {
        RadarStep::Demo(copied_texts(&settings.demo_symbols))
    } else {
        RadarStep::Wait
    }
}

} // verus!

//! One look at a symbol, and one pass over all of them.
use vstd::prelude::*;
use std::collections::VecDeque;
use crate::brain;
use crate::brain::{BtcTrend, Metrics, Status};
use crate::config::Settings;
use crate::double::Double;
use crate::models;
use crate::models::{
    Absorption, ClosedTrade, PendingSignal, Side, TradeTick, WallSide, WallTrack,
};
use crate::notices;
use crate::sorting;
use crate::state;
use crate::state::{MarketState, MarketView};
use crate::table;
use crate::table::Table;
use crate::text;
use crate::trading;
use crate::trading::{Account, EntryStep, ManageStep, Notice, Reason};

verus! {

/// Everything that one look at a symbol saw and decided.
#[derive(Clone, Copy, Debug, PartialEq, Eq)]
pub struct Look {
    pub metrics: Metrics,
    pub trend: BtcTrend,
    pub bid_track: Option<WallTrack>,
    pub ask_track: Option<WallTrack>,
    pub bid_absorption: Option<Absorption>,
    pub ask_absorption: Option<Absorption>,
    pub managed: Option<ManageStep>,
    pub entry: Option<EntryStep>,
    pub skipped: Option<Reason>,
    pub status: Status,
}

/// The candidate of a look: an absorbed ask wall is bought, an absorbed bid wall sold, and
/// without either a waiting setup is taken further.
pub open spec fn spec_candidate(
    bid_absorption: Option<Absorption>,
    ask_absorption: Option<Absorption>,
    pending: Option<PendingSignal>,
) -> Option<(Side, Absorption)> {
    if ask_absorption is Some && (ask_absorption->0).absorbed {
        Some((Side::Long, ask_absorption->0))
    } else if bid_absorption is Some && (bid_absorption->0).absorbed {
        Some((Side::Short, bid_absorption->0))
    } else {
        match pending {
            Some(p) => Some((p.side, p.absorption)),
            None => None,
        }
    }
}

#[verifier::when_used_as_spec(spec_candidate)]
pub fn candidate(
    bid_absorption: Option<Absorption>,
    ask_absorption: Option<Absorption>,
    pending: Option<PendingSignal>,
) -> (r: Option<(Side, Absorption)>)
    ensures
        r == spec_candidate(bid_absorption, ask_absorption, pending),
{
    match ask_absorption {
        Some(a) => {
            if a.absorbed {
                return Some((Side::Long, a));
            }
        },
        None => {},
    }
    match bid_absorption {
        Some(a) => {
            if a.absorbed {
                return Some((Side::Short, a));
            }
        },
        None => {},
    }
    match pending {
        Some(p) => Some((p.side, p.absorption)),
        None => None,
    }
}

/// Why a symbol without an entry was passed over, if there is something to say.
pub open spec fn spec_quiet_reason(metrics: Metrics) -> Option<Reason> {
    if metrics.imbalance.sub(Double::ratio(1, 2)).abs().lt(Double::ratio(1, 10)) {
        Some(Reason::LowImbalance)
    } else if !metrics.tape.buy_accelerating && !metrics.tape.sell_accelerating {
        Some(Reason::NoAcceleration)
    } else {
        None
    }
}

#[verifier::when_used_as_spec(spec_quiet_reason)]
pub fn quiet_reason(metrics: Metrics) -> (r: Option<Reason>)
    ensures
        r == spec_quiet_reason(metrics),
{
    if metrics.imbalance.sub(Double::ratio(1, 2)).abs().lt(Double::ratio(1, 10)) {
        Some(Reason::LowImbalance)
    } else if !metrics.tape.buy_accelerating && !metrics.tape.sell_accelerating {
        Some(Reason::NoAcceleration)
    } else {
        None
    }
}

/// The results of closed rows.
pub open spec fn row_results(closed: Seq<state::ClosedRow>) -> Seq<models::TradeResult> {
    closed.map_values(|row: state::ClosedRow| row.result)
}

/// What the account allows at a moment.
pub open spec fn account_at(m: MarketView, settings: Settings, now: Double) -> Account {
    Account {
        open_positions: m.positions.dom().len() as usize,
        daily_pnl: trading::daily_pnl(row_results(m.closed), now),
        losing_streak: trading::losing_streak(
            row_results(m.closed),
            settings.max_consecutive_losses,
        ),
    }
}

/// What one look at a symbol with a book sees and decides. An open position is managed; a
/// symbol that cools down, or whose book is stale or wide, is left alone; else the candidate
/// is looked at.
#[verifier::opaque]
pub open spec fn look_at(m: MarketView, settings: Settings, symbol: Seq<char>, now: Double) -> Look {
    let book = m.books[symbol];
    let ticks = table::entry_or(m.trades, symbol, Seq::empty());
    let metrics = brain::metrics_of(settings, book, ticks, now);
    let bid = brain::wall_step(
        table::entry(m.bid_walls, symbol),
        book,
        ticks,
        WallSide::Bid,
        metrics.strongest_bid_wall,
        now,
    );
    let ask = brain::wall_step(
        table::entry(m.ask_walls, symbol),
        book,
        ticks,
        WallSide::Ask,
        metrics.strongest_ask_wall,
        now,
    );
    let trend = brain::trend_at(m.btc_mid_history, now);
    let pending = table::entry(m.pending_signals, symbol);
    let seen = Look {
        metrics,
        trend,
        bid_track: bid.0,
        ask_track: ask.0,
        bid_absorption: bid.1,
        ask_absorption: ask.1,
        managed: None,
        entry: None,
        skipped: None,
        status: Status::Watch,
    };
    if m.positions.dom().contains(symbol) {
        let pos = m.positions[symbol];
        Look {
            managed: Some(trading::manage_step(settings, pos, metrics, now)),
            status: Status::holding(pos.side),
            ..seen
        }
    } else if now.lt(table::entry_or(m.cooldowns, symbol, Double::zero())) {
        Look { status: Status::Cooldown, ..seen }
    } else if metrics.freshness.gt(Double::whole(2)) {
        Look { skipped: Some(Reason::StaleBook), ..seen }
    } else if metrics.spread.gt(settings.max_spread_pct) {
        Look { skipped: Some(Reason::SpreadExpanded), ..seen }
    } else {
        match candidate(bid.1, ask.1, pending) {
            None => Look { skipped: quiet_reason(metrics), ..seen },
            Some((side, absorption)) => {
                let step = trading::entry_step(
                    settings,
                    account_at(m, settings, now),
                    pending,
                    side,
                    now,
                    metrics,
                    absorption,
                    brain::trend_allows(symbol, side, trend),
                    trend,
                    book.sequence,
                );
                match step.position {
                    Some(pos) => Look {
                        entry: Some(step),
                        status: Status::holding(pos.side),
                        ..seen
                    },
                    None => Look { entry: Some(step), skipped: quiet_reason(metrics), ..seen },
                }
            },
        }
    }
}

/// The state once a look at a symbol is acted on.
pub open spec fn settled(
    m: MarketView,
    settings: Settings,
    symbol: Seq<char>,
    look: Look,
    clock: Double,
) -> MarketView {
    let row = brain::radar_row(
        look.metrics,
        look.status,
        look.trend,
        look.bid_absorption,
        look.ask_absorption,
    );
    let seen = MarketView {
        bid_walls: table::with_entry(m.bid_walls, symbol, look.bid_track),
        ask_walls: table::with_entry(m.ask_walls, symbol, look.ask_track),
        metrics: m.metrics.insert(symbol, row),
        ..m
    };
    let acted = match look.managed {
        Some(step) => {
            let kept = MarketView {
                positions: table::with_entry(seen.positions, symbol, step.position),
                journal: notices::noted_if(seen.journal, symbol, step.notice, clock),
                ..seen
            };
            match step.closed {
                Some(result) => MarketView {
                    closed: state::with_closed(kept.closed, state::ClosedRow { symbol, result }),
                    cooldowns: kept.cooldowns.insert(
                        symbol,
                        trading::cooldown_end(settings, result),
                    ),
                    ..kept
                },
                None => kept,
            }
        },
        None => match look.entry {
            Some(step) => MarketView {
                pending_signals: table::with_entry(seen.pending_signals, symbol, step.pending),
                positions: match step.position {
                    Some(pos) => seen.positions.insert(symbol, pos),
                    None => seen.positions,
                },
                journal: notices::noted_if(seen.journal, symbol, step.notice, clock),
                ..seen
            },
            None => seen,
        },
    };
    match look.skipped {
        Some(reason) => MarketView {
            journal: notices::noted(acted.journal, symbol, Notice::Skipped(reason), clock),
            ..acted
        },
        None => acted,
    }
}

/// The state after one look at a symbol; nothing happens without a book.
#[verifier::opaque]
pub open spec fn evaluated(
    m: MarketView,
    settings: Settings,
    symbol: Seq<char>,
    now: Double,
    clock: Double,
) -> MarketView {
    if m.books.dom().contains(symbol) {
        settled(m, settings, symbol, look_at(m, settings, symbol, now), clock)
    } else {
        m
    }
}

fn found<V: Copy>(table: &Table<V>, key: &str) -> (r: Option<V>)
    ensures
        r == table::entry(table@, key@),
{
    match table.get(key) {
        Some(v) => Some(*v),
        None => None,
    }
}

fn look_around(market: &MarketState, settings: &Settings, symbol: &str, now: Double) -> (r: Option<
    Look,
>)
    ensures
        r == if market@.books.dom().contains(symbol@) {
            Some(look_at(market@, *settings, symbol@, now))
        } else {
            None
        },
{
    proof {
        reveal(look_at);
    }
    let ghost m = market@;
    let book = match market.books.get(symbol) {
        Some(book) => book,
        None => {
            return None;
        },
    };
    assert(m.books[symbol@] == book@);
    let none: VecDeque<TradeTick> = VecDeque::new();
    let ticks = match market.trades.get(symbol) {
        Some(ticks) => ticks,
        None => &none,
    };
    assert(ticks@ == table::entry_or(m.trades, symbol@, Seq::empty()));
    let metrics = brain::book_metrics(settings, book, ticks, now);
    let bid_wall = found(&market.bid_walls, symbol);
    let ask_wall = found(&market.ask_walls, symbol);
    let (bid_track, bid_absorption) = brain::update_wall_track(
        bid_wall,
        book,
        ticks,
        WallSide::Bid,
        metrics.strongest_bid_wall,
        now,
    );
    let (ask_track, ask_absorption) = brain::update_wall_track(
        ask_wall,
        book,
        ticks,
        WallSide::Ask,
        metrics.strongest_ask_wall,
        now,
    );
    let trend = brain::btc_trend(&market.btc_mid_history, now);
    let pending = found(&market.pending_signals, symbol);
    let mut look = Look {
        metrics,
        trend,
        bid_track,
        ask_track,
        bid_absorption,
        ask_absorption,
        managed: None,
        entry: None,
        skipped: None,
        status: Status::Watch,
    };
    match market.positions.get(symbol) {
        Some(pos) => {
            look.managed = Some(trading::manage_position(settings, *pos, &metrics, now));
            look.status = Status::holding(pos.side);
            return Some(look);
        },
        None => {},
    }
    let cooldown = match market.cooldowns.get(symbol) {
        Some(at) => *at,
        None => Double::zero(),
    };
    if now.lt(cooldown) {
        look.status = Status::Cooldown;
        return Some(look);
    }
    if metrics.freshness.gt(Double::whole(2)) {
        look.skipped = Some(Reason::StaleBook);
        return Some(look);
    }
    if metrics.spread.gt(settings.max_spread_pct) {
        look.skipped = Some(Reason::SpreadExpanded);
        return Some(look);
    }
    let mut entered = false;
    match candidate(bid_absorption, ask_absorption, pending) {
        Some((side, absorption)) => {
            assert(trading::results(market.closed@) =~= row_results(m.closed));
            let account = Account {
                open_positions: market.positions.len(),
                daily_pnl: trading::daily_result(&market.closed, now),
                losing_streak: trading::lost_in_a_row(
                    &market.closed,
                    settings.max_consecutive_losses,
                ),
            };
            let (allowed, _) = brain::btc_allows(&market.btc_mid_history, symbol, side, now);
            let step = trading::attempt_entry(
                settings,
                account,
                pending,
                side,
                now,
                &metrics,
                &absorption,
                allowed,
                trend,
                book.sequence,
            );
            look.entry = Some(step);
            match step.position {
                Some(pos) => {
                    look.status = Status::holding(pos.side);
                    entered = true;
                },
                None => {},
            }
        },
        None => {},
    }
    if !entered {
        look.skipped = quiet_reason(metrics);
    }
    Some(look)
}

fn store<V>(table: &mut Table<V>, key: &str, value: Option<V>)
    ensures
        final(table)@ == table::with_entry(old(table)@, key@, value),
{
    match value {
        Some(v) => {
            table.insert(key, v);
        },
        None => {
            let _ = table.remove(key);
        },
    }
}

/// Looks at a symbol and acts on what it sees. A qualified absorption is taken through
/// breakout and held retest by later looks; no entry is instant.
pub fn evaluate_symbol(
    market: &mut MarketState,
    settings: &Settings,
    symbol: &str,
    now: Double,
    clock: Double,
) -> (r: Option<Look>)
    ensures
        final(market)@ == evaluated(old(market)@, *settings, symbol@, now, clock),
        r == if old(market)@.books.dom().contains(symbol@) {
            Some(look_at(old(market)@, *settings, symbol@, now))
        } else {
            None
        },
{
    proof {
        reveal(evaluated);
    }
    let look = match look_around(market, settings, symbol, now) {
        Some(look) => look,
        None => {
            return None;
        },
    };
    store(&mut market.bid_walls, symbol, look.bid_track);
    store(&mut market.ask_walls, symbol, look.ask_track);
    let row = brain::metrics_to_radar(
        &look.metrics,
        look.status,
        look.trend,
        look.bid_absorption,
        look.ask_absorption,
    );
    market.metrics.insert(symbol, row);
    match look.managed {
        Some(step) => {
            store(&mut market.positions, symbol, step.position);
            notices::publish(&mut market.journal, symbol, step.notice, clock);
            match step.closed {
                Some(result) => {
                    market.push_closed(ClosedTrade { symbol: symbol.to_owned(), result });
                    market.cooldowns.insert(symbol, trading::cooldown_until(settings, &result));
                },
                None => {},
            }
        },
        None => {
            match look.entry {
                Some(step) => {
                    store(&mut market.pending_signals, symbol, step.pending);
                    match step.position {
                        Some(pos) => {
                            market.positions.insert(symbol, pos);
                        },
                        None => {},
                    }
                    notices::publish(&mut market.journal, symbol, step.notice, clock);
                },
                None => {},
            }
        },
    }
    match look.skipped {
        Some(reason) => {
            notices::publish(&mut market.journal, symbol, Some(Notice::Skipped(reason)), clock);
        },
        None => {},
    }
    Some(look)
}

/// The symbols of a list but for BTC.
pub open spec fn without_btc(list: Seq<Seq<char>>) -> Seq<Seq<char>>
    decreases list.len(),
{
    if list.len() == 0 {
        list
    } else {
        let before = without_btc(list.drop_last());
        if list.last() == "BTCUSDT"@ {
            before
        } else {
            before.push(list.last())
        }
    }
}

/// The order in which symbols are looked at: BTC first, so that its state feeds the trend
/// filter for every other symbol, then the others in the order of their names.
pub open spec fn pass_order(books: Set<Seq<char>>) -> Seq<Seq<char>> {
    (if books.contains("BTCUSDT"@) {
        seq!["BTCUSDT"@]
    } else {
        Seq::empty()
    }) + without_btc(sorting::listing(books))
}

/// The state after a look at each symbol of a list, in order.
pub open spec fn evaluated_all(
    m: MarketView,
    settings: Settings,
    list: Seq<Seq<char>>,
    now: Double,
    clock: Double,
) -> MarketView
    decreases list.len(),
{
    if list.len() == 0 {
        m
    } else {
        evaluated(
            evaluated_all(m, settings, list.drop_last(), now, clock),
            settings,
            list.last(),
            now,
            clock,
        )
    }
}

/// The state at the beginning of a pass: what was observed in another session is forgotten,
/// and the BTC mid price is recorded.
pub open spec fn pass_started(m: MarketView, session: u64, now: Double) -> MarketView {
    let current = if session != m.session {
        MarketView {
            bid_walls: Map::empty(),
            ask_walls: Map::empty(),
            pending_signals: Map::empty(),
            btc_mid_history: Seq::empty(),
            ..m
        }
    } else {
        m
    };
    MarketView {
        btc_mid_history: brain::recorded(
            current.btc_mid_history,
            table::entry(current.books, "BTCUSDT"@),
            now,
        ),
        ..current
    }
}

/// The state after one pass over all symbols.
pub open spec fn passed(
    m: MarketView,
    settings: Settings,
    session: u64,
    now: Double,
    clock: Double,
) -> MarketView {
    evaluated_all(
        pass_started(m, session, now),
        settings,
        pass_order(m.books.dom()),
        now,
        clock,
    )
}

fn book_names(market: &MarketState) -> (r: Vec<String>)
    ensures
        sorting::texts(r@) == sorting::listing(market@.books.dom()),
{
    assert(market@.books.dom() =~= market.books@.dom());
    sorting::names_of(&market.books)
}

/// Looks at every symbol once, BTC first. `session` is the session of the last pass; the
/// session of this one is returned.
pub fn brain_pass(
    market: &mut MarketState,
    settings: &Settings,
    session: u64,
    now: Double,
    clock: Double,
) -> (r: u64)
    ensures
        final(market)@ == passed(old(market)@, *settings, session, now, clock),
        r == old(market)@.session,
{
    let ghost m = market@;
    let current = market.session;
    if session != current {
        market.bid_walls = Table::new();
        market.ask_walls = Table::new();
        market.pending_signals = Table::new();
        market.btc_mid_history = VecDeque::new();
    }
    brain::record_btc_mid(&mut market.btc_mid_history, market.books.get("BTCUSDT"), now);
    let ghost started = market@;
    assert(started == pass_started(m, session, now));
    let names = book_names(market);
    let ghost all = sorting::texts(names@);
    let ghost mut done: Seq<Seq<char>> = Seq::empty();
    if market.books.contains("BTCUSDT") {
        let _ = evaluate_symbol(market, settings, "BTCUSDT", now, clock);
        proof {
            done = seq!["BTCUSDT"@];
            assert(done.drop_last() =~= Seq::empty());
            assert(done.last() == "BTCUSDT"@);
            reveal_with_fuel(evaluated_all, 2);
        }
    }
    let ghost first = done;
    let mut i: usize = 0;
    proof {
        assert(all.take(0) =~= Seq::empty());
        assert(first + without_btc(all.take(0)) =~= first);
    }
    while i < names.len()
        invariant
            i <= names@.len(),
            all == sorting::texts(names@),
            done == first + without_btc(all.take(i as int)),
            market@ == evaluated_all(started, *settings, done, now, clock),
        decreases names@.len() - i,
    {
        let name = names[i].as_str();
        assert(all[i as int] == name@);
        assert(all.take(i + 1).drop_last() =~= all.take(i as int));
        assert(all.take(i + 1).last() == name@);
        if !text::text_eq(name, "BTCUSDT") {
            let _ = evaluate_symbol(market, settings, name, now, clock);
            proof {
                let next = done.push(name@);
                assert(next.drop_last() =~= done);
                assert(first + without_btc(all.take(i + 1)) =~= next);
                done = next;
            }
        }
        i = i + 1;
    }
    assert(all.take(i as int) =~= all);
    current
}

/// A look at a symbol changes nothing about any other symbol, and neither books nor tapes.
pub proof fn a_look_touches_one_symbol(
    m: MarketView,
    settings: Settings,
    symbol: Seq<char>,
    now: Double,
    clock: Double,
    other: Seq<char>,
)
    requires
        other != symbol,
    ensures
        ({
            let after = evaluated(m, settings, symbol, now, clock);
            &&& table::entry(after.positions, other) == table::entry(m.positions, other)
            &&& table::entry(after.pending_signals, other) == table::entry(m.pending_signals, other)
            &&& table::entry(after.bid_walls, other) == table::entry(m.bid_walls, other)
            &&& table::entry(after.ask_walls, other) == table::entry(m.ask_walls, other)
            &&& table::entry(after.cooldowns, other) == table::entry(m.cooldowns, other)
            &&& table::entry(after.metrics, other) == table::entry(m.metrics, other)
            &&& after.books == m.books
            &&& after.trades == m.trades
            &&& after.mtf_bars == m.mtf_bars
            &&& after.mtf_fvg == m.mtf_fvg
        }),
{
    reveal(evaluated);
}

/// A position is opened only for a setup that was already waiting for its symbol, outside
/// the cooldown, on a fresh book with a narrow spread, and while no circuit breaker holds.
pub proof fn positions_open_only_after_waiting(
    m: MarketView,
    settings: Settings,
    symbol: Seq<char>,
    now: Double,
    clock: Double,
)
    requires
        !m.positions.dom().contains(symbol),
        evaluated(m, settings, symbol, now, clock).positions.dom().contains(symbol),
    ensures
        ({
            let look = look_at(m, settings, symbol, now);
            &&& m.books.dom().contains(symbol)
            &&& m.pending_signals.dom().contains(symbol)
            &&& !now.lt(table::entry_or(m.cooldowns, symbol, Double::zero()))
            &&& !look.metrics.freshness.gt(Double::whole(2))
            &&& !look.metrics.spread.gt(settings.max_spread_pct)
            &&& trading::breaker(settings, account_at(m, settings, now)) is None
            &&& evaluated(m, settings, symbol, now, clock).positions[symbol].side
                == m.pending_signals[symbol].side
        }),
{
    reveal(evaluated);
    reveal(look_at);
}

/// A look never opens more positions than are allowed at once.
pub proof fn open_positions_stay_limited(
    m: MarketView,
    settings: Settings,
    symbol: Seq<char>,
    now: Double,
    clock: Double,
)
    requires
        m.positions.dom().finite(),
        m.positions.dom().len() <= settings.max_open_positions,
    ensures
        ({
            let after = evaluated(m, settings, symbol, now, clock);
            &&& after.positions.dom().finite()
            &&& after.positions.dom().len() <= settings.max_open_positions
        }),
{
    reveal(evaluated);
    reveal(look_at);
    let after = evaluated(m, settings, symbol, now, clock);
    if m.positions.dom().contains(symbol) {
        assert(after.positions.dom() =~= m.positions.dom() || after.positions.dom()
            =~= m.positions.dom().remove(symbol));
    } else if after.positions.dom().contains(symbol) {
        positions_open_only_after_waiting(m, settings, symbol, now, clock);
        assert(after.positions.dom() =~= m.positions.dom().insert(symbol));
    } else {
        assert(after.positions.dom() =~= m.positions.dom());
    }
}

proof fn lemma_looks_stay_limited(
    m: MarketView,
    settings: Settings,
    list: Seq<Seq<char>>,
    now: Double,
    clock: Double,
)
    requires
        m.positions.dom().finite(),
        m.positions.dom().len() <= settings.max_open_positions,
    ensures
        evaluated_all(m, settings, list, now, clock).positions.dom().finite(),
        evaluated_all(m, settings, list, now, clock).positions.dom().len()
            <= settings.max_open_positions,
    decreases list.len(),
{
    if list.len() > 0 {
        lemma_looks_stay_limited(m, settings, list.drop_last(), now, clock);
        open_positions_stay_limited(
            evaluated_all(m, settings, list.drop_last(), now, clock),
            settings,
            list.last(),
            now,
            clock,
        );
    }
}

/// A pass over all symbols never leaves more positions open than are allowed at once.
pub proof fn a_pass_stays_limited(
    m: MarketView,
    settings: Settings,
    session: u64,
    now: Double,
    clock: Double,
)
    requires
        m.positions.dom().finite(),
        m.positions.dom().len() <= settings.max_open_positions,
    ensures
        passed(m, settings, session, now, clock).positions.dom().finite(),
        passed(m, settings, session, now, clock).positions.dom().len()
            <= settings.max_open_positions,
{
    lemma_looks_stay_limited(
        pass_started(m, session, now),
        settings,
        pass_order(m.books.dom()),
        now,
        clock,
    );
}

} // verus!

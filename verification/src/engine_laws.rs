//! What one look at a symbol decides and changes, and how a pass goes over the symbols.
use vstd::prelude::*;
use crate::brain;
use crate::brain::Status;
use crate::config::Settings;
use crate::double::Double;
use crate::engine;
use crate::models::{Side, WallSide};
use crate::notices;
use crate::sorting;
use crate::state::{ClosedRow, MarketView};
use crate::text;
use crate::trading;
use crate::trading::{Notice, Reason};

verus! {

/// What a look sees comes from the book and the tape of its own symbol: the metrics, and the
/// trend of BTC from the history of BTC alone.
pub proof fn a_look_sees_its_own_symbol(
    m: MarketView,
    settings: Settings,
    symbol: Seq<char>,
    now: Double,
)
    requires
        m.books.dom().contains(symbol),
        m.trades.dom().contains(symbol),
    ensures
        ({
            let look = engine::look_at(m, settings, symbol, now);
            &&& look.metrics == brain::metrics_of(
                settings,
                m.books[symbol],
                m.trades[symbol],
                now,
            )
            &&& look.trend == brain::trend_at(m.btc_mid_history, now)
        }),
{
    reveal(engine::look_at);
}

/// The bid wall is followed with the track kept of that side.
#[verifier::spinoff_prover]
#[verifier::rlimit(60)]
pub proof fn a_look_follows_the_bid_wall(
    m: MarketView,
    settings: Settings,
    symbol: Seq<char>,
    now: Double,
)
    requires
        m.books.dom().contains(symbol),
        m.trades.dom().contains(symbol),
    ensures
        ({
            let look = engine::look_at(m, settings, symbol, now);
            let before = if m.bid_walls.dom().contains(symbol) {
                Some(m.bid_walls[symbol])
            } else {
                None
            };
            let step = brain::wall_step(
                before,
                m.books[symbol],
                m.trades[symbol],
                WallSide::Bid,
                look.metrics.strongest_bid_wall,
                now,
            );
            look.bid_track == step.0 && look.bid_absorption == step.1
        }),
{
    reveal(engine::look_at);
}

/// The ask wall is followed with the track kept of that side.
#[verifier::spinoff_prover]
#[verifier::rlimit(60)]
pub proof fn a_look_follows_the_ask_wall(
    m: MarketView,
    settings: Settings,
    symbol: Seq<char>,
    now: Double,
)
    requires
        m.books.dom().contains(symbol),
        m.trades.dom().contains(symbol),
    ensures
        ({
            let look = engine::look_at(m, settings, symbol, now);
            let before = if m.ask_walls.dom().contains(symbol) {
                Some(m.ask_walls[symbol])
            } else {
                None
            };
            let step = brain::wall_step(
                before,
                m.books[symbol],
                m.trades[symbol],
                WallSide::Ask,
                look.metrics.strongest_ask_wall,
                now,
            );
            look.ask_track == step.0 && look.ask_absorption == step.1
        }),
{
    reveal(engine::look_at);
}

/// A symbol without a tape or without walls seen before is looked at as one whose tape is empty
/// and whose walls are new.
#[verifier::spinoff_prover]
pub proof fn a_new_symbol_has_nothing_behind_it(
    m: MarketView,
    settings: Settings,
    symbol: Seq<char>,
    now: Double,
)
    requires
        m.books.dom().contains(symbol),
        !m.trades.dom().contains(symbol),
        !m.bid_walls.dom().contains(symbol),
        !m.ask_walls.dom().contains(symbol),
    ensures
        ({
            let look = engine::look_at(m, settings, symbol, now);
            &&& look.metrics == brain::metrics_of(settings, m.books[symbol], Seq::empty(), now)
            &&& (look.bid_track, look.bid_absorption) == brain::wall_step(
                None,
                m.books[symbol],
                Seq::empty(),
                WallSide::Bid,
                look.metrics.strongest_bid_wall,
                now,
            )
            &&& (look.ask_track, look.ask_absorption) == brain::wall_step(
                None,
                m.books[symbol],
                Seq::empty(),
                WallSide::Ask,
                look.metrics.strongest_ask_wall,
                now,
            )
        }),
{
    reveal(engine::look_at);
}

/// An open position is managed and nothing else is looked for; and only an open position is
/// managed.
pub proof fn an_open_position_is_managed(
    m: MarketView,
    settings: Settings,
    symbol: Seq<char>,
    now: Double,
)
    requires
        m.books.dom().contains(symbol),
    ensures
        ({
            let look = engine::look_at(m, settings, symbol, now);
            &&& look.managed is Some <==> m.positions.dom().contains(symbol)
            &&& look.managed is Some ==> {
                &&& look.managed->0 == trading::manage_step(
                    settings,
                    m.positions[symbol],
                    look.metrics,
                    now,
                )
                &&& look.entry is None
                &&& look.skipped is None
                &&& look.status == match m.positions[symbol].side {
                    Side::Long => Status::Long,
                    Side::Short => Status::Short,
                }
            }
        }),
{
    reveal(engine::look_at);
}

/// Without a position, a symbol whose cooldown has not ended is left alone, and no other symbol
/// has that status.
pub proof fn a_cooling_symbol_is_left_alone(
    m: MarketView,
    settings: Settings,
    symbol: Seq<char>,
    now: Double,
)
    requires
        m.books.dom().contains(symbol),
        !m.positions.dom().contains(symbol),
    ensures
        ({
            let look = engine::look_at(m, settings, symbol, now);
            let until = if m.cooldowns.dom().contains(symbol) {
                m.cooldowns[symbol]
            } else {
                Double::zero()
            };
            &&& look.status == Status::Cooldown <==> now.lt(until)
            &&& look.status == Status::Cooldown ==> look.entry is None && look.skipped is None
        }),
{
    reveal(engine::look_at);
}

/// A book that has not changed for more than two seconds, or whose spread is wider than allowed,
/// is passed over with its reason, the older fault first.
pub proof fn a_poor_book_is_passed_over(
    m: MarketView,
    settings: Settings,
    symbol: Seq<char>,
    now: Double,
)
    requires
        m.books.dom().contains(symbol),
        !m.positions.dom().contains(symbol),
        engine::look_at(m, settings, symbol, now).status != Status::Cooldown,
    ensures
        ({
            let look = engine::look_at(m, settings, symbol, now);
            let stale = Double::whole(2).lt(look.metrics.freshness);
            let wide = settings.max_spread_pct.lt(look.metrics.spread);
            &&& look.skipped == Some(Reason::StaleBook) <==> stale
            &&& look.skipped == Some(Reason::SpreadExpanded) <==> !stale && wide
            &&& stale || wide ==> look.entry is None && look.status == Status::Watch
        }),
{
    reveal(engine::look_at);
}

/// On a fair book an absorbed ask wall is tried as a long entry, else an absorbed bid wall as a
/// short one, else the setup that waits for the symbol; with none of these no entry is tried.
/// A look that brings no position says so where the book is within a tenth of balance, or else
/// where neither side of the tape accelerates.
#[verifier::spinoff_prover]
pub proof fn a_fair_book_is_tried(
    m: MarketView,
    settings: Settings,
    symbol: Seq<char>,
    now: Double,
)
    requires
        m.books.dom().contains(symbol),
        !m.positions.dom().contains(symbol),
        engine::look_at(m, settings, symbol, now).status != Status::Cooldown,
        !Double::whole(2).lt(engine::look_at(m, settings, symbol, now).metrics.freshness),
        !settings.max_spread_pct.lt(engine::look_at(m, settings, symbol, now).metrics.spread),
    ensures
        ({
            let look = engine::look_at(m, settings, symbol, now);
            let waits = m.pending_signals.dom().contains(symbol);
            let pending = if waits {
                Some(m.pending_signals[symbol])
            } else {
                None
            };
            let bought = look.ask_absorption is Some && look.ask_absorption->0.absorbed;
            let sold = look.bid_absorption is Some && look.bid_absorption->0.absorbed;
            let account = engine::account_at(m, settings, now);
            &&& look.entry is Some <==> bought || sold || waits
            &&& bought ==> look.entry == Some(
                trading::entry_step(
                    settings,
                    account,
                    pending,
                    Side::Long,
                    now,
                    look.metrics,
                    look.ask_absorption->0,
                    brain::trend_allows(symbol, Side::Long, look.trend),
                    look.trend,
                    m.books[symbol].sequence,
                ),
            )
            &&& !bought && sold ==> look.entry == Some(
                trading::entry_step(
                    settings,
                    account,
                    pending,
                    Side::Short,
                    now,
                    look.metrics,
                    look.bid_absorption->0,
                    brain::trend_allows(symbol, Side::Short, look.trend),
                    look.trend,
                    m.books[symbol].sequence,
                ),
            )
            &&& !bought && !sold && waits ==> look.entry == Some(
                trading::entry_step(
                    settings,
                    account,
                    pending,
                    m.pending_signals[symbol].side,
                    now,
                    look.metrics,
                    m.pending_signals[symbol].absorption,
                    brain::trend_allows(symbol, m.pending_signals[symbol].side, look.trend),
                    look.trend,
                    m.books[symbol].sequence,
                ),
            )
        }),
{
    reveal(engine::look_at);
}

/// A look that brings a position shows its side and says nothing more; one that brings none
/// watches on, and says so where the book is within a tenth of balance, or else where neither
/// side of the tape accelerates.
#[verifier::spinoff_prover]
pub proof fn a_quiet_look_says_why(
    m: MarketView,
    settings: Settings,
    symbol: Seq<char>,
    now: Double,
)
    requires
        m.books.dom().contains(symbol),
        !m.positions.dom().contains(symbol),
        engine::look_at(m, settings, symbol, now).status != Status::Cooldown,
        !Double::whole(2).lt(engine::look_at(m, settings, symbol, now).metrics.freshness),
        !settings.max_spread_pct.lt(engine::look_at(m, settings, symbol, now).metrics.spread),
    ensures
        ({
            let look = engine::look_at(m, settings, symbol, now);
            let entered = look.entry is Some && (look.entry->0).position is Some;
            let balanced = look.metrics.imbalance.sub(Double::ratio(1, 2)).abs().lt(
                Double::ratio(1, 10),
            );
            let calm = !look.metrics.tape.buy_accelerating
                && !look.metrics.tape.sell_accelerating;
            &&& entered ==> look.skipped is None && look.status == match (
            (look.entry->0).position->0).side {
                Side::Long => Status::Long,
                Side::Short => Status::Short,
            }
            &&& !entered ==> look.status == Status::Watch
            &&& !entered && balanced ==> look.skipped == Some(Reason::LowImbalance)
            &&& !entered && !balanced && calm ==> look.skipped == Some(Reason::NoAcceleration)
            &&& !entered && !balanced && !calm ==> look.skipped is None
        }),
{
    reveal(engine::look_at);
}

/// The account of a look counts the open positions, and takes its daily result and its losing
/// streak from every closed trade.
pub proof fn an_account_counts_its_own_trades(m: MarketView, settings: Settings, now: Double, i: int)
    requires
        0 <= i < m.closed.len(),
    ensures
        ({
            let results = engine::row_results(m.closed);
            let account = engine::account_at(m, settings, now);
            &&& results.len() == m.closed.len()
            &&& results[i] == m.closed[i].result
            &&& account.open_positions == m.positions.dom().len() as usize
            &&& account.daily_pnl == trading::daily_pnl(results, now)
            &&& account.losing_streak == trading::losing_streak(
                results,
                settings.max_consecutive_losses,
            )
        }),
{
}

/// Without a book nothing happens.
pub proof fn no_book_no_look(
    m: MarketView,
    settings: Settings,
    symbol: Seq<char>,
    now: Double,
    clock: Double,
)
    requires
        !m.books.dom().contains(symbol),
    ensures
        engine::evaluated(m, settings, symbol, now, clock) == m,
{
    reveal(engine::evaluated);
}

/// A look leaves its walls, as they were tracked, and what it saw on the radar.
#[verifier::spinoff_prover]
pub proof fn a_look_is_remembered(
    m: MarketView,
    settings: Settings,
    symbol: Seq<char>,
    now: Double,
    clock: Double,
)
    requires
        m.books.dom().contains(symbol),
    ensures
        ({
            let look = engine::look_at(m, settings, symbol, now);
            let after = engine::evaluated(m, settings, symbol, now, clock);
            &&& after.bid_walls.dom().contains(symbol) <==> look.bid_track is Some
            &&& look.bid_track is Some ==> after.bid_walls[symbol] == look.bid_track->0
            &&& after.ask_walls.dom().contains(symbol) <==> look.ask_track is Some
            &&& look.ask_track is Some ==> after.ask_walls[symbol] == look.ask_track->0
            &&& after.metrics.dom().contains(symbol)
            &&& after.metrics[symbol].status == look.status
            &&& after.metrics[symbol].price == look.metrics.mid
            &&& after.metrics[symbol].mid == look.metrics.mid
            &&& after.metrics[symbol].bid == look.metrics.bid
            &&& after.metrics[symbol].ask == look.metrics.ask
            &&& after.metrics[symbol].spread == look.metrics.spread
            &&& after.metrics[symbol].imbalance == look.metrics.imbalance
            &&& after.metrics[symbol].flow == look.metrics.flow
            &&& after.metrics[symbol].freshness == look.metrics.freshness
            &&& after.metrics[symbol].tape == look.metrics.tape
            &&& after.metrics[symbol].wall_threshold == look.metrics.wall_threshold
            &&& after.metrics[symbol].bid_wall <==> look.metrics.strongest_bid_wall is Some
            &&& after.metrics[symbol].ask_wall <==> look.metrics.strongest_ask_wall is Some
            &&& after.metrics[symbol].bid_absorption == look.bid_absorption
            &&& after.metrics[symbol].ask_absorption == look.ask_absorption
            &&& after.metrics[symbol].btc_trend == look.trend.direction
            &&& after.metrics[symbol].btc_trend_coverage == look.trend.coverage
            &&& after.metrics[symbol].btc_trend_pct == look.trend.change_pct.mul(
                Double::whole(100),
            )
        }),
{
    reveal(engine::evaluated);
}

/// What managing decided takes effect: a kept position stays as it was marked, a closed one is
/// gone, its result is the newest of the closed trades, and the symbol cools down from the
/// moment it was closed, longer after a loss. The waiting setup of the symbol is not touched.
#[verifier::spinoff_prover]
pub proof fn managing_takes_effect(
    m: MarketView,
    settings: Settings,
    symbol: Seq<char>,
    now: Double,
    clock: Double,
)
    requires
        m.books.dom().contains(symbol),
        m.positions.dom().contains(symbol),
    ensures
        ({
            let step = trading::manage_step(
                settings,
                m.positions[symbol],
                engine::look_at(m, settings, symbol, now).metrics,
                now,
            );
            let after = engine::evaluated(m, settings, symbol, now, clock);
            &&& after.positions.dom().contains(symbol) <==> step.position is Some
            &&& step.position is Some ==> after.positions[symbol] == step.position->0
            &&& after.pending_signals == m.pending_signals
            &&& step.closed is None ==> after.closed == m.closed && after.cooldowns == m.cooldowns
            &&& step.closed is Some ==> {
                let wait = if (step.closed->0).pnl.lt(Double::zero()) {
                    settings.loss_cooldown_seconds
                } else {
                    settings.cooldown_seconds
                };
                &&& after.closed.len() > 0
                &&& after.closed[0] == (ClosedRow { symbol, result: step.closed->0 })
                &&& after.cooldowns.dom().contains(symbol)
                &&& after.cooldowns[symbol] == (step.closed->0).closed_at.add(wait)
            }
            &&& step.notice is None ==> after.journal == m.journal
            &&& step.notice is Some ==> after.journal == notices::noted(
                m.journal,
                symbol,
                step.notice->0,
                clock,
            )
        }),
{
    reveal(engine::evaluated);
    an_open_position_is_managed(m, settings, symbol, now);
}

/// What trying an entry decided takes effect: the setup that waits is the one the try left, a new
/// position is open, and no trade is closed and no cooldown begins. What is said is the try's own
/// notice and then why the symbol was passed over.
#[verifier::spinoff_prover]
pub proof fn trying_takes_effect(
    m: MarketView,
    settings: Settings,
    symbol: Seq<char>,
    now: Double,
    clock: Double,
)
    requires
        m.books.dom().contains(symbol),
        !m.positions.dom().contains(symbol),
    ensures
        ({
            let look = engine::look_at(m, settings, symbol, now);
            let after = engine::evaluated(m, settings, symbol, now, clock);
            let step = look.entry->0;
            let told = if look.entry is Some && step.notice is Some {
                notices::noted(m.journal, symbol, step.notice->0, clock)
            } else {
                m.journal
            };
            &&& after.closed == m.closed
            &&& after.cooldowns == m.cooldowns
            &&& look.entry is None ==> after.positions == m.positions && after.pending_signals
                == m.pending_signals
            &&& look.entry is Some ==> {
                &&& after.pending_signals.dom().contains(symbol) <==> step.pending is Some
                &&& step.pending is Some ==> after.pending_signals[symbol] == step.pending->0
                &&& after.positions.dom().contains(symbol) <==> step.position is Some
                &&& step.position is Some ==> after.positions[symbol] == step.position->0
            }
            &&& look.skipped is None ==> after.journal == told
            &&& look.skipped is Some ==> after.journal == notices::noted(
                told,
                symbol,
                Notice::Skipped(look.skipped->0),
                clock,
            )
        }),
{
    reveal(engine::evaluated);
    an_open_position_is_managed(m, settings, symbol, now);
}

/// A look changes nothing of the radar list, the session, the source or the BTC history.
pub proof fn a_look_leaves_the_rest(
    m: MarketView,
    settings: Settings,
    symbol: Seq<char>,
    now: Double,
    clock: Double,
)
    ensures
        ({
            let after = engine::evaluated(m, settings, symbol, now, clock);
            &&& after.radar == m.radar
            &&& after.session == m.session
            &&& after.source == m.source
            &&& after.connections == m.connections
            &&& after.btc_mid_history == m.btc_mid_history
            &&& after.last_scan == m.last_scan
            &&& after.started_at == m.started_at
            &&& after.data_quality_errors == m.data_quality_errors
        }),
{
    reveal(engine::evaluated);
}

proof fn lemma_without(list: Seq<Seq<char>>, name: Seq<char>)
    ensures
        engine::without_btc(list).contains(name) <==> list.contains(name) && name != "BTCUSDT"@,
    decreases list.len(),
{
    if list.len() > 0 {
        let rest = list.drop_last();
        lemma_without(rest, name);
        let before = engine::without_btc(rest);
        assert(list.contains(name) <==> rest.contains(name) || name == list.last()) by {
            if list.contains(name) {
                let i = choose|i: int| 0 <= i < list.len() && list[i] == name;
                if i < rest.len() {
                    assert(rest[i] == name);
                }
            }
            if rest.contains(name) {
                let i = choose|i: int| 0 <= i < rest.len() && rest[i] == name;
                assert(list[i] == name);
            }
            assert(list[list.len() - 1] == list.last());
        }
        let next = before.push(list.last());
        assert(next.contains(name) <==> before.contains(name) || name == list.last()) by {
            if before.contains(name) {
                let i = choose|i: int| 0 <= i < before.len() && before[i] == name;
                assert(next[i] == name);
            }
            assert(next[before.len() as int] == list.last());
        }
    }
}

proof fn lemma_without_ascends(list: Seq<Seq<char>>)
    requires
        sorting::ascending(list),
    ensures
        sorting::ascending(engine::without_btc(list)),
    decreases list.len(),
{
    if list.len() > 0 {
        let rest = list.drop_last();
        assert forall|i: int, j: int| 0 <= i < j < rest.len() implies text::precedes(
            #[trigger] rest[i],
            #[trigger] rest[j],
        ) by {
            assert(text::precedes(list[i], list[j]));
        }
        lemma_without_ascends(rest);
        let before = engine::without_btc(rest);
        let next = before.push(list.last());
        assert forall|i: int, j: int| 0 <= i < j < next.len() implies text::precedes(
            #[trigger] next[i],
            #[trigger] next[j],
        ) by {
            assert(next[i] == before[i]);
            if j < before.len() {
                assert(next[j] == before[j]);
                assert(text::precedes(before[i], before[j]));
            } else {
                lemma_without(rest, before[i]);
                let k = choose|k: int| 0 <= k < rest.len() && rest[k] == before[i];
                assert(text::precedes(list[k], list[list.len() - 1]));
            }
        }
    }
}

/// A pass looks at every symbol with a book and at no other, at BTC before any other and at the
/// others in the order of their names. (`listed` is the symbols with books in that order.)
pub proof fn a_pass_goes_over_every_book(
    books: Set<Seq<char>>,
    listed: Seq<Seq<char>>,
    name: Seq<char>,
    i: int,
    j: int,
)
    requires
        sorting::is_listing(books, listed),
    ensures
        ({
            let order = engine::pass_order(books);
            &&& order.contains(name) <==> books.contains(name)
            &&& books.contains("BTCUSDT"@) ==> order[0] == "BTCUSDT"@
            &&& 0 <= i < j < order.len() && order[i] != "BTCUSDT"@ ==> text::precedes(
                order[i],
                order[j],
            )
        }),
{
    sorting::listing_is_unique(books, sorting::listing(books), listed);
    lemma_without(listed, name);
    lemma_without_ascends(listed);
    let rest = engine::without_btc(listed);
    let order = engine::pass_order(books);
    if books.contains("BTCUSDT"@) {
        assert(order =~= seq!["BTCUSDT"@] + rest);
        assert(order[0] == "BTCUSDT"@);
        if rest.contains(name) {
            let k = choose|k: int| 0 <= k < rest.len() && rest[k] == name;
            assert(order[k + 1] == name);
        }
        if order.contains(name) {
            let k = choose|k: int| 0 <= k < order.len() && order[k] == name;
            if k > 0 {
                assert(rest[k - 1] == name);
            }
        }
        if 0 < i < j < order.len() {
            assert(text::precedes(rest[i - 1], rest[j - 1]));
        }
    } else {
        assert(order =~= rest);
    }
}

/// A pass of another session than the last one forgets walls, waiting setups and the BTC history;
/// one of the same session forgets nothing. Positions, closed trades, books and tapes always
/// stay.
pub proof fn a_new_session_forgets_what_was_seen(m: MarketView, session: u64, now: Double)
    ensures
        ({
            let after = engine::pass_started(m, session, now);
            &&& session != m.session ==> {
                &&& after.bid_walls == Map::<Seq<char>, crate::models::WallTrack>::empty()
                &&& after.ask_walls == Map::<Seq<char>, crate::models::WallTrack>::empty()
                &&& after.pending_signals
                    == Map::<Seq<char>, crate::models::PendingSignal>::empty()
                &&& after.btc_mid_history.len() <= 1
            }
            &&& session == m.session ==> {
                &&& after.bid_walls == m.bid_walls
                &&& after.ask_walls == m.ask_walls
                &&& after.pending_signals == m.pending_signals
                &&& !m.books.dom().contains("BTCUSDT"@) ==> after.btc_mid_history
                    == m.btc_mid_history
            }
            &&& m.books.dom().contains("BTCUSDT"@) ==> after.btc_mid_history == brain::recorded(
                if session == m.session {
                    m.btc_mid_history
                } else {
                    Seq::empty()
                },
                Some(m.books["BTCUSDT"@]),
                now,
            )
            &&& after.positions == m.positions
            &&& after.closed == m.closed
            &&& after.books == m.books
            &&& after.trades == m.trades
            &&& after.cooldowns == m.cooldowns
            &&& after.journal == m.journal
        }),
{
    reveal_with_fuel(brain::from_moment, 3);
}

/// A pass begins its session and then looks at its symbols one after the other, each look at what
/// the last one left.
pub proof fn a_pass_takes_one_after_the_other(
    m: MarketView,
    settings: Settings,
    list: Seq<Seq<char>>,
    last: Seq<char>,
    session: u64,
    now: Double,
    clock: Double,
)
    ensures
        engine::evaluated_all(m, settings, Seq::empty(), now, clock) == m,
        engine::evaluated_all(m, settings, list.push(last), now, clock) == engine::evaluated(
            engine::evaluated_all(m, settings, list, now, clock),
            settings,
            last,
            now,
            clock,
        ),
        engine::passed(m, settings, session, now, clock) == engine::evaluated_all(
            engine::pass_started(m, session, now),
            settings,
            engine::pass_order(m.books.dom()),
            now,
            clock,
        ),
{
    assert(list.push(last).drop_last() =~= list);
}

} // verus!

//! What the journal, the closed trades and the tapes keep of what they are given.
use vstd::prelude::*;
use crate::decimal;
use crate::double::Double;
use crate::journal;
use crate::journal::{JournalView, LogLine};
use crate::models::{Side, TradeResult, TradeTick};
use crate::mtf_fvg::BarsView;
use crate::notices;
use crate::state;
use crate::state::{ClosedRow, MarketView};
use crate::text;
use crate::trading::{ExitDetail, Notice, Reason};

verus! {

/// A line that may be repeated at once is written before all others, with its own moment; the
/// others follow as they were, and of more than 180 the oldest is dropped. Nothing else but the
/// moment of the line is kept of it.
pub proof fn a_line_is_written_first(
    j: JournalView,
    level: Seq<char>,
    message: Seq<char>,
    symbol: Seq<char>,
    throttle: Double,
    clock: Double,
    i: int,
)
    requires
        !Double::zero().lt(throttle),
        j.logs.len() <= 180,
    ensures
        ({
            let after = journal::logged(j, level, message, symbol, throttle, clock);
            &&& after.logs[0] == (LogLine { level, message, symbol, timestamp: clock })
            &&& after.logs.len() == if j.logs.len() == 180 {
                180
            } else {
                j.logs.len() + 1
            }
            &&& 1 <= i < after.logs.len() ==> after.logs[i] == j.logs[i - 1]
            &&& after.reject_counts == j.reject_counts
            &&& after.notifier == j.notifier
        }),
{
}

/// A line with a waiting time is dropped, and leaves no trace, exactly when the same message for
/// the same symbol was written less than that time ago; one never written counts as written at
/// moment zero.
pub proof fn a_repeated_line_waits(
    j: JournalView,
    level: Seq<char>,
    message: Seq<char>,
    symbol: Seq<char>,
    throttle: Double,
    clock: Double,
)
    requires
        Double::zero().lt(throttle),
        j.logs.len() <= 180,
    ensures
        ({
            let after = journal::logged(j, level, message, symbol, throttle, clock);
            let key = symbol + ":"@ + message;
            let last = if j.throttle.dom().contains(key) {
                j.throttle[key]
            } else {
                Double::zero()
            };
            &&& clock.sub(last).lt(throttle) ==> after == j
            &&& !clock.sub(last).lt(throttle) ==> {
                &&& after.logs[0] == (LogLine { level, message, symbol, timestamp: clock })
                &&& after.throttle.dom().contains(key)
                &&& after.throttle[key] == clock
            }
        }),
{
}

/// A line remembers its moment for its own symbol and message and for no other.
pub proof fn lines_wait_for_themselves(
    j: JournalView,
    level: Seq<char>,
    message: Seq<char>,
    symbol: Seq<char>,
    throttle: Double,
    clock: Double,
    key: Seq<char>,
)
    requires
        key != symbol + ":"@ + message,
    ensures
        ({
            let after = journal::logged(j, level, message, symbol, throttle, clock);
            &&& after.throttle.dom().contains(key) <==> j.throttle.dom().contains(key)
            &&& j.throttle.dom().contains(key) ==> after.throttle[key] == j.throttle[key]
        }),
{
}

/// Written twice within its waiting time, a line stands in the journal once.
pub proof fn a_line_written_twice_stands_once(
    j: JournalView,
    level: Seq<char>,
    message: Seq<char>,
    symbol: Seq<char>,
    throttle: Double,
    clock: Double,
    later: Double,
)
    requires
        Double::zero().lt(throttle),
        later.sub(clock).lt(throttle),
        j.logs.len() <= 180,
        journal::logged(j, level, message, symbol, throttle, clock) != j,
    ensures
        ({
            let once = journal::logged(j, level, message, symbol, throttle, clock);
            journal::logged(once, level, message, symbol, throttle, later) == once
        }),
{
}

/// A refused entry is counted once under its reason, and no other count changes.
pub proof fn a_refusal_is_counted_once(
    j: JournalView,
    symbol: Seq<char>,
    reason: Seq<char>,
    clock: Double,
    other: Seq<char>,
)
    requires
        other != reason,
    ensures
        ({
            let after = journal::entry_rejected(j, symbol, reason, clock);
            &&& after.reject_counts.dom().contains(reason)
            &&& !j.reject_counts.dom().contains(reason) ==> after.reject_counts[reason] == 1
            &&& j.reject_counts.dom().contains(reason) && j.reject_counts[reason] < u64::MAX
                ==> after.reject_counts[reason] == j.reject_counts[reason] + 1
            &&& after.reject_counts.dom().contains(other) <==> j.reject_counts.dom().contains(
                other,
            )
            &&& j.reject_counts.dom().contains(other) ==> after.reject_counts[other]
                == j.reject_counts[other]
        }),
{
}

/// A refused entry is written as skipped, at most once in five seconds for a symbol and a
/// reason.
pub proof fn a_refusal_is_written(
    j: JournalView,
    symbol: Seq<char>,
    reason: Seq<char>,
    clock: Double,
)
    requires
        j.logs.len() <= 180,
    ensures
        ({
            let after = journal::entry_rejected(j, symbol, reason, clock);
            let message = "ENTRY REJECTED · "@ + reason;
            let key = symbol + ":"@ + message;
            let last = if j.throttle.dom().contains(key) {
                j.throttle[key]
            } else {
                Double::zero()
            };
            &&& clock.sub(last).lt(Double::whole(5)) ==> after.logs == j.logs
            &&& !clock.sub(last).lt(Double::whole(5)) ==> after.logs[0] == (LogLine {
                level: "SKIP"@,
                message,
                symbol,
                timestamp: clock,
            })
        }),
{
    lemma_five();
}

proof fn lemma_five()
    ensures
        Double::zero().lt(Double::whole(5)),
        Double::zero().lt(Double::whole(8)),
{
    crate::number_laws::whole_numbers_are_at_least_one(5);
    crate::number_laws::whole_numbers_are_at_least_one(8);
}

/// Every notice is written under its level: entries, exits, positions and setups always, and
/// symbols passed over at most once in eight seconds each for a reason.
pub proof fn notices_are_written_under_their_level(
    j: JournalView,
    symbol: Seq<char>,
    notice: Notice,
    clock: Double,
)
    requires
        j.logs.len() <= 180,
    ensures
        ({
            let after = notices::noted(j, symbol, notice, clock);
            let line = after.logs[0];
            &&& notice is Entry ==> line.level == "ENTRY"@
            &&& notice is Exit ==> line.level == "EXIT"@
            &&& notice is Status ==> line.level == "POSITION"@
            &&& notice is Setup ==> line.level == "SETUP"@
            &&& notice is Entry || notice is Exit || notice is Status || notice is Setup ==> {
                &&& line.symbol == symbol
                &&& line.timestamp == clock
                &&& line.message == notice.words()
                &&& after.reject_counts == j.reject_counts
            }
        }),
{
}

/// A symbol passed over is written as skipped at most once in eight seconds for a reason.
pub proof fn a_skip_is_written(
    j: JournalView,
    symbol: Seq<char>,
    reason: Reason,
    clock: Double,
)
    requires
        j.logs.len() <= 180,
    ensures
        ({
            let after = notices::noted(j, symbol, Notice::Skipped(reason), clock);
            let message = "TIMEOUT / SKIPPED · "@ + reason.words();
            let key = symbol + ":"@ + message;
            let last = if j.throttle.dom().contains(key) {
                j.throttle[key]
            } else {
                Double::zero()
            };
            &&& clock.sub(last).lt(Double::whole(8)) ==> after == j
            &&& !clock.sub(last).lt(Double::whole(8)) ==> after.logs[0] == (LogLine {
                level: "SKIP"@,
                message,
                symbol,
                timestamp: clock,
            }) && after.reject_counts == j.reject_counts
        }),
{
    lemma_five();
}

/// A refusal that is noted is a refusal that is counted, under its own words.
pub proof fn a_noted_refusal_is_counted(
    j: JournalView,
    symbol: Seq<char>,
    reason: Reason,
    clock: Double,
)
    ensures
        notices::noted(j, symbol, Notice::Rejected(reason), clock) == journal::entry_rejected(
            j,
            symbol,
            reason.words(),
            clock,
        ),
        notices::noted(j, symbol, Notice::Rejected(reason), clock).reject_counts.dom().contains(
            reason.words(),
        ),
{
}

proof fn lemma_longer(s: Seq<char>, whole: Seq<char>, t: Seq<char>)
    requires
        s.is_prefix_of(whole),
    ensures
        s.is_prefix_of(whole + t),
{
    assert((whole + t).subrange(0, s.len() as int) =~= whole.subrange(0, s.len() as int));
}

proof fn lemma_begins(
    s: Seq<char>,
    t1: Seq<char>,
    t2: Seq<char>,
    t3: Seq<char>,
    t4: Seq<char>,
    t5: Seq<char>,
    t6: Seq<char>,
    t7: Seq<char>,
    t8: Seq<char>,
    t9: Seq<char>,
    t10: Seq<char>,
    t11: Seq<char>,
    t12: Seq<char>,
    t13: Seq<char>,
)
    ensures
        s.is_prefix_of(
            s + t1 + t2 + t3 + t4 + t5 + t6 + t7 + t8 + t9 + t10 + t11 + t12 + t13,
        ),
{
    assert(s.subrange(0, s.len() as int) =~= s);
    lemma_longer(s, s, t1);
    lemma_longer(s, s + t1, t2);
    lemma_longer(s, s + t1 + t2, t3);
    lemma_longer(s, s + t1 + t2 + t3, t4);
    lemma_longer(s, s + t1 + t2 + t3 + t4, t5);
    lemma_longer(s, s + t1 + t2 + t3 + t4 + t5, t6);
    lemma_longer(s, s + t1 + t2 + t3 + t4 + t5 + t6, t7);
    lemma_longer(s, s + t1 + t2 + t3 + t4 + t5 + t6 + t7, t8);
    lemma_longer(s, s + t1 + t2 + t3 + t4 + t5 + t6 + t7 + t8, t9);
    lemma_longer(s, s + t1 + t2 + t3 + t4 + t5 + t6 + t7 + t8 + t9, t10);
    lemma_longer(s, s + t1 + t2 + t3 + t4 + t5 + t6 + t7 + t8 + t9 + t10, t11);
    lemma_longer(s, s + t1 + t2 + t3 + t4 + t5 + t6 + t7 + t8 + t9 + t10 + t11, t12);
    lemma_longer(s, s + t1 + t2 + t3 + t4 + t5 + t6 + t7 + t8 + t9 + t10 + t11 + t12, t13);
}

proof fn lemma_label(name: Seq<char>, side: Seq<char>)
    ensures
        name + " ["@ + "WIN"@ + "] "@ + side == name + " [WIN] "@ + side,
        name + " ["@ + "LOSS"@ + "] "@ + side == name + " [LOSS] "@ + side,
{
    reveal_strlit("WIN");
    reveal_strlit("LOSS");
    reveal_strlit(" [");
    reveal_strlit("] ");
    reveal_strlit(" [WIN] ");
    reveal_strlit(" [LOSS] ");
    assert(" ["@ + "WIN"@ + "] "@ =~= " [WIN] "@);
    assert(" ["@ + "LOSS"@ + "] "@ =~= " [LOSS] "@);
    assert(name + " ["@ + "WIN"@ + "] "@ =~= name + (" ["@ + "WIN"@ + "] "@));
    assert(name + " ["@ + "LOSS"@ + "] "@ =~= name + (" ["@ + "LOSS"@ + "] "@));
}

/// A closed trade is written as won exactly when something is left after fees, behind its reason
/// and before its side.
pub proof fn a_won_trade_is_written_as_won(result: TradeResult, detail: ExitDetail)
    ensures
        ({
            let words = notices::exit_words(result, detail);
            let won = result.reason.name() + " [WIN] "@ + result.side.name();
            let lost = result.reason.name() + " [LOSS] "@ + result.side.name();
            &&& Double::zero().lt(result.pnl) ==> won.is_prefix_of(words)
            &&& !Double::zero().lt(result.pnl) ==> lost.is_prefix_of(words)
        }),
{
    let name = result.reason.name();
    let side = result.side.name();
    lemma_label(name, side);
    let label = if result.pnl.gt(Double::zero()) {
        "WIN"@
    } else {
        "LOSS"@
    };
    lemma_begins(
        name + " ["@ + label + "] "@ + side,
        " · net "@,
        decimal::fixed_text(result.pnl, 2, true),
        " USDT · gross "@,
        decimal::fixed_text(result.gross_pnl, 2, true),
        " · fees "@,
        decimal::fixed_text(result.fees, 2, false),
        " · held "@,
        decimal::fixed_text(result.closed_at.sub(result.opened_at), 1, false),
        "s · MFE "@,
        decimal::fixed_text(result.mfe, 2, true),
        " / MAE "@,
        decimal::fixed_text(result.mae, 2, true),
        detail.words(),
    );
}

/// An opened position is told with its side, its price, its stop, its target and what it risks,
/// in this order.
pub proof fn an_entry_is_told_with_its_prices(
    side: Side,
    price: Double,
    stop: Double,
    target: Double,
    risk: Double,
    score: i64,
    net_rr: Double,
)
    ensures
        ({
            let words = (Notice::Entry { side, price, stop, target, risk, score, net_rr }).words();
            let start = "Paper "@ + side.name() + " @ "@ + decimal::fixed_text(price, 6, false)
                + " · stop "@ + decimal::fixed_text(stop, 6, false) + " · target "@
                + decimal::fixed_text(target, 6, false) + " · risk "@ + decimal::fixed_text(
                risk,
                2,
                false,
            );
            start.is_prefix_of(words)
        }),
{
    let start = "Paper "@ + side.name() + " @ "@ + decimal::fixed_text(price, 6, false)
        + " · stop "@ + decimal::fixed_text(stop, 6, false) + " · target "@
        + decimal::fixed_text(target, 6, false) + " · risk "@ + decimal::fixed_text(
        risk,
        2,
        false,
    );
    assert(start.subrange(0, start.len() as int) =~= start);
    let a = start + " USDT · breakout-retest · score "@;
    lemma_longer(start, start, " USDT · breakout-retest · score "@);
    let b = a + text::signed_digits(score as int);
    lemma_longer(start, a, text::signed_digits(score as int));
    lemma_longer(start, b, "/100 · net R/R "@);
    lemma_longer(start, b + "/100 · net R/R "@, decimal::fixed_text(net_rr, 2, false));
}

/// What stands in the way of an entry is said in words of its own.
pub proof fn reasons_are_said_in_words(reason: Reason)
    ensures
        match reason {
            Reason::PositionLimit => reason.words() == "portfolio position limit"@,
            Reason::DailyLoss => reason.words() == "daily loss circuit breaker"@,
            Reason::LossStreak => reason.words() == "loss-streak circuit breaker"@,
            Reason::Confluence { score, needed } => {
                let start = "confluence "@ + text::signed_digits(score as int) + "/100 below "@;
                reason.words() == start + text::signed_digits(needed as int)
            },
            Reason::Expired => reason.words() == "setup expired before retest"@,
            Reason::RewardRisk { net_rr } => "after-cost R/R "@.is_prefix_of(reason.words()),
            Reason::StaleBook => reason.words() == "stale book"@,
            Reason::SpreadExpanded => reason.words() == "spread expanded"@,
            Reason::LowImbalance => reason.words() == "low imbalance"@,
            Reason::NoAcceleration => reason.words() == "no 3x tape acceleration"@,
        },
{
    match reason {
        Reason::RewardRisk { net_rr } => {
            let start = "after-cost R/R "@;
            assert(start.subrange(0, start.len() as int) =~= start);
            lemma_longer(start, start, decimal::fixed_text(net_rr, 2, false));
        },
        _ => {},
    }
}

/// A closed trade is put before all others, which follow as they were; of more than a thousand
/// the oldest is dropped.
pub proof fn a_closed_trade_is_put_first(closed: Seq<ClosedRow>, row: ClosedRow, i: int)
    requires
        closed.len() <= 1000,
    ensures
        ({
            let after = state::with_closed(closed, row);
            &&& after[0] == row
            &&& after.len() == if closed.len() == 1000 {
                1000
            } else {
                closed.len() + 1
            }
            &&& 1 <= i < after.len() ==> after[i] == closed[i - 1]
        }),
{
}

/// A trade goes to the end of the tape of its symbol, in the order in which trades came; of more
/// than 1200 the first is dropped. It also enters the candles of its symbol, and nothing of any
/// other symbol changes.
pub proof fn a_trade_goes_to_the_end_of_its_tape(
    m: MarketView,
    symbol: Seq<char>,
    tick: TradeTick,
    other: Seq<char>,
    i: int,
)
    requires
        other != symbol,
        m.trades.dom().contains(symbol),
        m.trades[symbol].len() <= 1200,
    ensures
        ({
            let after = m.ticked(symbol, tick);
            let old = m.trades[symbol];
            let new = after.trades[symbol];
            &&& after.trades.dom().contains(symbol)
            &&& new.len() == if old.len() == 1200 {
                1200
            } else {
                old.len() + 1
            }
            &&& new[new.len() - 1] == tick
            &&& 1 <= i < new.len() ==> new[new.len() - 1 - i] == old[old.len() - i]
            &&& after.mtf_bars.dom().contains(symbol)
            &&& m.mtf_bars.dom().contains(symbol) ==> after.mtf_bars[symbol]
                == m.mtf_bars[symbol].ticked(tick)
            &&& !m.mtf_bars.dom().contains(symbol) ==> after.mtf_bars[symbol]
                == BarsView::empty().ticked(tick)
            &&& after.trades.dom().contains(other) <==> m.trades.dom().contains(other)
            &&& m.trades.dom().contains(other) ==> after.trades[other] == m.trades[other]
            &&& m.mtf_bars.dom().contains(other) ==> after.mtf_bars[other] == m.mtf_bars[other]
            &&& after.books == m.books
            &&& after.positions == m.positions
            &&& after.closed == m.closed
        }),
{
}

/// The first trade of a symbol is alone on its tape.
pub proof fn a_first_trade_begins_a_tape(m: MarketView, symbol: Seq<char>, tick: TradeTick)
    requires
        !m.trades.dom().contains(symbol),
    ensures
        m.ticked(symbol, tick).trades[symbol] == seq![tick],
{
    assert(m.ticked(symbol, tick).trades[symbol] =~= seq![tick]);
}

} // verus!

//! What messages say and which of them are sent.
use vstd::prelude::*;
use vstd::utf8::encode_utf8;
use crate::decimal;
use crate::double::Double;
use crate::messages;
use crate::messages::{EntryNotification, ExitNotification};
use crate::parsing;
use crate::recorder;
use crate::sorting;
use crate::telegram;
use crate::telegram::{NotifierView, RejectionRow};
use crate::text;
use crate::text::Edge;

verus! {

/// Messages are sent only with a token and a chat that are not blank, and then with these; the
/// refusals are summed up every five minutes where nothing else is said and never more often than
/// every half minute.
pub proof fn messages_need_a_token_and_a_chat(env: Map<Seq<char>, String>)
    ensures
        ({
            let token = text::stripped(env["TELEGRAM_BOT_TOKEN"@]@, Edge::Space);
            let chat = text::stripped(env["TELEGRAM_CHAT_ID"@]@, Edge::Space);
            let given = env.dom().contains("TELEGRAM_BOT_TOKEN"@) && env.dom().contains(
                "TELEGRAM_CHAT_ID"@,
            ) && token.len() > 0 && chat.len() > 0;
            let every = env.dom().contains("TELEGRAM_REJECT_SUMMARY_SECONDS"@);
            match messages::configured(env) {
                Some(c) => {
                    &&& given
                    &&& c.token == token
                    &&& c.chat_id == chat
                    &&& c.rejection_summary_seconds >= 30
                    &&& !every ==> c.rejection_summary_seconds == 300
                    &&& every ==> match parsing::unsigned_of(
                        env["TELEGRAM_REJECT_SUMMARY_SECONDS"@]@,
                    ) {
                        Some(n) => n >= 30 ==> c.rejection_summary_seconds == n,
                        None => c.rejection_summary_seconds == 300,
                    }
                    &&& env.dom().contains("TELEGRAM_THREAD_ID"@) ==> c.thread_id
                        == parsing::signed_of(
                        text::stripped(env["TELEGRAM_THREAD_ID"@]@, Edge::Space),
                    )
                    &&& !env.dom().contains("TELEGRAM_THREAD_ID"@) ==> c.thread_id is None
                    &&& !env.dom().contains("TELEGRAM_NOTIFY_REJECTIONS"@) ==> c.notify_rejections
                    &&& !env.dom().contains("TELEGRAM_NOTIFY_STARTUP"@) ==> c.notify_startup
                    &&& env.dom().contains("TELEGRAM_NOTIFY_REJECTIONS"@) ==> (c.notify_rejections
                        <==> crate::setting_laws::says_yes(env["TELEGRAM_NOTIFY_REJECTIONS"@]@))
                    &&& env.dom().contains("TELEGRAM_NOTIFY_STARTUP"@) ==> (c.notify_startup
                        <==> crate::setting_laws::says_yes(env["TELEGRAM_NOTIFY_STARTUP"@]@))
                },
                None => !given,
            }
        }),
{
}

/// A refusal is counted in the row of its symbol and reason, which is new with a count of one
/// where there is none; no other row changes.
pub proof fn a_refusal_is_counted_in_its_row(
    rows: Seq<RejectionRow>,
    symbol: Seq<char>,
    reason: Seq<char>,
    i: int,
)
    requires
        forall|a: int, b: int|
            0 <= a < b < rows.len() ==> (#[trigger] rows[a]).symbol != (#[trigger] rows[b]).symbol
                || rows[a].reason != rows[b].reason,
    ensures
        ({
            let after = telegram::with_rejection(rows, symbol, reason);
            let own = |r: RejectionRow| r.symbol == symbol && r.reason == reason;
            &&& 0 <= i < rows.len() ==> after[i].symbol == rows[i].symbol && after[i].reason
                == rows[i].reason
            &&& 0 <= i < rows.len() && !own(rows[i]) ==> after[i].count == rows[i].count
            &&& 0 <= i < rows.len() && own(rows[i]) && rows[i].count < u64::MAX ==> after[i].count
                == rows[i].count + 1 && after.len() == rows.len()
            &&& (forall|k: int| 0 <= k < rows.len() ==> !own(#[trigger] rows[k])) ==> after
                == rows.push(RejectionRow { symbol, reason, count: 1 })
        }),
{
    if exists|k: int| telegram::is_row(rows, symbol, reason, k) {
        let k = choose|k: int| telegram::is_row(rows, symbol, reason, k);
        if 0 <= i < rows.len() && rows[i].symbol == symbol && rows[i].reason == reason {
            if i < k {
                assert(!(rows[i].symbol == symbol && rows[i].reason == reason));
            } else if k < i {
                assert(rows[k].symbol != rows[i].symbol || rows[k].reason != rows[i].reason);
            }
        }
    } else if 0 <= i < rows.len() && rows[i].symbol == symbol && rows[i].reason == reason {
        lemma_first_row(rows, symbol, reason, i);
    }
}

proof fn lemma_first_row(rows: Seq<RejectionRow>, symbol: Seq<char>, reason: Seq<char>, i: int)
    requires
        0 <= i < rows.len(),
        rows[i].symbol == symbol && rows[i].reason == reason,
    ensures
        exists|k: int| telegram::is_row(rows, symbol, reason, k),
    decreases i,
{
    if exists|j: int|
        0 <= j < i && (#[trigger] rows[j]).symbol == symbol && rows[j].reason == reason {
        let j = choose|j: int|
            0 <= j < i && (#[trigger] rows[j]).symbol == symbol && rows[j].reason == reason;
        lemma_first_row(rows, symbol, reason, j);
    } else {
        assert(telegram::is_row(rows, symbol, reason, i));
    }
}

/// A refusal is noted only where that is wanted, with its symbol cut to 32 bytes and its reason
/// to 180; the messages that wait are not touched.
pub proof fn refusals_are_noted_where_wanted(
    n: NotifierView,
    symbol: Seq<char>,
    reason: Seq<char>,
)
    ensures
        ({
            let after = telegram::rejected(n, symbol, reason);
            &&& !n.notify_rejections ==> after == n
            &&& n.notify_rejections ==> after.rejections == telegram::with_rejection(
                n.rejections,
                telegram::truncated(symbol, 32),
                telegram::truncated(reason, 180),
            )
            &&& after.outbox == n.outbox
            &&& after.notify_rejections == n.notify_rejections
            &&& telegram::rejection_noted(None, symbol, reason) is None
            &&& telegram::rejection_noted(Some(n), symbol, reason) == Some(after)
        }),
{
}

/// A message waits behind those that wait already.
pub proof fn messages_wait_in_order(n: NotifierView, message: Seq<char>)
    ensures
        ({
            let after = telegram::message_queued(Some(n), message);
            &&& after is Some
            &&& (after->0).outbox == n.outbox.push(message)
            &&& (after->0).rejections == n.rejections
            &&& telegram::message_queued(None, message) is None
        }),
{
}

/// A text is cut to its longest beginning of whole characters that fits.
pub proof fn a_cut_text_is_the_longest_that_fits(value: Seq<char>, max_bytes: int, k: int)
    requires
        max_bytes >= 0,
    ensures
        ({
            let cut = telegram::truncated(value, max_bytes);
            &&& cut.is_prefix_of(value)
            &&& encode_utf8(cut).len() <= max_bytes
            &&& cut.len() < k <= value.len() ==> encode_utf8(value.take(k)).len() > max_bytes
            &&& encode_utf8(value).len() <= max_bytes ==> cut == value
        }),
{
    telegram::truncation_is_longest_fit(value, max_bytes);
    let n = telegram::fitting(value, max_bytes) as int;
    let cut = telegram::truncated(value, max_bytes);
    assert(cut =~= value.subrange(0, n));
    if n < value.len() {
        assert(value.take(value.len() as int) =~= value);
    } else {
        assert(cut =~= value);
    }
}

/// A closed trade is told as a gain exactly when it brought something, as a loss exactly when it
/// cost something, and as even else.
pub proof fn a_result_is_told_by_its_sign(pnl: Double)
    ensures
        Double::zero().lt(pnl) ==> messages::result_word(pnl) == "ПРИБЫЛЬ"@,
        pnl.lt(Double::zero()) ==> messages::result_word(pnl) == "УБЫТОК"@,
        !Double::zero().lt(pnl) && !pnl.lt(Double::zero()) ==> messages::result_word(pnl)
            == "БЕЗУБЫТОК"@,
{
}

proof fn lemma_longer(s: Seq<char>, whole: Seq<char>, t: Seq<char>)
    requires
        s.is_prefix_of(whole),
    ensures
        s.is_prefix_of(whole + t),
{
    assert((whole + t).subrange(0, s.len() as int) =~= whole.subrange(0, s.len() as int));
}

/// The message of an opened position gives its symbol and side, then price, quantity, stop and
/// target in this order.
pub proof fn an_opening_is_told_with_its_prices(e: EntryNotification<'_>)
    ensures
        ({
            let start = "ОТКРЫТА PAPER-СДЕЛКА\n\n"@ + e.symbol@ + " "@ + e.side@
                + "\nВход: "@ + decimal::fixed_text(e.entry, 6, false) + "\nКоличество: "@
                + decimal::fixed_text(e.quantity, 6, false) + "\nСтоп: "@
                + decimal::fixed_text(e.stop, 6, false) + "\nЦель: "@
                + decimal::fixed_text(e.target, 6, false);
            start.is_prefix_of(messages::entry_text(e))
        }),
{
    let start = "ОТКРЫТА PAPER-СДЕЛКА\n\n"@ + e.symbol@ + " "@ + e.side@ + "\nВход: "@
        + decimal::fixed_text(e.entry, 6, false) + "\nКоличество: "@
        + decimal::fixed_text(e.quantity, 6, false) + "\nСтоп: "@
        + decimal::fixed_text(e.stop, 6, false) + "\nЦель: "@
        + decimal::fixed_text(e.target, 6, false);
    assert(start.subrange(0, start.len() as int) =~= start);
    lemma_longer(start, start, "\nРиск: "@);
    let t1 = start + "\nРиск: "@;
    lemma_longer(start, t1, decimal::fixed_text(e.risk_budget, 2, false));
    let t2 = t1 + decimal::fixed_text(e.risk_budget, 2, false);
    lemma_longer(start, t2, " USDT\nNet R/R: "@);
    let t3 = t2 + " USDT\nNet R/R: "@;
    lemma_longer(start, t3, decimal::fixed_text(e.net_rr, 2, false));
    let t4 = t3 + decimal::fixed_text(e.net_rr, 2, false);
    lemma_longer(start, t4, "\nЦель: "@);
    let t5 = t4 + "\nЦель: "@;
    lemma_longer(start, t5, decimal::fixed_text(e.target_r, 2, false));
    let t6 = t5 + decimal::fixed_text(e.target_r, 2, false);
    lemma_longer(start, t6, "R"@);
}

/// The message of a closed position gives how it ended, its symbol, side and reason, its prices
/// and then what is left of it after fees.
pub proof fn a_closing_is_told_with_its_result(e: ExitNotification<'_>)
    ensures
        ({
            let start = "ЗАКРЫТА PAPER-СДЕЛКА ["@ + messages::result_word(e.pnl)
                + "]\n\n"@ + e.symbol@ + " "@ + e.side@ + "\nПричина: "@ + e.reason@
                + "\nВход: "@ + decimal::fixed_text(e.entry, 6, false) + "\nВыход: "@
                + decimal::fixed_text(e.exit, 6, false) + "\nNet PnL: "@
                + decimal::fixed_text(e.pnl, 2, true);
            start.is_prefix_of(messages::exit_text(e))
        }),
{
    let start = "ЗАКРЫТА PAPER-СДЕЛКА ["@ + messages::result_word(e.pnl) + "]\n\n"@
        + e.symbol@ + " "@ + e.side@ + "\nПричина: "@ + e.reason@ + "\nВход: "@
        + decimal::fixed_text(e.entry, 6, false) + "\nВыход: "@
        + decimal::fixed_text(e.exit, 6, false) + "\nNet PnL: "@
        + decimal::fixed_text(e.pnl, 2, true);
    assert(start.subrange(0, start.len() as int) =~= start);
    lemma_longer(start, start, " USDT\nGross PnL: "@);
    let t1 = start + " USDT\nGross PnL: "@;
    lemma_longer(start, t1, decimal::fixed_text(e.gross_pnl, 2, true));
    let t2 = t1 + decimal::fixed_text(e.gross_pnl, 2, true);
    lemma_longer(start, t2, " USDT\nКомиссии: "@);
    let t3 = t2 + " USDT\nКомиссии: "@;
    lemma_longer(start, t3, decimal::fixed_text(e.fees, 2, false));
    let t4 = t3 + decimal::fixed_text(e.fees, 2, false);
    lemma_longer(start, t4, " USDT\nУдержание: "@);
    let t5 = t4 + " USDT\nУдержание: "@;
    lemma_longer(start, t5, decimal::fixed_text(e.held_seconds, 0, false));
    let t6 = t5 + decimal::fixed_text(e.held_seconds, 0, false);
    lemma_longer(start, t6, " сек\nMFE / MAE: "@);
    let t7 = t6 + " сек\nMFE / MAE: "@;
    lemma_longer(start, t7, decimal::fixed_text(e.mfe, 2, true));
    let t8 = t7 + decimal::fixed_text(e.mfe, 2, true);
    lemma_longer(start, t8, " / "@);
    let t9 = t8 + " / "@;
    lemma_longer(start, t9, decimal::fixed_text(e.mae, 2, true));
    let t10 = t9 + decimal::fixed_text(e.mae, 2, true);
    lemma_longer(start, t10, " USDT"@);
}

/// A summary takes the refusals by falling count, each once.
pub proof fn a_summary_begins_with_the_most_frequent(rows: Seq<RejectionRow>, i: int, j: int)
    requires
        rows.len() <= usize::MAX,
    ensures
        ({
            let sorted = messages::by_count(rows);
            &&& sorted.len() == rows.len()
            &&& 0 <= i < rows.len() ==> sorted.contains(rows[i])
            &&& 0 <= i < j < sorted.len() ==> sorted[i].count >= sorted[j].count
        }),
{
    let keys = messages::count_keys(rows);
    let places = sorting::order(keys);
    let sorted = messages::by_count(rows);
    sorting::every_list_has_an_order(keys);
    if 0 <= i < rows.len() {
        assert(places.contains(i as usize));
        let p = choose|p: int| 0 <= p < places.len() && places[p] == i as usize;
        assert(sorted[p] == rows[i]);
    }
    if 0 <= i < j < sorted.len() {
        assert(sorting::before(keys, places[i], places[j]));
    }
}

/// The total of a summary counts every row.
pub proof fn a_total_counts_every_row(rows: Seq<RejectionRow>, row: RejectionRow)
    requires
        messages::total_count(rows) + row.count <= u64::MAX,
    ensures
        messages::total_count(Seq::empty()) == 0,
        messages::total_count(rows.push(row)) == messages::total_count(rows) + row.count,
{
    assert(rows.push(row).drop_last() =~= rows);
}

/// The lines of a summary are added one by one, in order, as long as 4016 bytes are not exceeded,
/// and after the first that does not fit there is none.
pub proof fn lines_are_added_while_they_fit(start: Seq<char>, rows: Seq<RejectionRow>)
    requires
        rows.len() > 0,
    ensures
        ({
            let line = "\n"@ + rows[0].symbol + ": "@ + rows[0].reason + " × "@ + text::digits(
                rows[0].count as nat,
            );
            let fits = encode_utf8(start).len() + encode_utf8(line).len() <= 4016;
            &&& messages::with_groups(start, Seq::empty()) == start
            &&& fits ==> messages::with_groups(start, rows) == messages::with_groups(
                start + line,
                rows.drop_first(),
            )
            &&& !fits ==> messages::with_groups(start, rows) == start
        }),
{
}

/// A sweep deletes the oldest segments first and no more than it must: within the budget nothing
/// is deleted, and of a segment that could not be deleted nothing is taken off.
pub proof fn a_sweep_stops_within_the_budget(
    total: u64,
    files: Seq<(u64, bool)>,
    budget: u64,
)
    ensures
        total <= budget ==> recorder::left_after(total, files, budget) == total,
        recorder::left_after(total, files, budget) <= total,
        files.len() > 0 && total > budget && !files[0].1 ==> recorder::left_after(
            total,
            files,
            budget,
        ) == recorder::left_after(total, files.drop_first(), budget),
        files.len() > 0 && total > budget && files[0].1 && files[0].0 <= total
            ==> recorder::left_after(total, files, budget) == recorder::left_after(
            (total - files[0].0) as u64,
            files.drop_first(),
            budget,
        ),
    decreases files.len(),
{
    if files.len() > 0 && total > budget {
        let next = if files[0].1 {
            recorder::without(total, files[0].0)
        } else {
            total
        };
        a_sweep_stops_within_the_budget(next, files.drop_first(), budget);
    }
}

/// The size of the segments together is the sum of their sizes.
pub proof fn sizes_add_up(sizes: Seq<u64>, size: u64)
    requires
        recorder::total_of(sizes) + size <= u64::MAX,
    ensures
        recorder::total_of(Seq::empty()) == 0,
        recorder::total_of(sizes.push(size)) == recorder::total_of(sizes) + size,
{
    assert(sizes.push(size).drop_last() =~= sizes);
}

} // verus!

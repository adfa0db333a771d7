//! What the messenger is told, and whether and how often.
use vstd::prelude::*;
use vstd::string::*;
use vstd::utf8::*;
use crate::config;
use crate::decimal;
use crate::double::Double;
use crate::parsing;
use crate::sorting;
use crate::table::Table;
use crate::telegram;
use crate::telegram::{Notifier, NotifierView, Rejection, RejectionRow, TELEGRAM_MESSAGE_LIMIT};
use crate::text;
use crate::text::Edge;

verus! {

/// Where messages go, and which ones are sent.
#[derive(Debug)]
pub struct TelegramConfig {
    pub token: String,
    pub chat_id: String,
    pub thread_id: Option<i64>,
    pub rejection_summary_seconds: u64,
    pub notify_rejections: bool,
    pub notify_startup: bool,
}

/// A configuration by its contents.
#[verifier::ext_equal]
pub struct TelegramConfigView {
    pub token: Seq<char>,
    pub chat_id: Seq<char>,
    pub thread_id: Option<i64>,
    pub rejection_summary_seconds: u64,
    pub notify_rejections: bool,
    pub notify_startup: bool,
}

/// The configuration that the environment asks for: none without a token and a chat.
pub open spec fn configured(env: Map<Seq<char>, String>) -> Option<TelegramConfigView> {
    match (
        config::variable(env, "TELEGRAM_BOT_TOKEN"@),
        config::variable(env, "TELEGRAM_CHAT_ID"@),
    ) {
        (Some(token), Some(chat_id)) => {
            let token = text::stripped(token, Edge::Space);
            let chat_id = text::stripped(chat_id, Edge::Space);
            let seconds = config::count_or(env, "TELEGRAM_REJECT_SUMMARY_SECONDS"@, 300);
            if token.len() == 0 || chat_id.len() == 0 {
                None
            } else {
                Some(
                    TelegramConfigView {
                        token,
                        chat_id,
                        thread_id: match config::variable(env, "TELEGRAM_THREAD_ID"@) {
                            Some(value) => parsing::signed_of(text::stripped(value, Edge::Space)),
                            None => None,
                        },
                        rejection_summary_seconds: if seconds > 30 {
                            seconds
                        } else {
                            30
                        },
                        notify_rejections: config::flag_or(
                            env,
                            "TELEGRAM_NOTIFY_REJECTIONS"@,
                            true,
                        ),
                        notify_startup: config::flag_or(env, "TELEGRAM_NOTIFY_STARTUP"@, true),
                    },
                )
            }
        },
        _ => None,
    }
}

/// An optional configuration by its contents.
pub open spec fn config_view(c: Option<TelegramConfig>) -> Option<TelegramConfigView> {
    match c {
        Some(c) => Some(c@),
        None => None,
    }
}

impl TelegramConfig {
    pub open spec fn view(&self) -> TelegramConfigView {
        TelegramConfigView {
            token: self.token@,
            chat_id: self.chat_id@,
            thread_id: self.thread_id,
            rejection_summary_seconds: self.rejection_summary_seconds,
            notify_rejections: self.notify_rejections,
            notify_startup: self.notify_startup,
        }
    }

    /// Reads the configuration from the environment's variables.
    pub fn from_env(env: &Table<String>) -> (r: Option<TelegramConfig>)
        ensures
            config_view(r) == configured(env@),
            r is Some ==> (r->0).rejection_summary_seconds >= 30,
    {
        let token = match env.get("TELEGRAM_BOT_TOKEN") {
            Some(value) => text::strip(value.as_str(), Edge::Space),
            None => {
                return None;
            },
        };
        let chat_id = match env.get("TELEGRAM_CHAT_ID") {
            Some(value) => text::strip(value.as_str(), Edge::Space),
            None => {
                return None;
            },
        };
        if token.unicode_len() == 0 || chat_id.unicode_len() == 0 {
            return None;
        }
        let seconds = config::env_count(env, "TELEGRAM_REJECT_SUMMARY_SECONDS", 300);
        Some(
            TelegramConfig {
                token: token.to_owned(),
                chat_id: chat_id.to_owned(),
                thread_id: match env.get("TELEGRAM_THREAD_ID") {
                    Some(value) => parsing::parse_signed(text::strip(value.as_str(), Edge::Space)),
                    None => None,
                },
                rejection_summary_seconds: if seconds > 30 {
                    seconds
                } else {
                    30
                },
                notify_rejections: config::env_flag(env, "TELEGRAM_NOTIFY_REJECTIONS", true),
                notify_startup: config::env_flag(env, "TELEGRAM_NOTIFY_STARTUP", true),
            },
        )
    }
}

/// A position that was opened.
#[derive(Debug)]
pub struct EntryNotification<'a> {
    pub symbol: &'a str,
    pub side: &'a str,
    pub entry: Double,
    pub quantity: Double,
    pub stop: Double,
    pub target: Double,
    pub risk_budget: Double,
    pub net_rr: Double,
    pub target_r: Double,
}

/// A position that was closed.
#[derive(Debug)]
pub struct ExitNotification<'a> {
    pub symbol: &'a str,
    pub side: &'a str,
    pub reason: &'a str,
    pub entry: Double,
    pub exit: Double,
    pub pnl: Double,
    pub gross_pnl: Double,
    pub fees: Double,
    pub held_seconds: Double,
    pub mfe: Double,
    pub mae: Double,
}

/// The message about a position that was opened.
pub open spec fn entry_text(e: EntryNotification<'_>) -> Seq<char> {
    "ОТКРЫТА PAPER-СДЕЛКА\n\n"@ + e.symbol@ + " "@ + e.side@ + "\nВход: "@ + decimal::fixed_text(
        e.entry,
        6,
        false,
    ) + "\nКоличество: "@ + decimal::fixed_text(e.quantity, 6, false) + "\nСтоп: "@
        + decimal::fixed_text(e.stop, 6, false) + "\nЦель: "@ + decimal::fixed_text(
        e.target,
        6,
        false,
    ) + "\nРиск: "@ + decimal::fixed_text(e.risk_budget, 2, false) + " USDT\nNet R/R: "@
        + decimal::fixed_text(e.net_rr, 2, false) + "\nЦель: "@ + decimal::fixed_text(
        e.target_r,
        2,
        false,
    ) + "R"@
}

/// The word for a result.
pub open spec fn result_word(pnl: Double) -> Seq<char> {
    if pnl.gt(Double::zero()) {
        "ПРИБЫЛЬ"@
    } else if pnl.lt(Double::zero()) {
        "УБЫТОК"@
    } else {
        "БЕЗУБЫТОК"@
    }
}

/// The message about a position that was closed.
pub open spec fn exit_text(e: ExitNotification<'_>) -> Seq<char> {
    "ЗАКРЫТА PAPER-СДЕЛКА ["@ + result_word(e.pnl) + "]\n\n"@ + e.symbol@ + " "@ + e.side@
        + "\nПричина: "@ + e.reason@ + "\nВход: "@ + decimal::fixed_text(e.entry, 6, false)
        + "\nВыход: "@ + decimal::fixed_text(e.exit, 6, false) + "\nNet PnL: "@
        + decimal::fixed_text(e.pnl, 2, true) + " USDT\nGross PnL: "@ + decimal::fixed_text(
        e.gross_pnl,
        2,
        true,
    ) + " USDT\nКомиссии: "@ + decimal::fixed_text(e.fees, 2, false) + " USDT\nУдержание: "@
        + decimal::fixed_text(e.held_seconds, 0, false) + " сек\nMFE / MAE: "@
        + decimal::fixed_text(e.mfe, 2, true) + " / "@ + decimal::fixed_text(e.mae, 2, true)
        + " USDT"@
}

/// Reports a position that was opened, if there is a notifier.
pub fn notify_entry(notifier: &mut Option<Notifier>, event: EntryNotification<'_>)
    ensures
        telegram::notifier_view(*final(notifier)) == telegram::message_queued(
            telegram::notifier_view(*old(notifier)),
            entry_text(event),
        ),
{
    let mut message = "ОТКРЫТА PAPER-СДЕЛКА\n\n".to_owned();
    message.append(event.symbol);
    message.append(" ");
    message.append(event.side);
    message.append("\nВход: ");
    message.append(decimal::fixed(event.entry, 6, false).as_str());
    message.append("\nКоличество: ");
    message.append(decimal::fixed(event.quantity, 6, false).as_str());
    message.append("\nСтоп: ");
    message.append(decimal::fixed(event.stop, 6, false).as_str());
    message.append("\nЦель: ");
    message.append(decimal::fixed(event.target, 6, false).as_str());
    message.append("\nРиск: ");
    message.append(decimal::fixed(event.risk_budget, 2, false).as_str());
    message.append(" USDT\nNet R/R: ");
    message.append(decimal::fixed(event.net_rr, 2, false).as_str());
    message.append("\nЦель: ");
    message.append(decimal::fixed(event.target_r, 2, false).as_str());
    message.append("R");
    telegram::send_immediate(notifier, message);
}

/// Reports a position that was closed, if there is a notifier.
pub fn notify_exit(notifier: &mut Option<Notifier>, event: ExitNotification<'_>)
    ensures
        telegram::notifier_view(*final(notifier)) == telegram::message_queued(
            telegram::notifier_view(*old(notifier)),
            exit_text(event),
        ),
{
    let word = if event.pnl.gt(Double::zero()) {
        "ПРИБЫЛЬ"
    } else if event.pnl.lt(Double::zero()) {
        "УБЫТОК"
    } else {
        "БЕЗУБЫТОК"
    };
    let mut message = "ЗАКРЫТА PAPER-СДЕЛКА [".to_owned();
    message.append(word);
    message.append("]\n\n");
    message.append(event.symbol);
    message.append(" ");
    message.append(event.side);
    message.append("\nПричина: ");
    message.append(event.reason);
    message.append("\nВход: ");
    message.append(decimal::fixed(event.entry, 6, false).as_str());
    message.append("\nВыход: ");
    message.append(decimal::fixed(event.exit, 6, false).as_str());
    message.append("\nNet PnL: ");
    message.append(decimal::fixed(event.pnl, 2, true).as_str());
    message.append(" USDT\nGross PnL: ");
    message.append(decimal::fixed(event.gross_pnl, 2, true).as_str());
    message.append(" USDT\nКомиссии: ");
    message.append(decimal::fixed(event.fees, 2, false).as_str());
    message.append(" USDT\nУдержание: ");
    message.append(decimal::fixed(event.held_seconds, 0, false).as_str());
    message.append(" сек\nMFE / MAE: ");
    message.append(decimal::fixed(event.mfe, 2, true).as_str());
    message.append(" / ");
    message.append(decimal::fixed(event.mae, 2, true).as_str());
    message.append(" USDT");
    telegram::send_immediate(notifier, message);
}

/// The message that the engine has started in a mode.
pub open spec fn startup_words(mode: Seq<char>) -> Seq<char> {
    "PulseBook запущен\n\nРежим: "@ + mode
        + "\nLive trading: ЗАБЛОКИРОВАН\nУведомления об открытиях, закрытиях и отклонениях активны."@
}

/// The message that the engine has started in a mode.
pub fn startup_message(mode: &str) -> (r: String)
    ensures
        r@ == startup_words(mode@),
{
    let mut r = "PulseBook запущен\n\nРежим: ".to_owned();
    r.append(mode);
    r.append(
        "\nLive trading: ЗАБЛОКИРОВАН\nУведомления об открытиях, закрытиях и отклонениях активны.",
    );
    r
}

/// The message that the engine has started; it names the mode in capitals.
pub fn startup_text(trading_mode: &str) -> (r: String)
    ensures
        r@ == startup_words(text::uppercased(trading_mode@)),
        text::ascii(trading_mode@) ==> r@ == startup_words(text::capitals(trading_mode@)),
{
    let mode = text::to_uppercase(trading_mode);
    startup_message(mode.as_str())
}

/// The text that is sent for a message: as much of it as one message may have.
pub fn sent_text(message: &str) -> (r: String)
    ensures
        r@ == telegram::truncated(message@, TELEGRAM_MESSAGE_LIMIT as int),
        encode_utf8(r@).len() <= TELEGRAM_MESSAGE_LIMIT,
{
    proof {
        telegram::truncation_is_longest_fit(message@, TELEGRAM_MESSAGE_LIMIT as int);
    }
    telegram::truncate(message, TELEGRAM_MESSAGE_LIMIT)
}

/// The most groups that a summary lists.
pub const SUMMARY_ROWS: usize = 20;

/// The most bytes that the list of a summary may take.
pub const SUMMARY_BYTES: usize = 4016;

/// Keys that order groups of rejections by falling counts.
pub open spec fn count_keys(rows: Seq<RejectionRow>) -> Seq<i128> {
    Seq::new(rows.len(), |i: int| (-(rows[i].count as int)) as i128)
}

/// Groups of rejections, most frequent first; of equally frequent ones the one that came
/// first.
pub open spec fn by_count(rows: Seq<RejectionRow>) -> Seq<RejectionRow> {
    sorting::picked(rows, sorting::order(count_keys(rows)))
}

/// All rejections of some groups.
pub open spec fn total_count(rows: Seq<RejectionRow>) -> u64
    decreases rows.len(),
{
    if rows.len() == 0 {
        0
    } else {
        total_count(rows.drop_last()).wrapping_add(rows.last().count)
    }
}

/// The line of a group of rejections.
pub open spec fn group_line(row: RejectionRow) -> Seq<char> {
    "\n"@ + row.symbol + ": "@ + row.reason + " × "@ + text::digits(row.count as nat)
}

/// A text with the lines of some groups, as long as they fit.
pub open spec fn with_groups(start: Seq<char>, rows: Seq<RejectionRow>) -> Seq<char>
    decreases rows.len(),
{
    if rows.len() == 0 {
        start
    } else {
        let line = group_line(rows[0]);
        if encode_utf8(start).len() + encode_utf8(line).len() > SUMMARY_BYTES {
            start
        } else {
            with_groups(start + line, rows.drop_first())
        }
    }
}

/// How a summary of rejections begins.
pub open spec fn summary_head(rows: Seq<RejectionRow>, seconds: u64) -> Seq<char> {
    "СВОДКА ОТКЛОНЕНИЙ СДЕЛОК\n\nПериод: "@ + text::digits(seconds as nat) + " сек\nВсего: "@
        + text::digits(total_count(rows) as nat) + "\n"@
}

/// The summary of some groups of rejections.
pub open spec fn summary_text(rows: Seq<RejectionRow>, seconds: u64) -> Seq<char> {
    let sorted = by_count(rows);
    let listed = if sorted.len() > SUMMARY_ROWS {
        sorted.take(SUMMARY_ROWS as int)
    } else {
        sorted
    };
    let body = with_groups(summary_head(sorted, seconds), listed);
    if sorted.len() > SUMMARY_ROWS {
        body + "\n\nИ ещё "@ + text::digits((sorted.len() - SUMMARY_ROWS) as nat)
            + " групп причин."@
    } else {
        body
    }
}

fn write_line(row: &Rejection) -> (r: String)
    ensures
        r@ == group_line(row@),
{
    let mut r = "\n".to_owned();
    r.append(row.symbol.as_str());
    r.append(": ");
    r.append(row.reason.as_str());
    r.append(" × ");
    r.append(text::decimal(row.count).as_str());
    r
}

fn order_rows(rows: &Vec<Rejection>) -> (r: Vec<usize>)
    ensures
        sorting::is_stable_order(count_keys(telegram::rejection_rows(rows@)), r@),
        r@ == sorting::order(count_keys(telegram::rejection_rows(rows@))),
{
    let ghost all = telegram::rejection_rows(rows@);
    let mut keys: Vec<i128> = Vec::new();
    let mut i: usize = 0;
    while i < rows.len()
        invariant
            i <= rows@.len(),
            all == telegram::rejection_rows(rows@),
            keys@ == count_keys(all).take(i as int),
        decreases rows@.len() - i,
    {
        keys.push(-(rows[i].count as i128));
        assert(all[i as int] == rows@[i as int]@);
        assert(count_keys(all).take(i + 1) =~= count_keys(all).take(i as int).push(
            count_keys(all)[i as int],
        ));
        i = i + 1;
    }
    assert(count_keys(all).take(i as int) =~= count_keys(all));
    sorting::stable_order(&keys)
}

/// Writes the summary of some groups of rejections.
pub fn write_summary(rows: &Vec<Rejection>, seconds: u64) -> (r: String)
    ensures
        r@ == summary_text(telegram::rejection_rows(rows@), seconds),
{
    let ghost all = telegram::rejection_rows(rows@);
    let places = order_rows(rows);
    let ghost sorted = by_count(all);
    let n = places.len();
    let mut total: u64 = 0;
    let mut i: usize = 0;
    while i < n
        invariant
            n == places@.len(),
            n == sorted.len(),
            i <= n,
            all == telegram::rejection_rows(rows@),
            sorted == sorting::picked(all, places@),
            forall|x: int| 0 <= x < places@.len() ==> #[trigger] places@[x] < rows@.len(),
            total == total_count(sorted.take(i as int)),
        decreases n - i,
    {
        let at = places[i];
        proof {
            assert(sorted.take(i + 1).drop_last() =~= sorted.take(i as int));
            assert(sorted[i as int] == rows@[at as int]@);
        }
        total = total.wrapping_add(rows[at].count);
        i = i + 1;
    }
    assert(sorted.take(i as int) =~= sorted);
    let mut r = "СВОДКА ОТКЛОНЕНИЙ СДЕЛОК\n\nПериод: ".to_owned();
    r.append(text::decimal(seconds).as_str());
    r.append(" сек\nВсего: ");
    r.append(text::decimal(total).as_str());
    r.append("\n");
    let most = if n > SUMMARY_ROWS {
        SUMMARY_ROWS
    } else {
        n
    };
    let ghost listed = if sorted.len() > SUMMARY_ROWS {
        sorted.take(SUMMARY_ROWS as int)
    } else {
        sorted
    };
    let ghost head = summary_head(sorted, seconds);
    let mut k: usize = 0;
    let mut full = false;
    assert(listed.skip(0) =~= listed);
    while k < most && !full
        invariant
            n == places@.len(),
            most <= n,
            k <= most,
            most == listed.len(),
            all == telegram::rejection_rows(rows@),
            sorted == sorting::picked(all, places@),
            forall|x: int| 0 <= x < listed.len() ==> #[trigger] listed[x] == sorted[x],
            forall|x: int| 0 <= x < places@.len() ==> #[trigger] places@[x] < rows@.len(),
            full ==> with_groups(head, listed) == r@,
            !full ==> with_groups(head, listed) == with_groups(r@, listed.skip(k as int)),
        decreases
                most - k,
                if full {
                    0int
                } else {
                    1int
                },
    {
        let at = places[k];
        let line = write_line(&rows[at]);
        proof {
            assert(listed[k as int] == sorted[k as int]);
            assert(sorted[k as int] == rows@[at as int]@);
            assert(listed.skip(k as int)[0] == listed[k as int]);
            assert(listed.skip(k as int).drop_first() =~= listed.skip(k + 1));
        }
        let used = r.as_str().as_bytes().len();
        let more = line.as_str().as_bytes().len();
        if used > SUMMARY_BYTES || more > SUMMARY_BYTES - used {
            full = true;
        } else {
            r.append(line.as_str());
            k = k + 1;
        }
    }
    assert(with_groups(head, listed) == r@);
    if n > SUMMARY_ROWS {
        r.append("\n\nИ ещё ");
        r.append(text::decimal((n - SUMMARY_ROWS) as u64).as_str());
        r.append(" групп причин.");
    }
    r
}

impl Notifier {
    /// Takes the rejections counted since the last summary and writes a summary of them;
    /// there is none without rejections.
    pub fn take_summary(&mut self, seconds: u64) -> (r: Option<String>)
        ensures
            final(self)@ == (NotifierView { rejections: Seq::empty(), ..old(self)@ }),
            match r {
                Some(message) => old(self)@.rejections.len() > 0 && message@ == summary_text(
                    old(self)@.rejections,
                    seconds,
                ),
                None => old(self)@.rejections.len() == 0,
            },
    {
        let mut rows: Vec<Rejection> = Vec::new();
        std::mem::swap(&mut rows, &mut self.rejections);
        assert(self@.rejections =~= Seq::empty());
        assert(old(self)@.rejections.len() == rows@.len());
        if rows.len() == 0 {
            None
        } else {
            Some(write_summary(&rows, seconds))
        }
    }

    /// Takes the messages that wait to be sent, in their order.
    pub fn take_messages(&mut self) -> (r: Vec<String>)
        ensures
            final(self)@ == (NotifierView { outbox: Seq::empty(), ..old(self)@ }),
            sorting::texts(r@) == old(self)@.outbox,
    {
        let mut r: Vec<String> = Vec::new();
        std::mem::swap(&mut r, &mut self.outbox);
        assert(self@.outbox =~= Seq::empty());
        r
    }
}

} // verus!

//! The event log, its throttle, and the count of rejected entries.
use vstd::prelude::*;
use vstd::hash_map::StringHashMap;
use std::collections::VecDeque;
use crate::double::Double;
use crate::models::LogEvent;
use crate::table;
use crate::table::Table;
use crate::telegram;
use crate::telegram::Notifier;

verus! {

/// The most lines that the log keeps.
pub const LOGS_MAXLEN: usize = 180;

/// A line of the log by its contents.
#[verifier::ext_equal]
pub struct LogLine {
    pub level: Seq<char>,
    pub message: Seq<char>,
    pub symbol: Seq<char>,
    pub timestamp: Double,
}

impl LogEvent {
    pub open spec fn view(&self) -> LogLine {
        LogLine {
            level: self.level@,
            message: self.message@,
            symbol: self.symbol@,
            timestamp: self.timestamp,
        }
    }
}

/// The lines of a log by their contents.
pub open spec fn log_lines(logs: Seq<LogEvent>) -> Seq<LogLine> {
    logs.map_values(|e: LogEvent| e@)
}

/// Everything that the engine reports: the log, newest line first, when each text was last
/// logged, how often entries were rejected for each reason, and messages to send.
pub struct Journal {
    pub logs: VecDeque<LogEvent>,
    pub reject_counts: Table<u64>,
    pub throttle: StringHashMap<Double>,
    pub notifier: Option<Notifier>,
}

/// A journal by its contents.
#[verifier::ext_equal]
pub struct JournalView {
    pub logs: Seq<LogLine>,
    pub reject_counts: Map<Seq<char>, u64>,
    pub throttle: Map<Seq<char>, Double>,
    pub notifier: Option<telegram::NotifierView>,
}

/// Under what a line is throttled.
pub open spec fn throttle_key(symbol: Seq<char>, message: Seq<char>) -> Seq<char> {
    symbol + ":"@ + message
}

/// A line comes too soon after the last one of its symbol and text. A line without a
/// throttle never does.
pub open spec fn throttled(
    j: JournalView,
    message: Seq<char>,
    symbol: Seq<char>,
    throttle: Double,
    clock: Double,
) -> bool {
    let last = table::entry_or(j.throttle, throttle_key(symbol, message), Double::zero());
    throttle.gt(Double::zero()) && clock.sub(last).lt(throttle)
}

/// The log with a line in front; a full log loses its oldest line.
pub open spec fn with_line(logs: Seq<LogLine>, line: LogLine) -> Seq<LogLine> {
    seq![line] + if logs.len() >= LOGS_MAXLEN {
        logs.drop_last()
    } else {
        logs
    }
}

/// A journal after one line at `clock`.
pub open spec fn logged(
    j: JournalView,
    level: Seq<char>,
    message: Seq<char>,
    symbol: Seq<char>,
    throttle: Double,
    clock: Double,
) -> JournalView {
    if throttled(j, message, symbol, throttle, clock) {
        j
    } else {
        JournalView {
            throttle: j.throttle.insert(throttle_key(symbol, message), clock),
            logs: with_line(j.logs, LogLine { level, message, symbol, timestamp: clock }),
            ..j
        }
    }
}

/// A journal after one rejected entry at `clock`.
pub open spec fn entry_rejected(
    j: JournalView,
    symbol: Seq<char>,
    reason: Seq<char>,
    clock: Double,
) -> JournalView {
    let counted = JournalView {
        reject_counts: j.reject_counts.insert(
            reason,
            table::entry_or(j.reject_counts, reason, 0u64).wrapping_add(1),
        ),
        ..j
    };
    let written = logged(
        counted,
        "SKIP"@,
        "ENTRY REJECTED · "@ + reason,
        symbol,
        Double::whole(5),
        clock,
    );
    JournalView {
        notifier: telegram::rejection_noted(written.notifier, symbol, reason),
        ..written
    }
}

impl Journal {
    pub open spec fn view(&self) -> JournalView {
        JournalView {
            logs: log_lines(self.logs@),
            reject_counts: self.reject_counts@,
            throttle: self.throttle@,
            notifier: telegram::notifier_view(self.notifier),
        }
    }

    pub fn new() -> (r: Journal)
        ensures
            r@ == (JournalView {
                logs: Seq::empty(),
                reject_counts: Map::empty(),
                throttle: Map::empty(),
                notifier: None,
            }),
    {
        let r = Journal {
            logs: VecDeque::new(),
            reject_counts: Table::new(),
            throttle: StringHashMap::new(),
            notifier: None,
        };
        assert(r@.logs =~= Seq::<LogLine>::empty());
        r
    }

    /// Writes a line unless it is throttled.
    pub fn log(&mut self, level: &str, message: &str, symbol: &str, throttle: Double, clock: Double)
        ensures
            final(self)@ == logged(old(self)@, level@, message@, symbol@, throttle, clock),
            old(self)@.logs.len() <= LOGS_MAXLEN ==> final(self)@.logs.len() <= LOGS_MAXLEN,
    {
        let mut key = symbol.to_owned();
        key.append(":");
        key.append(message);
        let last = match self.throttle.get(key.as_str()) {
            Some(at) => *at,
            None => Double::zero(),
        };
        if throttle.gt(Double::zero()) && clock.sub(last).lt(throttle) {
            return;
        }
        self.throttle.insert(key, clock);
        let ghost before = log_lines(self.logs@);
        if self.logs.len() >= LOGS_MAXLEN {
            let _ = self.logs.pop_back();
            assert(log_lines(self.logs@) =~= before.drop_last());
        }
        let line = LogEvent {
            level: level.to_owned(),
            message: message.to_owned(),
            symbol: symbol.to_owned(),
            timestamp: clock,
        };
        self.logs.push_front(line);
        assert(log_lines(self.logs@) =~= with_line(before, line@));
    }

    /// Counts, logs and reports a rejected entry.
    pub fn reject(&mut self, symbol: &str, reason: &str, clock: Double)
        ensures
            final(self)@ == entry_rejected(old(self)@, symbol@, reason@, clock),
            old(self)@.logs.len() <= LOGS_MAXLEN ==> final(self)@.logs.len() <= LOGS_MAXLEN,
    {
        let count = match self.reject_counts.get(reason) {
            Some(n) => *n,
            None => 0,
        };
        self.reject_counts.insert(reason, count.wrapping_add(1));
        let mut message = "ENTRY REJECTED · ".to_owned();
        message.append(reason);
        self.log("SKIP", message.as_str(), symbol, Double::whole(5), clock);
        telegram::notify_rejection(&mut self.notifier, symbol, reason);
    }
}

} // verus!

//! The texts of log lines about entries, exits and open positions.
use vstd::prelude::*;
use crate::decimal;
use crate::double::Double;
use crate::journal;
use crate::journal::Journal;
use crate::text;
use crate::trading::{ExitDetail, Notice, PositionStatus, Reason};
use crate::models::TradeResult;

verus! {

impl Reason {
    /// The reason in words.
    pub open spec fn words(self) -> Seq<char> {
        match self {
            Reason::PositionLimit => "portfolio position limit"@,
            Reason::DailyLoss => "daily loss circuit breaker"@,
            Reason::LossStreak => "loss-streak circuit breaker"@,
            Reason::Confluence { score, needed } => "confluence "@ + text::signed_digits(
                score as int,
            ) + "/100 below "@ + text::signed_digits(needed as int),
            Reason::Expired => "setup expired before retest"@,
            Reason::RewardRisk { net_rr } => "after-cost R/R "@ + decimal::fixed_text(
                net_rr,
                2,
                false,
            ),
            Reason::StaleBook => "stale book"@,
            Reason::SpreadExpanded => "spread expanded"@,
            Reason::LowImbalance => "low imbalance"@,
            Reason::NoAcceleration => "no 3x tape acceleration"@,
        }
    }

    /// The reason in words.
    pub fn text(self) -> (r: String)
        ensures
            r@ == self.words(),
    {
        match self {
            Reason::PositionLimit => "portfolio position limit".to_owned(),
            Reason::DailyLoss => "daily loss circuit breaker".to_owned(),
            Reason::LossStreak => "loss-streak circuit breaker".to_owned(),
            Reason::Confluence { score, needed } => {
                let mut r = "confluence ".to_owned();
                r.append(text::signed_decimal(score).as_str());
                r.append("/100 below ");
                r.append(text::signed_decimal(needed).as_str());
                r
            },
            Reason::Expired => "setup expired before retest".to_owned(),
            Reason::RewardRisk { net_rr } => {
                let mut r = "after-cost R/R ".to_owned();
                r.append(decimal::fixed(net_rr, 2, false).as_str());
                r
            },
            Reason::StaleBook => "stale book".to_owned(),
            Reason::SpreadExpanded => "spread expanded".to_owned(),
            Reason::LowImbalance => "low imbalance".to_owned(),
            Reason::NoAcceleration => "no 3x tape acceleration".to_owned(),
        }
    }
}

impl ExitDetail {
    /// The detail in words, with its separator.
    pub open spec fn words(self) -> Seq<char> {
        match self {
            ExitDetail::Nothing => ""@,
            ExitDetail::Target { multiple } => " · target "@ + decimal::fixed_text(
                multiple,
                1,
                false,
            ) + "R reached"@,
            ExitDetail::Reversal { ticks } => " · opposing tape persisted "@ + text::digits(
                ticks as nat,
            ) + " ticks"@,
            ExitDetail::Trail { peak_r, now_r } => " · peak "@ + decimal::fixed_text(
                peak_r,
                2,
                false,
            ) + "R → "@ + decimal::fixed_text(now_r, 2, false) + "R"@,
        }
    }

    /// The detail in words, with its separator.
    pub fn text(self) -> (r: String)
        ensures
            r@ == self.words(),
    {
        match self {
            ExitDetail::Nothing => "".to_owned(),
            ExitDetail::Target { multiple } => {
                let mut r = " · target ".to_owned();
                r.append(decimal::fixed(multiple, 1, false).as_str());
                r.append("R reached");
                r
            },
            ExitDetail::Reversal { ticks } => {
                let mut r = " · opposing tape persisted ".to_owned();
                r.append(text::decimal(ticks as u64).as_str());
                r.append(" ticks");
                r
            },
            ExitDetail::Trail { peak_r, now_r } => {
                let mut r = " · peak ".to_owned();
                r.append(decimal::fixed(peak_r, 2, false).as_str());
                r.append("R → ");
                r.append(decimal::fixed(now_r, 2, false).as_str());
                r.append("R");
                r
            },
        }
    }
}

/// The log line of an exit.
pub open spec fn exit_words(result: TradeResult, detail: ExitDetail) -> Seq<char> {
    result.reason.name() + " ["@ + (if result.pnl.gt(Double::zero()) {
        "WIN"@
    } else {
        "LOSS"@
    }) + "] "@ + result.side.name() + " · net "@ + decimal::fixed_text(result.pnl, 2, true)
        + " USDT · gross "@ + decimal::fixed_text(result.gross_pnl, 2, true) + " · fees "@
        + decimal::fixed_text(result.fees, 2, false) + " · held "@ + decimal::fixed_text(
        result.closed_at.sub(result.opened_at),
        1,
        false,
    ) + "s · MFE "@ + decimal::fixed_text(result.mfe, 2, true) + " / MAE "@ + decimal::fixed_text(
        result.mae,
        2,
        true,
    ) + detail.words()
}

fn exit_text(result: &TradeResult, detail: ExitDetail) -> (r: String)
    ensures
        r@ == exit_words(*result, detail),
{
    let mut r = result.reason.as_str().to_owned();
    r.append(" [");
    r.append(
        if result.pnl.gt(Double::zero()) {
            "WIN"
        } else {
            "LOSS"
        },
    );
    r.append("] ");
    r.append(result.side.as_str());
    r.append(" · net ");
    r.append(decimal::fixed(result.pnl, 2, true).as_str());
    r.append(" USDT · gross ");
    r.append(decimal::fixed(result.gross_pnl, 2, true).as_str());
    r.append(" · fees ");
    r.append(decimal::fixed(result.fees, 2, false).as_str());
    r.append(" · held ");
    r.append(decimal::fixed(result.closed_at.sub(result.opened_at), 1, false).as_str());
    r.append("s · MFE ");
    r.append(decimal::fixed(result.mfe, 2, true).as_str());
    r.append(" / MAE ");
    r.append(decimal::fixed(result.mae, 2, true).as_str());
    r.append(detail.text().as_str());
    r
}

/// The log line of an open position.
pub open spec fn status_words(s: PositionStatus) -> Seq<char> {
    s.side.name() + " "@ + decimal::fixed_text(s.held, 0, false) + "s · mark "@
        + decimal::fixed_text(s.mid, 6, false) + " ("@ + decimal::fixed_text(s.return_pct, 3, true)
        + "%) · uPnL "@ + decimal::fixed_text(s.unrealized, 2, true) + " USDT · peak "@
        + decimal::fixed_text(s.peak_pct, 3, true) + "% · flow-with-us "@ + decimal::fixed_text(
        s.flow_pct,
        0,
        false,
    ) + "% · imb "@ + decimal::fixed_text(s.imbalance, 2, false) + " · spread "@
        + decimal::fixed_text(s.spread, 3, false) + "%"@ + (if s.breakeven_armed {
        " · BE-armed"@
    } else {
        ""@
    }) + " · "@ + decimal::fixed_text(s.r_now, 2, true) + "R · stop "@ + decimal::fixed_text(
        s.stop_price,
        6,
        false,
    )
}

fn status_text(s: &PositionStatus) -> (r: String)
    ensures
        r@ == status_words(*s),
{
    let mut r = s.side.as_str().to_owned();
    r.append(" ");
    r.append(decimal::fixed(s.held, 0, false).as_str());
    r.append("s · mark ");
    r.append(decimal::fixed(s.mid, 6, false).as_str());
    r.append(" (");
    r.append(decimal::fixed(s.return_pct, 3, true).as_str());
    r.append("%) · uPnL ");
    r.append(decimal::fixed(s.unrealized, 2, true).as_str());
    r.append(" USDT · peak ");
    r.append(decimal::fixed(s.peak_pct, 3, true).as_str());
    r.append("% · flow-with-us ");
    r.append(decimal::fixed(s.flow_pct, 0, false).as_str());
    r.append("% · imb ");
    r.append(decimal::fixed(s.imbalance, 2, false).as_str());
    r.append(" · spread ");
    r.append(decimal::fixed(s.spread, 3, false).as_str());
    r.append("%");
    r.append(
        if s.breakeven_armed {
            " · BE-armed"
        } else {
            ""
        },
    );
    r.append(" · ");
    r.append(decimal::fixed(s.r_now, 2, true).as_str());
    r.append("R · stop ");
    r.append(decimal::fixed(s.stop_price, 6, false).as_str());
    r
}

impl Notice {
    /// The text of a notice; of a rejection, its reason.
    pub open spec fn words(self) -> Seq<char> {
        match self {
            Notice::Entry { side, price, stop, target, risk, score, net_rr } => "Paper "@
                + side.name() + " @ "@ + decimal::fixed_text(price, 6, false) + " · stop "@
                + decimal::fixed_text(stop, 6, false) + " · target "@ + decimal::fixed_text(
                target,
                6,
                false,
            ) + " · risk "@ + decimal::fixed_text(risk, 2, false)
                + " USDT · breakout-retest · score "@ + text::signed_digits(score as int)
                + "/100 · net R/R "@ + decimal::fixed_text(net_rr, 2, false),
            Notice::Exit { result, detail } => exit_words(result, detail),
            Notice::Status(status) => status_words(status),
            Notice::Setup { side, score } => side.name() + " absorption qualified "@
                + text::signed_digits(score as int) + "/100; waiting breakout + retest"@,
            Notice::Rejected(reason) => reason.words(),
            Notice::Skipped(reason) => "TIMEOUT / SKIPPED · "@ + reason.words(),
        }
    }

    /// The text of a notice; of a rejection, its reason.
    pub fn text(self) -> (r: String)
        ensures
            r@ == self.words(),
    {
        match self {
            Notice::Entry { side, price, stop, target, risk, score, net_rr } => {
                let mut r = "Paper ".to_owned();
                r.append(side.as_str());
                r.append(" @ ");
                r.append(decimal::fixed(price, 6, false).as_str());
                r.append(" · stop ");
                r.append(decimal::fixed(stop, 6, false).as_str());
                r.append(" · target ");
                r.append(decimal::fixed(target, 6, false).as_str());
                r.append(" · risk ");
                r.append(decimal::fixed(risk, 2, false).as_str());
                r.append(" USDT · breakout-retest · score ");
                r.append(text::signed_decimal(score).as_str());
                r.append("/100 · net R/R ");
                r.append(decimal::fixed(net_rr, 2, false).as_str());
                r
            },
            Notice::Exit { result, detail } => exit_text(&result, detail),
            Notice::Status(status) => status_text(&status),
            Notice::Setup { side, score } => {
                let mut r = side.as_str().to_owned();
                r.append(" absorption qualified ");
                r.append(text::signed_decimal(score).as_str());
                r.append("/100; waiting breakout + retest");
                r
            },
            Notice::Rejected(reason) => reason.text(),
            Notice::Skipped(reason) => {
                let mut r = "TIMEOUT / SKIPPED · ".to_owned();
                r.append(reason.text().as_str());
                r
            },
        }
    }
}

/// A journal after a notice about a symbol.
pub open spec fn noted(
    j: journal::JournalView,
    symbol: Seq<char>,
    notice: Notice,
    clock: Double,
) -> journal::JournalView {
    let words = notice.words();
    match notice {
        Notice::Entry { .. } => journal::logged(j, "ENTRY"@, words, symbol, Double::zero(), clock),
        Notice::Exit { .. } => journal::logged(j, "EXIT"@, words, symbol, Double::zero(), clock),
        Notice::Status(_) => journal::logged(
            j,
            "POSITION"@,
            words,
            symbol,
            Double::zero(),
            clock,
        ),
        Notice::Setup { .. } => journal::logged(j, "SETUP"@, words, symbol, Double::zero(), clock),
        Notice::Rejected(_) => journal::entry_rejected(j, symbol, words, clock),
        Notice::Skipped(_) => journal::logged(j, "SKIP"@, words, symbol, Double::whole(8), clock),
    }
}

/// A journal after a notice, if there is one.
pub open spec fn noted_if(
    j: journal::JournalView,
    symbol: Seq<char>,
    notice: Option<Notice>,
    clock: Double,
) -> journal::JournalView {
    match notice {
        Some(n) => noted(j, symbol, n, clock),
        None => j,
    }
}

/// Puts a notice into the journal.
pub fn publish(journal: &mut Journal, symbol: &str, notice: Option<Notice>, clock: Double)
    ensures
        final(journal)@ == noted_if(old(journal)@, symbol@, notice, clock),
        old(journal)@.logs.len() <= journal::LOGS_MAXLEN ==> final(journal)@.logs.len()
            <= journal::LOGS_MAXLEN,
{
    let notice = match notice {
        Some(n) => n,
        None => {
            return;
        },
    };
    let words = notice.text();
    let message = words.as_str();
    match notice {
        Notice::Entry { .. } => journal.log("ENTRY", message, symbol, Double::zero(), clock),
        Notice::Exit { .. } => journal.log("EXIT", message, symbol, Double::zero(), clock),
        Notice::Status(_) => journal.log("POSITION", message, symbol, Double::zero(), clock),
        Notice::Setup { .. } => journal.log("SETUP", message, symbol, Double::zero(), clock),
        Notice::Rejected(_) => journal.reject(symbol, message, clock),
        Notice::Skipped(_) => journal.log("SKIP", message, symbol, Double::whole(8), clock),
    }
}

} // verus!

//! Everything that the dashboard shows, at one moment.
use vstd::prelude::*;
use std::collections::VecDeque;
use crate::brain;
use crate::brain::RadarRow;
use crate::config::Settings;
use crate::double::Double;
use crate::journal;
use crate::journal::LogLine;
use crate::models::{ClosedTrade, ExitReason, LogEvent, Position, TradeResult};
use crate::mtf_fvg::{FvgZone, MtfPhase};
use crate::mtf_tracker;
use crate::mtf_tracker::{MtfFvgTracker, TrackerView};
use crate::readiness;
use crate::readiness::Readiness;
use crate::sorting;
use crate::standings;
use crate::standings::{EquityPoint, Stats};
use crate::state;
use crate::state::{ClosedRow, MarketState, MarketView};
use crate::table::Table;

verus! {

/// The version of the snapshot's layout.
pub const SNAPSHOT_VERSION: u64 = 3;

/// The most closed trades that are shown.
pub const SHOWN_TRADES: usize = 40;

/// The most log lines that are shown.
pub const SHOWN_LOGS: usize = 80;

/// What is known of a setup in each phase.
#[derive(Clone, Copy, Debug)]
pub struct PhaseDetails {
    pub context: Option<FvgZone>,
    pub confirmation: Option<FvgZone>,
    pub trigger: Option<FvgZone>,
    pub context_touched_at: Option<i64>,
    pub inverted_at: Option<i64>,
    pub deadline: Option<i64>,
    pub entry_level: Option<Double>,
}

/// What is shown of a phase.
pub open spec fn details_of(phase: MtfPhase) -> PhaseDetails {
    let nothing = PhaseDetails {
        context: None,
        confirmation: None,
        trigger: None,
        context_touched_at: None,
        inverted_at: None,
        deadline: None,
        entry_level: None,
    };
    match phase {
        MtfPhase::WaitingContext => nothing,
        MtfPhase::WaitingContextTouch { context, .. } => PhaseDetails {
            context: Some(context),
            ..nothing
        },
        MtfPhase::WaitingM1 { context, touched_at, deadline, .. } => PhaseDetails {
            context: Some(context),
            context_touched_at: Some(touched_at),
            deadline: Some(deadline),
            ..nothing
        },
        MtfPhase::WaitingS5Candidate { context, confirmation, deadline, .. } => PhaseDetails {
            context: Some(context),
            confirmation: Some(confirmation),
            deadline: Some(deadline),
            ..nothing
        },
        MtfPhase::WaitingS5Inversion { context, confirmation, deadline, .. } => PhaseDetails {
            context: Some(context),
            confirmation: Some(confirmation),
            deadline: Some(deadline),
            ..nothing
        },
        MtfPhase::WaitingS5Retest {
            context,
            confirmation,
            trigger,
            inverted_at,
            deadline,
            ..
        } => PhaseDetails {
            context: Some(context),
            confirmation: Some(confirmation),
            trigger: Some(trigger),
            inverted_at: Some(inverted_at),
            deadline: Some(deadline),
            ..nothing
        },
        MtfPhase::Ready(setup) => PhaseDetails {
            context: Some(setup.context),
            confirmation: Some(setup.confirmation),
            trigger: Some(setup.trigger),
            entry_level: Some(setup.entry_level),
            ..nothing
        },
    }
}

fn find_details(phase: MtfPhase) -> (r: PhaseDetails)
    ensures
        r == details_of(phase),
{
    let mut r = PhaseDetails {
        context: None,
        confirmation: None,
        trigger: None,
        context_touched_at: None,
        inverted_at: None,
        deadline: None,
        entry_level: None,
    };
    match phase {
        MtfPhase::WaitingContext => {},
        MtfPhase::WaitingContextTouch { context, .. } => {
            r.context = Some(context);
        },
        MtfPhase::WaitingM1 { context, touched_at, deadline, .. } => {
            r.context = Some(context);
            r.context_touched_at = Some(touched_at);
            r.deadline = Some(deadline);
        },
        MtfPhase::WaitingS5Candidate { context, confirmation, deadline, .. } => {
            r.context = Some(context);
            r.confirmation = Some(confirmation);
            r.deadline = Some(deadline);
        },
        MtfPhase::WaitingS5Inversion { context, confirmation, deadline, .. } => {
            r.context = Some(context);
            r.confirmation = Some(confirmation);
            r.deadline = Some(deadline);
        },
        MtfPhase::WaitingS5Retest {
            context,
            confirmation,
            trigger,
            inverted_at,
            deadline,
            ..
        } => {
            r.context = Some(context);
            r.confirmation = Some(confirmation);
            r.trigger = Some(trigger);
            r.inverted_at = Some(inverted_at);
            r.deadline = Some(deadline);
        },
        MtfPhase::Ready(setup) => {
            r.context = Some(setup.context);
            r.confirmation = Some(setup.confirmation);
            r.trigger = Some(setup.trigger);
            r.entry_level = Some(setup.entry_level);
        },
    }
    r
}

/// How a setup stands.
#[derive(Debug)]
pub struct TrackerReport {
    pub phase: &'static str,
    pub reason: String,
    pub details: PhaseDetails,
}

/// How a setup stands, by its contents.
#[verifier::ext_equal]
pub struct TrackerReportView {
    pub phase: Seq<char>,
    pub reason: Seq<char>,
    pub details: PhaseDetails,
}

impl TrackerReport {
    pub open spec fn view(&self) -> TrackerReportView {
        TrackerReportView {
            phase: self.phase@,
            reason: self.reason@,
            details: self.details,
        }
    }
}

/// How a tracker's setup stands.
pub open spec fn report_of(tracker: TrackerView) -> TrackerReportView {
    TrackerReportView {
        phase: mtf_tracker::phase_label(tracker.phase),
        reason: tracker.reason,
        details: details_of(tracker.phase),
    }
}

impl MtfFvgTracker {
    /// How the setup stands.
    pub fn snapshot(&self) -> (r: TrackerReport)
        ensures
            r@ == report_of(self@),
    {
        TrackerReport {
            phase: self.phase_name(),
            reason: self.last_reason.clone(),
            details: find_details(self.phase),
        }
    }
}

/// A closed trade as it is shown.
#[derive(Debug)]
pub struct ShownTrade {
    pub symbol: String,
    pub result: TradeResult,
    pub held: Double,
}

/// A closed trade as it is shown, by its contents.
#[verifier::ext_equal]
pub struct ShownTradeView {
    pub symbol: Seq<char>,
    pub result: TradeResult,
    pub held: Double,
}

impl ShownTrade {
    pub open spec fn view(&self) -> ShownTradeView {
        ShownTradeView { symbol: self.symbol@, result: self.result, held: self.held }
    }
}

/// A closed trade as it is shown.
pub open spec fn shown_trade(row: ClosedRow) -> ShownTradeView {
    ShownTradeView {
        symbol: row.symbol,
        result: row.result,
        held: row.result.closed_at.sub(row.result.opened_at),
    }
}

/// The first items of a list, as many as are shown.
pub open spec fn at_most<T>(items: Seq<T>, most: nat) -> Seq<T> {
    if items.len() > most {
        items.take(most as int)
    } else {
        items
    }
}

/// Trades as they are shown, by their contents.
pub open spec fn trade_views(trades: Seq<ShownTrade>) -> Seq<ShownTradeView> {
    trades.map_values(|t: ShownTrade| t@)
}

fn shown_trades(closed: &VecDeque<ClosedTrade>) -> (r: Vec<ShownTrade>)
    ensures
        trade_views(r@) == at_most(state::closed_rows(closed@), SHOWN_TRADES as nat).map_values(
            |row: ClosedRow| shown_trade(row),
        ),
{
    let ghost rows = state::closed_rows(closed@);
    let ghost all = at_most(rows, SHOWN_TRADES as nat).map_values(
        |row: ClosedRow| shown_trade(row),
    );
    let n = if closed.len() > SHOWN_TRADES {
        SHOWN_TRADES
    } else {
        closed.len()
    };
    let mut r: Vec<ShownTrade> = Vec::new();
    let mut i: usize = 0;
    assert(trade_views(r@) =~= all.take(0));
    while i < n
        invariant
            i <= n <= closed@.len(),
            n == all.len(),
            rows == state::closed_rows(closed@),
            all == at_most(rows, SHOWN_TRADES as nat).map_values(
                |row: ClosedRow| shown_trade(row),
            ),
            trade_views(r@) == all.take(i as int),
        decreases n - i,
    {
        let trade = &closed[i];
        let ghost before = trade_views(r@);
        r.push(
            ShownTrade {
                symbol: trade.symbol.clone(),
                result: trade.result,
                held: trade.result.closed_at.sub(trade.result.opened_at),
            },
        );
        proof {
            assert(rows[i as int] == trade@);
            assert(trade_views(r@) =~= before.push(all[i as int]));
            assert(all.take(i + 1) =~= all.take(i as int).push(all[i as int]));
        }
        i = i + 1;
    }
    assert(all.take(i as int) =~= all);
    r
}

fn shown_logs(logs: &VecDeque<LogEvent>) -> (r: Vec<LogEvent>)
    ensures
        journal::log_lines(r@) == at_most(journal::log_lines(logs@), SHOWN_LOGS as nat),
{
    let ghost lines = journal::log_lines(logs@);
    let ghost all = at_most(lines, SHOWN_LOGS as nat);
    let n = if logs.len() > SHOWN_LOGS {
        SHOWN_LOGS
    } else {
        logs.len()
    };
    let mut r: Vec<LogEvent> = Vec::new();
    let mut i: usize = 0;
    assert(journal::log_lines(r@) =~= all.take(0));
    while i < n
        invariant
            i <= n <= logs@.len(),
            n == all.len(),
            lines == journal::log_lines(logs@),
            all == at_most(lines, SHOWN_LOGS as nat),
            journal::log_lines(r@) == all.take(i as int),
        decreases n - i,
    {
        let line = &logs[i];
        let ghost before = journal::log_lines(r@);
        r.push(
            LogEvent {
                level: line.level.clone(),
                message: line.message.clone(),
                symbol: line.symbol.clone(),
                timestamp: line.timestamp,
            },
        );
        proof {
            assert(lines[i as int] == line@);
            assert(journal::log_lines(r@) =~= before.push(all[i as int]));
            assert(all.take(i + 1) =~= all.take(i as int).push(all[i as int]));
        }
        i = i + 1;
    }
    assert(all.take(i as int) =~= all);
    r
}

/// The entries of a map in the order of their names.
pub open spec fn entries<V>(items: Map<Seq<char>, V>) -> Seq<(Seq<char>, V)> {
    sorting::listing(items.dom()).map_values(|name: Seq<char>| (name, items[name]))
}

/// Lists the entries of a table in the order of their names.
fn list_entries<V: Copy>(items: &Table<V>) -> (r: Vec<(String, V)>)
    ensures
        standings::named(r@) == entries(items@),
{
    let names = sorting::names_of(items);
    let ghost all = entries(items@);
    let ghost order = sorting::listing(items@.dom());
    let mut r: Vec<(String, V)> = Vec::new();
    let mut i: usize = 0;
    assert(standings::named(r@) =~= all.take(0));
    proof {
        lemma_listed(&names, items@.dom());
    }
    while i < names.len()
        invariant
            i <= names@.len(),
            order == sorting::listing(items@.dom()),
            order == sorting::texts(names@),
            forall|k: int| 0 <= k < order.len() ==> items@.dom().contains(#[trigger] order[k]),
            all == entries(items@),
            standings::named(r@) == all.take(i as int),
        decreases names@.len() - i,
    {
        assert(order[i as int] == names@[i as int]@);
        let ghost before = standings::named(r@);
        match items.get(names[i].as_str()) {
            Some(item) => {
                r.push((names[i].clone(), *item));
            },
            None => {},
        }
        proof {
            assert(standings::named(r@) =~= before.push(all[i as int]));
            assert(all.take(i + 1) =~= all.take(i as int).push(all[i as int]));
        }
        i = i + 1;
    }
    assert(all.take(i as int) =~= all);
    r
}

proof fn lemma_listed(names: &Vec<String>, set: Set<Seq<char>>)
    requires
        sorting::is_listing(set, sorting::texts(names@)),
    ensures
        forall|k: int|
            0 <= k < sorting::texts(names@).len() ==> set.contains(
                #[trigger] sorting::texts(names@)[k],
            ),
{
    let list = sorting::texts(names@);
    assert forall|k: int| 0 <= k < list.len() implies set.contains(#[trigger] list[k]) by {
        assert(list.contains(list[k]));
    }
}

/// Reports with their symbols, by their contents.
pub open spec fn report_views(rows: Seq<(String, TrackerReport)>) -> Seq<
    (Seq<char>, TrackerReportView),
> {
    rows.map_values(|r: (String, TrackerReport)| (r.0@, r.1@))
}

/// How the setups of all symbols stand, in the order of the symbols.
pub open spec fn reports(trackers: Map<Seq<char>, TrackerView>) -> Seq<
    (Seq<char>, TrackerReportView),
> {
    sorting::listing(trackers.dom()).map_values(
        |symbol: Seq<char>| (symbol, report_of(trackers[symbol])),
    )
}

fn list_reports(trackers: &Table<MtfFvgTracker>) -> (r: Vec<(String, TrackerReport)>)
    ensures
        report_views(r@) == reports(state::tracker_views(trackers@)),
{
    let names = sorting::names_of(trackers);
    let ghost views = state::tracker_views(trackers@);
    assert(views.dom() =~= trackers@.dom());
    let ghost all = reports(views);
    let ghost order = sorting::listing(views.dom());
    let mut r: Vec<(String, TrackerReport)> = Vec::new();
    let mut i: usize = 0;
    assert(report_views(r@) =~= all.take(0));
    proof {
        lemma_listed(&names, trackers@.dom());
    }
    while i < names.len()
        invariant
            i <= names@.len(),
            views == state::tracker_views(trackers@),
            order == sorting::listing(views.dom()),
            order == sorting::texts(names@),
            forall|k: int| 0 <= k < order.len() ==> trackers@.dom().contains(#[trigger] order[k]),
            all == reports(views),
            report_views(r@) == all.take(i as int),
        decreases names@.len() - i,
    {
        assert(order[i as int] == names@[i as int]@);
        let ghost before = report_views(r@);
        match trackers.get(names[i].as_str()) {
            Some(tracker) => {
                r.push((names[i].clone(), tracker.snapshot()));
            },
            None => {},
        }
        proof {
            assert(report_views(r@) =~= before.push(all[i as int]));
            assert(all.take(i + 1) =~= all.take(i as int).push(all[i as int]));
        }
        i = i + 1;
    }
    assert(all.take(i as int) =~= all);
    r
}

/// The unrealized results of open positions, in the order of their symbols.
pub open spec fn open_results(positions: Map<Seq<char>, Position>) -> Seq<Double> {
    entries(positions).map_values(|e: (Seq<char>, Position)| e.1.unrealized)
}

fn open_results_of(positions: &Vec<(String, Position)>) -> (r: Vec<Double>)
    ensures
        r@ == standings::named(positions@).map_values(|e: (Seq<char>, Position)| e.1.unrealized),
{
    let ghost all = standings::named(positions@).map_values(
        |e: (Seq<char>, Position)| e.1.unrealized,
    );
    let mut r: Vec<Double> = Vec::new();
    let mut i: usize = 0;
    while i < positions.len()
        invariant
            i <= positions@.len(),
            all == standings::named(positions@).map_values(
                |e: (Seq<char>, Position)| e.1.unrealized,
            ),
            r@ == all.take(i as int),
        decreases positions@.len() - i,
    {
        r.push(positions[i].1.unrealized);
        assert(all.take(i + 1) =~= all.take(i as int).push(all[i as int]));
        i = i + 1;
    }
    assert(all.take(i as int) =~= all);
    r
}

/// Everything that the dashboard shows.
#[derive(Debug)]
pub struct Snapshot {
    pub timestamp: Double,
    pub live_readiness: Readiness,
    pub reject_counts: Vec<(String, u64)>,
    pub source: String,
    pub connections: i64,
    pub last_scan: Double,
    pub uptime: Double,
    pub session: u64,
    pub stats: Stats,
    pub equity_curve: Vec<EquityPoint>,
    pub exit_reasons: Vec<(ExitReason, u64)>,
    pub closed_trades: Vec<ShownTrade>,
    pub radar: Vec<(String, RadarRow)>,
    pub mtf_fvg: Vec<(String, TrackerReport)>,
    pub positions: Vec<(String, Position)>,
    pub leaderboard: Vec<(String, Double)>,
    pub logs: Vec<LogEvent>,
}

/// A snapshot by its contents.
#[verifier::ext_equal]
pub struct SnapshotView {
    pub timestamp: Double,
    pub live_readiness: Readiness,
    pub reject_counts: Seq<(Seq<char>, u64)>,
    pub source: Seq<char>,
    pub connections: i64,
    pub last_scan: Double,
    pub uptime: Double,
    pub session: u64,
    pub stats: Stats,
    pub equity_curve: Seq<EquityPoint>,
    pub exit_reasons: Seq<(ExitReason, u64)>,
    pub closed_trades: Seq<ShownTradeView>,
    pub radar: Seq<(Seq<char>, RadarRow)>,
    pub mtf_fvg: Seq<(Seq<char>, TrackerReportView)>,
    pub positions: Seq<(Seq<char>, Position)>,
    pub leaderboard: Seq<(Seq<char>, Double)>,
    pub logs: Seq<LogLine>,
}

impl Snapshot {
    pub open spec fn view(&self) -> SnapshotView {
        SnapshotView {
            timestamp: self.timestamp,
            live_readiness: self.live_readiness,
            reject_counts: standings::named(self.reject_counts@),
            source: self.source@,
            connections: self.connections,
            last_scan: self.last_scan,
            uptime: self.uptime,
            session: self.session,
            stats: self.stats,
            equity_curve: self.equity_curve@,
            exit_reasons: self.exit_reasons@,
            closed_trades: trade_views(self.closed_trades@),
            radar: standings::named(self.radar@),
            mtf_fvg: report_views(self.mtf_fvg@),
            positions: standings::named(self.positions@),
            leaderboard: standings::named(self.leaderboard@),
            logs: journal::log_lines(self.logs@),
        }
    }
}

/// What the dashboard shows of a state at `clock`.
pub open spec fn snapshot_of(m: MarketView, settings: Settings, clock: Double) -> SnapshotView {
    SnapshotView {
        timestamp: clock,
        live_readiness: readiness::readiness_of(
            standings::pnls(m.closed),
            m.data_quality_errors,
            settings,
        ),
        reject_counts: entries(m.journal.reject_counts),
        source: m.source,
        connections: m.connections,
        last_scan: m.last_scan,
        uptime: clock.sub(m.started_at),
        session: m.session,
        stats: standings::stats_of(
            m.closed,
            brain::sum(open_results(m.positions)),
            m.positions.dom().len() as usize,
        ),
        equity_curve: standings::curve(m.closed),
        exit_reasons: standings::reason_counts(m.closed),
        closed_trades: at_most(m.closed, SHOWN_TRADES as nat).map_values(
            |row: ClosedRow| shown_trade(row),
        ),
        radar: entries(m.metrics),
        mtf_fvg: reports(m.mtf_fvg),
        positions: entries(m.positions),
        leaderboard: standings::leaders(m.closed),
        logs: at_most(m.journal.logs, SHOWN_LOGS as nat),
    }
}

impl MarketState {
    /// What the dashboard shows at `clock`.
    pub fn snapshot(&self, settings: &Settings, clock: Double) -> (r: Snapshot)
        ensures
            r@ == snapshot_of(self@, *settings, clock),
    {
        let results = standings::pnls_of(&self.closed);
        let positions = list_entries(&self.positions);
        let unrealized = brain::sum_of(&open_results_of(&positions));
        let (equity_curve, course) = standings::equity(&self.closed);
        Snapshot {
            timestamp: clock,
            live_readiness: readiness::live_readiness(
                &results,
                self.data_quality_errors,
                settings,
            ),
            reject_counts: list_entries(&self.journal.reject_counts),
            source: self.source.clone(),
            connections: self.connections,
            last_scan: self.last_scan,
            uptime: clock.sub(self.started_at),
            session: self.session,
            stats: standings::account_stats(
                &self.closed,
                course.drawdown,
                unrealized,
                self.positions.len(),
            ),
            equity_curve,
            exit_reasons: standings::exit_reasons(&self.closed),
            closed_trades: shown_trades(&self.closed),
            radar: list_entries(&self.metrics),
            mtf_fvg: list_reports(&self.mtf_fvg),
            positions,
            leaderboard: standings::leaderboard(&self.closed),
            logs: shown_logs(&self.journal.logs),
        }
    }
}

} // verus!

//! What the figures of a paper account say of its closed trades.
use vstd::prelude::*;
use crate::brain;
use crate::config::Settings;
use crate::double;
use crate::double::Double;
use crate::figures;
use crate::models::ExitReason;
use crate::mtf_fvg::MtfPhase;
use crate::mtf_tracker;
use crate::mtf_tracker::TrackerView;
use crate::readiness;
use crate::readiness_laws;
use crate::snapshot;
use crate::sorting;
use crate::standings;
use crate::standings::ProfitFactor;
use crate::state::{ClosedRow, MarketView};

verus! {

/// The counts and shares of an account: every closed trade is counted, as won above zero and as
/// lost below, the win rate is a percentage of all trades, and the profit factor is what was won
/// over what was lost, without a figure where nothing was lost.
#[verifier::spinoff_prover]
pub proof fn an_account_counts_what_was_won_and_lost(
    closed: Seq<ClosedRow>,
    unrealized: Double,
    open: usize,
)
    requires
        closed.len() <= usize::MAX,
    ensures
        ({
            let s = standings::stats_of(closed, unrealized, open);
            let results = closed.map_values(|row: ClosedRow| row.result.pnl);
            let won = results.filter(|x: Double| Double::zero().lt(x));
            let lost = results.filter(|x: Double| x.lt(Double::zero()));
            &&& s.trades == closed.len()
            &&& s.open == open
            &&& s.wins == won.len() as usize
            &&& s.losses == lost.len() as usize
            &&& s.realized == brain::sum(results)
            &&& s.unrealized == unrealized
            &&& s.pnl == brain::sum(results).add(unrealized)
            &&& closed.len() > 0 ==> s.win_rate == Double::whole(won.len() as u64).div(
                Double::whole(closed.len() as u64),
            ).mul(Double::whole(100))
            &&& lost.len() > 0 ==> s.profit_factor == ProfitFactor::Ratio(
                brain::sum(won).div(brain::sum(lost).abs()),
            )
            &&& lost.len() == 0 && won.len() > 0 ==> s.profit_factor == ProfitFactor::Unbounded
            &&& lost.len() == 0 && won.len() == 0 ==> s.profit_factor == ProfitFactor::Nothing
            &&& won.len() > 0 ==> s.avg_win == brain::sum(won).div(Double::whole(won.len() as u64))
            &&& won.len() == 0 ==> s.avg_win == Double::zero()
            &&& lost.len() > 0 ==> s.avg_loss == brain::sum(lost).div(
                Double::whole(lost.len() as u64),
            )
            &&& lost.len() == 0 ==> s.avg_loss == Double::zero()
        }),
{
    let results = closed.map_values(|row: ClosedRow| row.result.pnl);
    assert(results =~= standings::pnls(closed));
    readiness_laws::gains_are_above_zero(results);
}

/// An account without trades has zero figures.
pub proof fn an_idle_account_is_at_zero(unrealized: Double, open: usize)
    ensures
        ({
            let s = standings::stats_of(Seq::empty(), unrealized, open);
            &&& s.trades == 0
            &&& s.win_rate == Double::zero()
            &&& s.best_trade == Double::zero()
            &&& s.worst_trade == Double::zero()
            &&& s.max_drawdown == Double::zero()
            &&& s.avg_hold_seconds == Double::zero()
            &&& s.streak == 0
        }),
{
    let none = Seq::<ClosedRow>::empty();
    assert(standings::pnls(none) =~= Seq::empty());
    assert(standings::holds(none) =~= Seq::empty());
    assert(sorting::rank_keys(standings::times(none)) =~= Seq::empty());
    sorting::every_list_has_an_order(sorting::rank_keys(standings::times(none)));
    assert(standings::pnls(standings::by_time(none)) =~= Seq::empty());
}

proof fn lemma_largest(xs: Seq<Double>, i: int)
    requires
        0 <= i < xs.len(),
    ensures
        !standings::largest_of(xs).lt(xs[i]),
        !xs[i].lt(standings::smallest_of(xs)),
    decreases xs.len(),
{
    let rest = xs.drop_last();
    if i < rest.len() {
        lemma_largest(rest, i);
        lemma_numbers(rest);
    }
}

proof fn lemma_numbers(xs: Seq<Double>)
    ensures
        !standings::largest_of(xs).nan(),
        !standings::smallest_of(xs).nan(),
    decreases xs.len(),
{
    if xs.len() > 0 {
        lemma_numbers(xs.drop_last());
    } else {
        lemma_infinite();
    }
}

proof fn lemma_infinite()
    ensures
        !Double::infinity().nan(),
        !Double::infinity().neg().nan(),
        forall|x: Double| !x.nan() ==> #[trigger] x.le(Double::infinity()),
        forall|x: Double| !x.nan() ==> #[trigger] Double::infinity().neg().le(x),
{
}

proof fn lemma_among(xs: Seq<Double>, largest: bool)
    requires
        xs.len() > 0,
        forall|i: int| 0 <= i < xs.len() ==> (#[trigger] xs[i]).finite(),
    ensures
        largest ==> exists|i: int|
            0 <= i < xs.len() && #[trigger] xs[i] == standings::largest_of(xs),
        !largest ==> exists|i: int|
            0 <= i < xs.len() && #[trigger] xs[i] == standings::smallest_of(xs),
    decreases xs.len(),
{
    let rest = xs.drop_last();
    let n = xs.len() - 1;
    assert(xs[n].finite());
    lemma_infinite();
    lemma_numbers(rest);
    if rest.len() > 0 {
        assert forall|i: int| 0 <= i < rest.len() implies (#[trigger] rest[i]).finite() by {
            assert(xs[i].finite());
        }
        lemma_among(rest, largest);
        if largest {
            let k = choose|k: int|
                0 <= k < rest.len() && #[trigger] rest[k] == standings::largest_of(rest);
            assert(xs[k] == rest[k]);
            assert(standings::largest_of(xs) == xs[k] || standings::largest_of(xs) == xs[n]);
        } else {
            let k = choose|k: int|
                0 <= k < rest.len() && #[trigger] rest[k] == standings::smallest_of(rest);
            assert(xs[k] == rest[k]);
            assert(standings::smallest_of(xs) == xs[k] || standings::smallest_of(xs) == xs[n]);
        }
    } else {
        lemma_alone(xs[n]);
        assert(standings::largest_of(rest) == Double::infinity().neg());
        assert(standings::smallest_of(rest) == Double::infinity());
        assert(xs[n] == xs.last());
    }
}

proof fn lemma_alone(x: Double)
    requires
        x.finite(),
    ensures
        Double::infinity().neg().max(x) == x,
        Double::infinity().min(x) == x,
{
}

/// No closed trade is better than the best or worse than the worst, and each of the two is the
/// result of a trade.
pub proof fn the_best_and_the_worst_are_results(
    closed: Seq<ClosedRow>,
    unrealized: Double,
    open: usize,
    i: int,
)
    requires
        0 <= i < closed.len(),
        forall|k: int| 0 <= k < closed.len() ==> (#[trigger] closed[k]).result.pnl.finite(),
    ensures
        ({
            let s = standings::stats_of(closed, unrealized, open);
            &&& !s.best_trade.lt(closed[i].result.pnl)
            &&& !closed[i].result.pnl.lt(s.worst_trade)
            &&& exists|k: int|
                0 <= k < closed.len() && (#[trigger] closed[k]).result.pnl == s.best_trade
            &&& exists|k: int|
                0 <= k < closed.len() && (#[trigger] closed[k]).result.pnl == s.worst_trade
        }),
{
    let results = standings::pnls(closed);
    assert forall|k: int| 0 <= k < results.len() implies (#[trigger] results[k]).finite() by {
        assert(results[k] == closed[k].result.pnl);
    }
    lemma_largest(results, i);
    lemma_among(results, true);
    lemma_among(results, false);
    let a = choose|k: int|
        0 <= k < results.len() && #[trigger] results[k] == standings::largest_of(results);
    let b = choose|k: int|
        0 <= k < results.len() && #[trigger] results[k] == standings::smallest_of(results);
    assert(results[i] == closed[i].result.pnl);
    assert(results[a] == closed[a].result.pnl);
    assert(results[b] == closed[b].result.pnl);
}

proof fn lemma_longer_streak(rest: Seq<Double>, counted: i64)
    requires
        0 < counted < 0x4000_0000_0000_0000 || -0x4000_0000_0000_0000 < counted < 0,
        rest.len() < 0x4000_0000_0000_0000,
        counted > 0 ==> counted + rest.len() < 0x4000_0000_0000_0000,
        counted < 0 ==> -0x4000_0000_0000_0000 < counted - rest.len(),
    ensures
        -(rest.len() as int) <= standings::streak_on(rest, 0) <= rest.len(),
        ({
            let own = standings::streak_on(rest, 0);
            standings::streak_on(rest, counted) == counted + if (own > 0) == (counted > 0) && own
                != 0 {
                own as int
            } else {
                0
            }
        }),
    decreases rest.len(),
{
    if rest.len() > 0 {
        let next = rest.drop_first();
        if rest[0].same(Double::zero()) {
            lemma_longer_streak(next, counted);
        } else {
            let sign: i64 = if rest[0].gt(Double::zero()) {
                1i64
            } else {
                -1i64
            };
            lemma_longer_streak(next, sign);
            if (counted > 0) == (sign > 0) {
                lemma_longer_streak(next, (counted + sign) as i64);
            }
        }
    }
}

/// A win in front of a winning streak makes it one longer and in front of anything else begins
/// one of length one; a loss does the same for losing streaks, which are negative; a result of
/// zero leaves a streak as it is.
pub proof fn a_streak_grows_by_its_own_kind(x: Double, rest: Seq<Double>)
    requires
        !x.nan(),
        rest.len() < 0x1000_0000_0000_0000,
    ensures
        ({
            let before = standings::streak_on(rest, 0);
            let after = standings::streak_on(seq![x] + rest, 0);
            &&& Double::zero().lt(x) ==> after == if before > 0 {
                before + 1
            } else {
                1
            }
            &&& x.lt(Double::zero()) ==> after == if before < 0 {
                before - 1
            } else {
                -1
            }
            &&& !Double::zero().lt(x) && !x.lt(Double::zero()) ==> after == before
        }),
{
    let all = seq![x] + rest;
    assert(all.drop_first() =~= rest);
    assert(all[0] == x);
    lemma_longer_streak(rest, 1);
    lemma_longer_streak(rest, -1i64);
}

/// The streak shown is that of the results, newest first, and the mean holding time that from
/// opening to closing.
pub proof fn an_account_shows_its_streak(closed: Seq<ClosedRow>, unrealized: Double, open: usize)
    ensures
        ({
            let s = standings::stats_of(closed, unrealized, open);
            let held = closed.map_values(
                |row: ClosedRow| row.result.closed_at.sub(row.result.opened_at),
            );
            &&& s.streak == standings::streak_on(
                closed.map_values(|row: ClosedRow| row.result.pnl),
                0,
            )
            &&& closed.len() > 0 ==> s.avg_hold_seconds == brain::sum(held).div(
                Double::whole(closed.len() as u64),
            )
        }),
{
    let held = closed.map_values(|row: ClosedRow| row.result.closed_at.sub(row.result.opened_at));
    assert(held =~= standings::holds(closed));
    assert(closed.map_values(|row: ClosedRow| row.result.pnl) =~= standings::pnls(closed));
}

proof fn lemma_falling(a: Double, b: Double)
    requires
        double::rank(b) <= double::rank(a),
    ensures
        !a.lt(b),
{
}

/// One more closed trade adds its result to the total of its symbol and to no other.
pub proof fn a_total_is_of_one_symbol(closed: Seq<ClosedRow>, row: ClosedRow, symbol: Seq<char>)
    ensures
        standings::total_of(Seq::empty(), symbol) == Double::zero(),
        row.symbol == symbol ==> standings::total_of(closed.push(row), symbol)
            == standings::total_of(closed, symbol).add(row.result.pnl),
        row.symbol != symbol ==> standings::total_of(closed.push(row), symbol)
            == standings::total_of(closed, symbol),
{
    assert(closed.push(row).drop_last() =~= closed);
}

proof fn lemma_symbols(closed: Seq<ClosedRow>)
    ensures
        standings::symbols(closed).no_duplicates(),
        standings::symbols(closed).len() <= closed.len(),
        forall|i: int|
            0 <= i < closed.len() ==> standings::symbols(closed).contains(
                (#[trigger] closed[i]).symbol,
            ),
    decreases closed.len(),
{
    if closed.len() > 0 {
        let rest = closed.drop_last();
        lemma_symbols(rest);
        let before = standings::symbols(rest);
        let after = standings::symbols(closed);
        assert forall|i: int| 0 <= i < closed.len() implies after.contains(
            (#[trigger] closed[i]).symbol,
        ) by {
            if i < rest.len() {
                assert(rest[i] == closed[i]);
                let k = choose|k: int| 0 <= k < before.len() && before[k] == rest[i].symbol;
                assert(after[k] == closed[i].symbol);
            } else {
                if before.contains(closed.last().symbol) {
                } else {
                    assert(after[before.len() as int] == closed[i].symbol);
                }
            }
        }
    }
}

/// At most eight symbols lead, each with its own total and none twice, the better total first;
/// a symbol that traded and does not lead is no better than any that does.
#[verifier::spinoff_prover]
pub proof fn the_best_symbols_lead(closed: Seq<ClosedRow>, i: int, j: int, row: int)
    requires
        closed.len() <= usize::MAX,
    ensures
        ({
            let shown = standings::leaders(closed);
            &&& shown.len() <= 8
            &&& shown.len() < 8 ==> (0 <= row < closed.len() ==> exists|k: int|
                0 <= k < shown.len() && (#[trigger] shown[k]).0 == closed[row].symbol)
            &&& 0 <= i < shown.len() ==> shown[i].1 == standings::total_of(closed, shown[i].0)
            &&& 0 <= i < j < shown.len() ==> !shown[i].1.lt(shown[j].1) && shown[i].0
                != shown[j].0
            &&& 0 <= row < closed.len() && 0 <= i < shown.len() ==> !shown[i].1.lt(
                standings::total_of(closed, closed[row].symbol),
            ) || exists|k: int| 0 <= k < shown.len() && (#[trigger] shown[k]).0 == closed[row].symbol
        }),
{
    let shown = standings::leaders(closed);
    let names = standings::symbols(closed);
    let sums = standings::totals(closed);
    let keys = sorting::falling_keys(sums);
    let places = sorting::order(keys);
    lemma_symbols(closed);
    sorting::every_list_has_an_order(keys);
    if 0 <= i < j < shown.len() {
        assert(sorting::before(keys, places[i], places[j]));
        lemma_falling(sums[places[i] as int], sums[places[j] as int]);
    }
    if 0 <= row < closed.len() {
        let k = choose|k: int| 0 <= k < names.len() && names[k] == closed[row].symbol;
        assert(names.contains(closed[row].symbol));
        assert(places.contains(k as usize));
        let p = choose|p: int| 0 <= p < places.len() && places[p] == k as usize;
        assert(sums[k] == standings::total_of(closed, closed[row].symbol));
        if p < shown.len() {
            assert(shown[p].0 == closed[row].symbol);
        } else if 0 <= i < shown.len() {
            assert(sorting::before(keys, places[i], places[p]));
            lemma_falling(sums[places[i] as int], sums[k]);
        }
    }
}

/// How many closed trades ended for a reason.
pub open spec fn ended_for(closed: Seq<ClosedRow>, reason: ExitReason) -> nat {
    closed.filter(|row: ClosedRow| row.result.reason == reason).len()
}

proof fn lemma_ended(closed: Seq<ClosedRow>, reason: ExitReason)
    ensures
        standings::count_of(closed, reason) == ended_for(closed, reason),
        standings::count_of(closed, reason) <= closed.len(),
    decreases closed.len(),
{
    reveal(Seq::filter);
    if closed.len() > 0 {
        lemma_ended(closed.drop_last(), reason);
    }
}

proof fn lemma_reasons(closed: Seq<ClosedRow>)
    ensures
        standings::reasons(closed).no_duplicates(),
        standings::reasons(closed).len() <= closed.len(),
        forall|i: int|
            0 <= i < closed.len() ==> standings::reasons(closed).contains(
                (#[trigger] closed[i]).result.reason,
            ),
    decreases closed.len(),
{
    if closed.len() > 0 {
        let rest = closed.drop_last();
        lemma_reasons(rest);
        let before = standings::reasons(rest);
        let after = standings::reasons(closed);
        assert forall|i: int| 0 <= i < closed.len() implies after.contains(
            (#[trigger] closed[i]).result.reason,
        ) by {
            if i < rest.len() {
                assert(rest[i] == closed[i]);
                let k = choose|k: int| 0 <= k < before.len() && before[k] == rest[i].result.reason;
                assert(after[k] == closed[i].result.reason);
            } else {
                if before.contains(closed.last().result.reason) {
                } else {
                    assert(after[before.len() as int] == closed[i].result.reason);
                }
            }
        }
    }
}

/// The reasons for which trades ended are listed once each with how many ended so, the more
/// frequent first, and every trade's reason is listed.
#[verifier::spinoff_prover]
pub proof fn reasons_are_counted(closed: Seq<ClosedRow>, i: int, j: int, row: int)
    requires
        closed.len() <= usize::MAX,
    ensures
        ({
            let shown = standings::reason_counts(closed);
            &&& 0 <= i < shown.len() ==> shown[i].1 == ended_for(closed, shown[i].0)
            &&& 0 <= i < j < shown.len() ==> shown[i].1 >= shown[j].1 && shown[i].0 != shown[j].0
            &&& 0 <= row < closed.len() ==> exists|k: int|
                0 <= k < shown.len() && (#[trigger] shown[k]).0 == closed[row].result.reason
        }),
{
    let shown = standings::reason_counts(closed);
    let names = standings::reasons(closed);
    let keys = standings::reason_keys(closed);
    let places = sorting::order(keys);
    lemma_reasons(closed);
    sorting::every_list_has_an_order(keys);
    if 0 <= i < shown.len() {
        lemma_ended(closed, shown[i].0);
        assert(keys[places[i] as int] == -(standings::count_of(closed, shown[i].0) as int));
    }
    if 0 <= i < j < shown.len() {
        lemma_ended(closed, shown[j].0);
        assert(keys[places[j] as int] == -(standings::count_of(closed, shown[j].0) as int));
        assert(sorting::before(keys, places[i], places[j]));
    }
    if 0 <= row < closed.len() {
        assert(names.contains(closed[row].result.reason));
        let k = choose|k: int| 0 <= k < names.len() && names[k] == closed[row].result.reason;
        assert(places.contains(k as usize));
        let p = choose|p: int| 0 <= p < places.len() && places[p] == k as usize;
        assert(shown[p].0 == closed[row].result.reason);
    }
}

/// What the first so many trades of a list brought together.
pub open spec fn brought(rows: Seq<ClosedRow>, count: int) -> Double
    decreases count,
{
    if count <= 0 {
        Double::zero()
    } else {
        brought(rows, count - 1).add(rows[count - 1].result.pnl)
    }
}

proof fn lemma_brought(rows: Seq<ClosedRow>, count: int)
    requires
        0 <= count <= rows.len(),
    ensures
        figures::course(standings::pnls(rows).take(count)).running == brought(rows, count),
    decreases count,
{
    let all = standings::pnls(rows).take(count);
    if count > 0 {
        lemma_brought(rows, count - 1);
        assert(all.drop_last() =~= standings::pnls(rows).take(count - 1));
        assert(all.last() == rows[count - 1].result.pnl);
    }
}

/// The equity curve goes through the trades by the moment they were closed, each trade once, and
/// has at each the moment and, to four places, what all trades up to it brought; of more than 150
/// points the last are shown.
#[verifier::spinoff_prover]
pub proof fn the_curve_adds_up_the_results(closed: Seq<ClosedRow>, i: int, j: int, row: int)
    requires
        closed.len() <= usize::MAX,
    ensures
        ({
            let rows = standings::by_time(closed);
            let shown = standings::curve(closed);
            let skipped = rows.len() - shown.len();
            &&& rows.len() == closed.len()
            &&& 0 <= row < closed.len() ==> exists|k: int|
                0 <= k < rows.len() && #[trigger] rows[k] == closed[row]
            &&& 0 <= i < j < rows.len() ==> !rows[j].result.closed_at.lt(rows[i].result.closed_at)
            &&& shown.len() == if closed.len() > 150 {
                150
            } else {
                closed.len()
            }
            &&& 0 <= i < shown.len() ==> shown[i].t == rows[skipped + i].result.closed_at
            &&& 0 <= i < shown.len() ==> shown[i].v == brought(rows, skipped + i + 1).mul(
                Double::whole(10_000),
            ).round().div(Double::whole(10_000))
        }),
{
    let keys = sorting::rank_keys(standings::times(closed));
    let places = sorting::order(keys);
    let rows = standings::by_time(closed);
    let shown = standings::curve(closed);
    let skipped = rows.len() - shown.len();
    sorting::every_list_has_an_order(keys);
    if 0 <= row < closed.len() {
        assert(places.contains(row as usize));
        let p = choose|p: int| 0 <= p < places.len() && places[p] == row as usize;
        assert(rows[p] == closed[row]);
    }
    if 0 <= i < j < rows.len() {
        assert(sorting::before(keys, places[i], places[j]));
        lemma_falling(rows[j].result.closed_at, rows[i].result.closed_at);
    }
    if 0 <= i < shown.len() {
        lemma_brought(rows, skipped + i + 1);
    }
}

/// The drawdown of an account is the deepest fall through its trades by the moment they were
/// closed: it is a fall from some stand to a later one, the beginning included, and no fall is
/// deeper.
pub proof fn the_drawdown_goes_by_time(closed: Seq<ClosedRow>, unrealized: Double, open: usize)
    requires
        forall|i: int|
            0 <= i <= standings::by_time(closed).len() ==> (#[trigger] readiness_laws::stand(
                standings::pnls(standings::by_time(closed)).reverse(),
                i,
            )).finite(),
    ensures
        ({
            let results = standings::pnls(standings::by_time(closed)).reverse();
            let deepest = standings::stats_of(closed, unrealized, open).max_drawdown;
            &&& forall|i: int, j: int|
                0 <= i <= j <= results.len() ==> #[trigger] readiness_laws::stand(results, i).sub(
                    readiness_laws::stand(results, j),
                ).le(deepest)
            &&& exists|i: int, j: int|
                0 <= i <= j <= results.len() && deepest == #[trigger] readiness_laws::stand(
                    results,
                    i,
                ).sub(readiness_laws::stand(results, j))
        }),
{
    let ordered = standings::pnls(standings::by_time(closed));
    let results = ordered.reverse();
    assert(results.reverse() =~= ordered);
    readiness_laws::the_drawdown_is_the_deepest_fall(results, Double::one());
}

/// A snapshot shows the newest forty trades and the newest eighty log lines, newest first, each
/// trade with how long it was held.
pub proof fn a_snapshot_shows_the_newest(m: MarketView, settings: Settings, clock: Double, i: int)
    ensures
        ({
            let s = snapshot::snapshot_of(m, settings, clock);
            &&& s.closed_trades.len() == if m.closed.len() > 40 {
                40
            } else {
                m.closed.len()
            }
            &&& 0 <= i < s.closed_trades.len() ==> {
                &&& s.closed_trades[i].symbol == m.closed[i].symbol
                &&& s.closed_trades[i].result == m.closed[i].result
                &&& s.closed_trades[i].held == m.closed[i].result.closed_at.sub(
                    m.closed[i].result.opened_at,
                )
            }
            &&& s.logs.len() == if m.journal.logs.len() > 80 {
                80
            } else {
                m.journal.logs.len()
            }
            &&& 0 <= i < s.logs.len() ==> s.logs[i] == m.journal.logs[i]
        }),
{
}

/// A snapshot is of its moment and of the state as it stands.
pub proof fn a_snapshot_is_of_its_moment(m: MarketView, settings: Settings, clock: Double)
    ensures
        ({
            let s = snapshot::snapshot_of(m, settings, clock);
            &&& s.timestamp == clock
            &&& s.uptime == clock.sub(m.started_at)
            &&& s.source == m.source
            &&& s.connections == m.connections
            &&& s.last_scan == m.last_scan
            &&& s.session == m.session
            &&& s.live_readiness == readiness::readiness_of(
                m.closed.map_values(|row: ClosedRow| row.result.pnl),
                m.data_quality_errors,
                settings,
            )
            &&& s.equity_curve == standings::curve(m.closed)
            &&& s.exit_reasons == standings::reason_counts(m.closed)
            &&& s.leaderboard == standings::leaders(m.closed)
            &&& s.reject_counts == snapshot::entries(m.journal.reject_counts)
            &&& s.radar == snapshot::entries(m.metrics)
            &&& s.positions == snapshot::entries(m.positions)
            &&& s.stats.open == m.positions.dom().len() as usize
            &&& s.stats.unrealized == brain::sum(
                s.positions.map_values(
                    |e: (Seq<char>, crate::models::Position)| e.1.unrealized,
                ),
            )
        }),
{
    let s = snapshot::snapshot_of(m, settings, clock);
    assert(m.closed.map_values(|row: ClosedRow| row.result.pnl) =~= standings::pnls(m.closed));
    assert(s.positions.map_values(|e: (Seq<char>, crate::models::Position)| e.1.unrealized)
        =~= snapshot::open_results(m.positions));
}

/// A table is shown as all its entries and nothing else, in the order of their names. (`listed`
/// is the names in that order.)
pub proof fn entries_are_all_shown<V>(items: Map<Seq<char>, V>, listed: Seq<Seq<char>>, i: int)
    requires
        sorting::is_listing(items.dom(), listed),
    ensures
        ({
            let shown = snapshot::entries(items);
            &&& shown.len() == listed.len()
            &&& 0 <= i < listed.len() ==> shown[i] == (listed[i], items[listed[i]])
        }),
{
    sorting::listing_is_unique(items.dom(), sorting::listing(items.dom()), listed);
}

/// Every tracker is shown with its own phase, reason and details, in the order of the symbols.
/// (`listed` is the symbols in that order.)
pub proof fn trackers_are_all_shown(
    trackers: Map<Seq<char>, TrackerView>,
    listed: Seq<Seq<char>>,
    i: int,
)
    requires
        sorting::is_listing(trackers.dom(), listed),
    ensures
        ({
            let shown = snapshot::reports(trackers);
            &&& shown.len() == listed.len()
            &&& 0 <= i < listed.len() ==> {
                let tracker = trackers[listed[i]];
                &&& shown[i].0 == listed[i]
                &&& shown[i].1.phase == mtf_tracker::phase_label(tracker.phase)
                &&& shown[i].1.reason == tracker.reason
                &&& shown[i].1.details == snapshot::details_of(tracker.phase)
            }
        }),
{
    sorting::listing_is_unique(trackers.dom(), sorting::listing(trackers.dom()), listed);
}

/// Of a setup in the making is shown what has been found so far: its context once there is one,
/// its confirmation once there is one, its trigger once it was inverted, its deadline until it is
/// ready, and its entry level when it is.
pub proof fn what_was_found_is_shown(phase: MtfPhase)
    ensures
        ({
            let d = snapshot::details_of(phase);
            &&& d.context is None <==> phase is WaitingContext
            &&& d.confirmation is Some <==> !(phase is WaitingContext
                || phase is WaitingContextTouch || phase is WaitingM1)
            &&& d.trigger is Some <==> phase is WaitingS5Retest || phase is Ready
            &&& d.entry_level is Some <==> phase is Ready
            &&& d.inverted_at is Some <==> phase is WaitingS5Retest
            &&& d.context_touched_at is Some <==> phase is WaitingM1
            &&& d.deadline is Some <==> phase is WaitingM1 || phase is WaitingS5Candidate
                || phase is WaitingS5Inversion || phase is WaitingS5Retest
            &&& match phase {
                MtfPhase::WaitingContext => true,
                MtfPhase::WaitingContextTouch { context, .. } => d.context == Some(context),
                MtfPhase::WaitingM1 { context, touched_at, deadline, .. } => d.context == Some(
                    context,
                ) && d.context_touched_at == Some(touched_at) && d.deadline == Some(deadline),
                MtfPhase::WaitingS5Candidate { context, confirmation, deadline, .. } => d.context
                    == Some(context) && d.confirmation == Some(confirmation) && d.deadline == Some(
                    deadline,
                ),
                MtfPhase::WaitingS5Inversion { context, confirmation, deadline, .. } => d.context
                    == Some(context) && d.confirmation == Some(confirmation) && d.deadline == Some(
                    deadline,
                ),
                MtfPhase::WaitingS5Retest {
                    context,
                    confirmation,
                    trigger,
                    inverted_at,
                    deadline,
                    ..
                } => d.context == Some(context) && d.confirmation == Some(confirmation)
                    && d.trigger == Some(trigger) && d.inverted_at == Some(inverted_at)
                    && d.deadline == Some(deadline),
                MtfPhase::Ready(setup) => d.context == Some(setup.context) && d.confirmation
                    == Some(setup.confirmation) && d.trigger == Some(setup.trigger)
                    && d.entry_level == Some(setup.entry_level),
            }
        }),
{
}

} // verus!

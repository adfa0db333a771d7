//! How the paper account stands: totals, streaks, equity and rankings of closed trades.
use vstd::prelude::*;
use std::collections::VecDeque;
use crate::brain;
use crate::double::Double;
use crate::figures;
use crate::figures::Course;
use crate::models::{ClosedTrade, ExitReason};
use crate::readiness;
use crate::sorting;
use crate::state;
use crate::state::ClosedRow;
use crate::text;

verus! {

/// The most points of the equity curve that are shown.
pub const SHOWN_POINTS: usize = 150;

/// The most symbols of the leaderboard that are shown.
pub const SHOWN_LEADERS: usize = 8;

/// The net results of closed trades.
pub open spec fn pnls(closed: Seq<ClosedRow>) -> Seq<Double> {
    closed.map_values(|r: ClosedRow| r.result.pnl)
}

/// The net results of closed trades.
pub fn pnls_of(closed: &VecDeque<ClosedTrade>) -> (r: Vec<Double>)
    ensures
        r@ == pnls(state::closed_rows(closed@)),
{
    let ghost all = pnls(state::closed_rows(closed@));
    let mut r: Vec<Double> = Vec::new();
    let mut i: usize = 0;
    while i < closed.len()
        invariant
            i <= closed@.len(),
            all == pnls(state::closed_rows(closed@)),
            r@ == all.take(i as int),
        decreases closed@.len() - i,
    {
        r.push(closed[i].result.pnl);
        assert(all.take(i + 1) =~= all.take(i as int).push(all[i as int]));
        i = i + 1;
    }
    assert(all.take(i as int) =~= all);
    r
}

/// How long closed trades were held.
pub open spec fn holds(closed: Seq<ClosedRow>) -> Seq<Double> {
    closed.map_values(|r: ClosedRow| r.result.closed_at.sub(r.result.opened_at))
}

/// How long closed trades were held.
pub fn holds_of(closed: &VecDeque<ClosedTrade>) -> (r: Vec<Double>)
    ensures
        r@ == holds(state::closed_rows(closed@)),
{
    let ghost all = holds(state::closed_rows(closed@));
    let mut r: Vec<Double> = Vec::new();
    let mut i: usize = 0;
    while i < closed.len()
        invariant
            i <= closed@.len(),
            all == holds(state::closed_rows(closed@)),
            r@ == all.take(i as int),
        decreases closed@.len() - i,
    {
        let result = closed[i].result;
        r.push(result.closed_at.sub(result.opened_at));
        assert(all.take(i + 1) =~= all.take(i as int).push(all[i as int]));
        i = i + 1;
    }
    assert(all.take(i as int) =~= all);
    r
}

/// The symbols of closed trades, each where it comes first.
pub open spec fn symbols(closed: Seq<ClosedRow>) -> Seq<Seq<char>>
    decreases closed.len(),
{
    if closed.len() == 0 {
        Seq::empty()
    } else {
        let before = symbols(closed.drop_last());
        if before.contains(closed.last().symbol) {
            before
        } else {
            before.push(closed.last().symbol)
        }
    }
}

/// The net result of one symbol, summed in the order given.
pub open spec fn total_of(closed: Seq<ClosedRow>, symbol: Seq<char>) -> Double
    decreases closed.len(),
{
    if closed.len() == 0 {
        Double::zero()
    } else {
        let before = total_of(closed.drop_last(), symbol);
        if closed.last().symbol == symbol {
            before.add(closed.last().result.pnl)
        } else {
            before
        }
    }
}

/// The net result of each symbol.
pub open spec fn totals(closed: Seq<ClosedRow>) -> Seq<Double> {
    symbols(closed).map_values(|s: Seq<char>| total_of(closed, s))
}

/// The symbols with the best net results and these, best first; of equal ones the symbol
/// that comes first in the list.
pub open spec fn leaders(closed: Seq<ClosedRow>) -> Seq<(Seq<char>, Double)> {
    let places = sorting::order(sorting::falling_keys(totals(closed)));
    let all = Seq::new(
        places.len(),
        |i: int| (symbols(closed)[places[i] as int], totals(closed)[places[i] as int]),
    );
    if all.len() > SHOWN_LEADERS {
        all.take(SHOWN_LEADERS as int)
    } else {
        all
    }
}

fn find_text(list: &Vec<String>, name: &str) -> (r: Option<usize>)
    ensures
        match r {
            Some(i) => i < list@.len() && list@[i as int]@ == name@,
            None => !sorting::texts(list@).contains(name@),
        },
{
    let ghost all = sorting::texts(list@);
    let mut i: usize = 0;
    while i < list.len()
        invariant
            i <= list@.len(),
            all == sorting::texts(list@),
            forall|j: int| 0 <= j < i ==> #[trigger] all[j] != name@,
        decreases list@.len() - i,
    {
        if text::text_eq(list[i].as_str(), name) {
            return Some(i);
        }
        assert(all[i as int] == list@[i as int]@);
        i = i + 1;
    }
    None
}

proof fn lemma_symbols_distinct(closed: Seq<ClosedRow>)
    ensures
        symbols(closed).no_duplicates(),
    decreases closed.len(),
{
    if closed.len() > 0 {
        lemma_symbols_distinct(closed.drop_last());
    }
}

proof fn lemma_unseen_total(closed: Seq<ClosedRow>, symbol: Seq<char>)
    requires
        !symbols(closed).contains(symbol),
    ensures
        total_of(closed, symbol) == Double::zero(),
    decreases closed.len(),
{
    if closed.len() > 0 {
        let before = symbols(closed.drop_last());
        let last = closed.last().symbol;
        if before.contains(symbol) {
            let i = choose|i: int| 0 <= i < before.len() && before[i] == symbol;
            assert(symbols(closed)[i] == symbol);
        }
        if last == symbol && !before.contains(last) {
            assert(symbols(closed).last() == symbol);
        }
        lemma_unseen_total(closed.drop_last(), symbol);
    }
}

proof fn lemma_one_more(closed: Seq<ClosedRow>, row: ClosedRow, at: int)
    requires
        0 <= at < symbols(closed).len(),
        symbols(closed)[at] == row.symbol,
    ensures
        symbols(closed.push(row)) == symbols(closed),
        totals(closed.push(row)) == totals(closed).update(
            at,
            totals(closed)[at].add(row.result.pnl),
        ),
{
    let next = closed.push(row);
    assert(next.drop_last() =~= closed);
    assert(symbols(closed).contains(row.symbol));
    lemma_symbols_distinct(closed);
    assert forall|i: int| 0 <= i < symbols(closed).len() implies totals(next)[i] == totals(
        closed,
    ).update(at, totals(closed)[at].add(row.result.pnl))[i] by {
        if i != at {
            assert(symbols(closed)[i] != symbols(closed)[at]);
        }
    }
    assert(totals(next) =~= totals(closed).update(at, totals(closed)[at].add(row.result.pnl)));
}

proof fn lemma_one_new(closed: Seq<ClosedRow>, row: ClosedRow)
    requires
        !symbols(closed).contains(row.symbol),
    ensures
        symbols(closed.push(row)) == symbols(closed).push(row.symbol),
        totals(closed.push(row)) == totals(closed).push(Double::zero().add(row.result.pnl)),
{
    let next = closed.push(row);
    assert(next.drop_last() =~= closed);
    lemma_unseen_total(closed, row.symbol);
    assert forall|i: int| 0 <= i < symbols(closed).len() implies totals(next)[i] == totals(
        closed,
    )[i] by {
        assert(symbols(closed).contains(symbols(closed)[i]));
    }
    assert(totals(next) =~= totals(closed).push(Double::zero().add(row.result.pnl)));
}

/// Names with figures, by their contents.
pub open spec fn named<V>(rows: Seq<(String, V)>) -> Seq<(Seq<char>, V)> {
    rows.map_values(|r: (String, V)| (r.0@, r.1))
}

/// The best symbols and their net results, best first.
pub fn leaderboard(closed: &VecDeque<ClosedTrade>) -> (r: Vec<(String, Double)>)
    ensures
        named(r@) == leaders(state::closed_rows(closed@)),
        r@.len() <= SHOWN_LEADERS,
{
    let ghost all = state::closed_rows(closed@);
    let mut names: Vec<String> = Vec::new();
    let mut sums: Vec<Double> = Vec::new();
    let mut i: usize = 0;
    assert(sorting::texts(names@) =~= symbols(all.take(0)));
    assert(sums@ =~= totals(all.take(0)));
    while i < closed.len()
        invariant
            i <= closed@.len(),
            all == state::closed_rows(closed@),
            sorting::texts(names@) == symbols(all.take(i as int)),
            sums@ == totals(all.take(i as int)),
        decreases closed@.len() - i,
    {
        let trade = &closed[i];
        let ghost row = all[i as int];
        assert(row == trade@);
        assert(all.take(i + 1) =~= all.take(i as int).push(row));
        assert(sums@.len() == sorting::texts(names@).len());
        match find_text(&names, trade.symbol.as_str()) {
            Some(at) => {
                proof {
                    assert(sorting::texts(names@)[at as int] == row.symbol);
                    lemma_one_more(all.take(i as int), row, at as int);
                }
                let total = sums[at].add(trade.result.pnl);
                sums.set(at, total);
            },
            None => {
                proof {
                    lemma_one_new(all.take(i as int), row);
                }
                let ghost before = sorting::texts(names@);
                names.push(trade.symbol.clone());
                assert(sorting::texts(names@) =~= before.push(row.symbol));
                sums.push(Double::zero().add(trade.result.pnl));
            },
        }
        i = i + 1;
    }
    assert(all.take(i as int) =~= all);
    let places = sorting::falling_order(&sums);
    let shown = if places.len() > SHOWN_LEADERS {
        SHOWN_LEADERS
    } else {
        places.len()
    };
    let ghost expected = leaders(all);
    assert(sums@.len() == sorting::texts(names@).len());
    let mut r: Vec<(String, Double)> = Vec::new();
    let mut k: usize = 0;
    assert(named(r@) =~= expected.take(0));
    while k < shown
        invariant
            k <= shown <= places@.len(),
            shown == expected.len(),
            places@.len() == sums@.len(),
            names@.len() == sums@.len(),
            sorting::texts(names@) == symbols(all),
            sums@ == totals(all),
            expected == leaders(all),
            places@ == sorting::order(sorting::falling_keys(totals(all))),
            forall|x: int| 0 <= x < places@.len() ==> #[trigger] places@[x] < sums@.len(),
            named(r@) == expected.take(k as int),
        decreases shown - k,
    {
        let at = places[k];
        let ghost before = named(r@);
        r.push((names[at].clone(), sums[at]));
        proof {
            assert(sorting::texts(names@)[at as int] == names@[at as int]@);
            assert(named(r@) =~= before.push(expected[k as int]));
            assert(expected.take(k + 1) =~= expected.take(k as int).push(expected[k as int]));
        }
        k = k + 1;
    }
    assert(expected.take(k as int) =~= expected);
    assert(r@.len() == named(r@).len());
    r
}

/// The reasons of closed trades, each where it comes first.
pub open spec fn reasons(closed: Seq<ClosedRow>) -> Seq<ExitReason>
    decreases closed.len(),
{
    if closed.len() == 0 {
        Seq::empty()
    } else {
        let before = reasons(closed.drop_last());
        if before.contains(closed.last().result.reason) {
            before
        } else {
            before.push(closed.last().result.reason)
        }
    }
}

/// How many trades were closed for a reason.
pub open spec fn count_of(closed: Seq<ClosedRow>, reason: ExitReason) -> nat
    decreases closed.len(),
{
    if closed.len() == 0 {
        0
    } else {
        count_of(closed.drop_last(), reason) + if closed.last().result.reason == reason {
            1nat
        } else {
            0nat
        }
    }
}

/// Keys that order the reasons of closed trades by falling counts.
pub open spec fn reason_keys(closed: Seq<ClosedRow>) -> Seq<i128> {
    Seq::new(
        reasons(closed).len(),
        |i: int| (-(count_of(closed, reasons(closed)[i]) as int)) as i128,
    )
}

/// The reasons of closed trades and how often they occurred, most frequent first; of equally
/// frequent ones the reason that comes first in the list.
pub open spec fn reason_counts(closed: Seq<ClosedRow>) -> Seq<(ExitReason, u64)> {
    let places = sorting::order(reason_keys(closed));
    Seq::new(
        places.len(),
        |i: int|
            {
                let reason = reasons(closed)[places[i] as int];
                (reason, count_of(closed, reason) as u64)
            },
    )
}

proof fn lemma_reasons_distinct(closed: Seq<ClosedRow>)
    ensures
        reasons(closed).no_duplicates(),
    decreases closed.len(),
{
    if closed.len() > 0 {
        lemma_reasons_distinct(closed.drop_last());
    }
}

proof fn lemma_unseen_reason(closed: Seq<ClosedRow>, reason: ExitReason)
    requires
        !reasons(closed).contains(reason),
    ensures
        count_of(closed, reason) == 0,
    decreases closed.len(),
{
    if closed.len() > 0 {
        let before = reasons(closed.drop_last());
        let last = closed.last().result.reason;
        if before.contains(reason) {
            let i = choose|i: int| 0 <= i < before.len() && before[i] == reason;
            assert(reasons(closed)[i] == reason);
        }
        if last == reason && !before.contains(last) {
            assert(reasons(closed).last() == reason);
        }
        lemma_unseen_reason(closed.drop_last(), reason);
    }
}

fn find_reason(list: &Vec<ExitReason>, reason: ExitReason) -> (r: Option<usize>)
    ensures
        match r {
            Some(i) => i < list@.len() && list@[i as int] == reason,
            None => !list@.contains(reason),
        },
{
    let mut i: usize = 0;
    while i < list.len()
        invariant
            i <= list@.len(),
            forall|j: int| 0 <= j < i ==> #[trigger] list@[j] != reason,
        decreases list@.len() - i,
    {
        if list[i] == reason {
            return Some(i);
        }
        i = i + 1;
    }
    None
}

/// The reasons for which trades were closed, most frequent first.
pub fn exit_reasons(closed: &VecDeque<ClosedTrade>) -> (r: Vec<(ExitReason, u64)>)
    ensures
        r@ == reason_counts(state::closed_rows(closed@)),
{
    let ghost all = state::closed_rows(closed@);
    let mut names: Vec<ExitReason> = Vec::new();
    let mut counts: Vec<u64> = Vec::new();
    let mut i: usize = 0;
    while i < closed.len()
        invariant
            i <= closed@.len(),
            all == state::closed_rows(closed@),
            names@ == reasons(all.take(i as int)),
            counts@.len() == names@.len(),
            forall|k: int|
                0 <= k < counts@.len() ==> #[trigger] counts@[k] == count_of(
                    all.take(i as int),
                    names@[k],
                ) && counts@[k] <= i,
        decreases closed@.len() - i,
    {
        let reason = closed[i].result.reason;
        let ghost before = all.take(i as int);
        let ghost next = all.take(i + 1);
        proof {
            assert(next.drop_last() =~= before);
            assert(next.last() == closed@[i as int]@);
            lemma_reasons_distinct(before);
        }
        match find_reason(&names, reason) {
            Some(at) => {
                let count = counts[at] + 1;
                counts.set(at, count);
            },
            None => {
                proof {
                    lemma_unseen_reason(before, reason);
                    assert forall|k: int| 0 <= k < names@.len() implies names@[k] != reason by {
                        assert(names@.contains(names@[k]));
                    }
                }
                names.push(reason);
                counts.push(1);
            },
        }
        i = i + 1;
    }
    assert(all.take(i as int) =~= all);
    let mut keys: Vec<i128> = Vec::new();
    let mut j: usize = 0;
    while j < counts.len()
        invariant
            j <= counts@.len(),
            counts@.len() == names@.len(),
            names@ == reasons(all),
            forall|k: int|
                0 <= k < counts@.len() ==> #[trigger] counts@[k] == count_of(all, names@[k]),
            keys@ == reason_keys(all).take(j as int),
        decreases counts@.len() - j,
    {
        keys.push(-(counts[j] as i128));
        assert(reason_keys(all).take(j + 1) =~= reason_keys(all).take(j as int).push(
            reason_keys(all)[j as int],
        ));
        j = j + 1;
    }
    assert(reason_keys(all).take(j as int) =~= reason_keys(all));
    let places = sorting::stable_order(&keys);
    let ghost expected = reason_counts(all);
    let mut r: Vec<(ExitReason, u64)> = Vec::new();
    let mut k: usize = 0;
    while k < places.len()
        invariant
            k <= places@.len(),
            places@ == sorting::order(reason_keys(all)),
            places@.len() == counts@.len(),
            counts@.len() == names@.len(),
            names@ == reasons(all),
            expected == reason_counts(all),
            forall|x: int| 0 <= x < places@.len() ==> #[trigger] places@[x] < counts@.len(),
            forall|x: int|
                0 <= x < counts@.len() ==> #[trigger] counts@[x] == count_of(all, names@[x]),
            r@ == expected.take(k as int),
        decreases places@.len() - k,
    {
        let at = places[k];
        r.push((names[at], counts[at]));
        assert(expected.take(k + 1) =~= expected.take(k as int).push(expected[k as int]));
        k = k + 1;
    }
    assert(expected.take(k as int) =~= expected);
    r
}

/// A point of the equity curve.
#[derive(Clone, Copy, Debug, PartialEq, Eq, Structural)]
pub struct EquityPoint {
    pub t: Double,
    pub v: Double,
}

/// A number with four decimals.
pub open spec fn spec_rounded(x: Double) -> Double {
    x.mul(Double::whole(10_000)).round().div(Double::whole(10_000))
}

#[verifier::when_used_as_spec(spec_rounded)]
pub fn rounded(x: Double) -> (r: Double)
    ensures
        r == spec_rounded(x),
{
    x.mul(Double::whole(10_000)).round().div(Double::whole(10_000))
}

/// When trades were closed.
pub open spec fn times(closed: Seq<ClosedRow>) -> Seq<Double> {
    closed.map_values(|r: ClosedRow| r.result.closed_at)
}

/// Closed trades in the order in which they were closed.
pub open spec fn by_time(closed: Seq<ClosedRow>) -> Seq<ClosedRow> {
    sorting::picked(closed, sorting::order(sorting::rank_keys(times(closed))))
}

/// The points of the equity curve of trades in the order in which they were closed.
pub open spec fn points(rows: Seq<ClosedRow>) -> Seq<EquityPoint> {
    Seq::new(
        rows.len(),
        |i: int|
            EquityPoint {
                t: rows[i].result.closed_at,
                v: rounded(figures::course(pnls(rows).take(i + 1)).running),
            },
    )
}

/// The equity curve as it is shown: its last points.
pub open spec fn curve(closed: Seq<ClosedRow>) -> Seq<EquityPoint> {
    let all = points(by_time(closed));
    if all.len() > SHOWN_POINTS {
        all.skip(all.len() - SHOWN_POINTS)
    } else {
        all
    }
}

/// The equity curve of closed trades, and the account's course along it.
pub fn equity(closed: &VecDeque<ClosedTrade>) -> (r: (Vec<EquityPoint>, Course))
    ensures
        r.0@ == curve(state::closed_rows(closed@)),
        r.0@.len() <= SHOWN_POINTS,
        r.1 == figures::course(pnls(by_time(state::closed_rows(closed@)))),
{
    let ghost all = state::closed_rows(closed@);
    let mut stamps: Vec<Double> = Vec::new();
    let mut i: usize = 0;
    while i < closed.len()
        invariant
            i <= closed@.len(),
            all == state::closed_rows(closed@),
            stamps@ == times(all).take(i as int),
        decreases closed@.len() - i,
    {
        stamps.push(closed[i].result.closed_at);
        assert(times(all).take(i + 1) =~= times(all).take(i as int).push(times(all)[i as int]));
        i = i + 1;
    }
    assert(times(all).take(i as int) =~= times(all));
    let places = sorting::rising_order(&stamps);
    let n = places.len();
    let ghost rows = by_time(all);
    let ghost results = pnls(rows);
    let skipped = if n > SHOWN_POINTS {
        n - SHOWN_POINTS
    } else {
        0
    };
    let mut course = Course::start();
    let mut r: Vec<EquityPoint> = Vec::new();
    let mut k: usize = 0;
    while k < n
        invariant
            k <= n,
            n == places@.len(),
            n == rows.len(),
            n == closed@.len(),
            all == state::closed_rows(closed@),
            rows == sorting::picked(all, places@),
            results == pnls(rows),
            skipped == (if n > SHOWN_POINTS {
                n - SHOWN_POINTS
            } else {
                0
            }),
            forall|x: int| 0 <= x < places@.len() ==> #[trigger] places@[x] < closed@.len(),
            course == figures::course(results.take(k as int)),
            r@ == points(rows).subrange(
                if skipped <= k {
                    skipped as int
                } else {
                    k as int
                },
                k as int,
            ),
        decreases n - k,
    {
        let at = places[k];
        let result = closed[at].result;
        proof {
            assert(results.take(k + 1).drop_last() =~= results.take(k as int));
            assert(results[k as int] == result.pnl);
        }
        course = course.after(result.pnl);
        if k >= skipped {
            r.push(EquityPoint { t: result.closed_at, v: rounded(course.running) });
            assert(r@ =~= points(rows).subrange(skipped as int, k + 1));
        } else {
            assert(r@ =~= points(rows).subrange(k + 1, k + 1));
        }
        k = k + 1;
    }
    assert(results.take(k as int) =~= results);
    assert(r@ =~= curve(all));
    (r, course)
}

/// The run of wins, or of losses as a negative number, that a list begins with, on top of
/// one that has been counted. Results of zero are passed over.
pub open spec fn streak_on(pnls: Seq<Double>, counted: i64) -> i64
    decreases pnls.len(),
{
    if pnls.len() == 0 {
        counted
    } else if pnls[0].same(Double::zero()) {
        streak_on(pnls.drop_first(), counted)
    } else {
        let sign: i64 = if pnls[0].gt(Double::zero()) {
            1i64
        } else {
            -1i64
        };
        if counted == 0 {
            streak_on(pnls.drop_first(), sign)
        } else if (counted > 0) == (sign > 0) {
            streak_on(pnls.drop_first(), counted.wrapping_add(sign))
        } else {
            counted
        }
    }
}

/// The run of wins, or of losses as a negative number, that a list begins with.
pub fn streak_of(pnls: &Vec<Double>) -> (r: i64)
    ensures
        r == streak_on(pnls@, 0),
{
    let mut streak: i64 = 0;
    let mut i: usize = 0;
    assert(pnls@.skip(0) =~= pnls@);
    while i < pnls.len()
        invariant
            i <= pnls@.len(),
            streak_on(pnls@, 0) == streak_on(pnls@.skip(i as int), streak),
        decreases pnls@.len() - i,
    {
        let pnl = pnls[i];
        proof {
            assert(pnls@.skip(i as int)[0] == pnl);
            assert(pnls@.skip(i as int).drop_first() =~= pnls@.skip(i + 1));
        }
        if !pnl.same(Double::zero()) {
            let sign: i64 = if pnl.gt(Double::zero()) {
                1
            } else {
                -1
            };
            if streak == 0 {
                streak = sign;
            } else if (streak > 0) == (sign > 0) {
                streak = streak.wrapping_add(sign);
            } else {
                return streak;
            }
        }
        i = i + 1;
    }
    streak
}

/// The largest of some numbers, minus infinity for none.
pub open spec fn largest_of(xs: Seq<Double>) -> Double
    decreases xs.len(),
{
    if xs.len() == 0 {
        Double::infinity().neg()
    } else {
        largest_of(xs.drop_last()).max(xs.last())
    }
}

/// The smallest of some numbers, infinity for none.
pub open spec fn smallest_of(xs: Seq<Double>) -> Double
    decreases xs.len(),
{
    if xs.len() == 0 {
        Double::infinity()
    } else {
        smallest_of(xs.drop_last()).min(xs.last())
    }
}

/// The largest and the smallest of some numbers.
pub fn extremes(xs: &Vec<Double>) -> (r: (Double, Double))
    ensures
        r == (largest_of(xs@), smallest_of(xs@)),
{
    let mut most = Double::infinity().neg();
    let mut least = Double::infinity();
    let mut i: usize = 0;
    while i < xs.len()
        invariant
            i <= xs@.len(),
            most == largest_of(xs@.take(i as int)),
            least == smallest_of(xs@.take(i as int)),
        decreases xs@.len() - i,
    {
        assert(xs@.take(i + 1).drop_last() =~= xs@.take(i as int));
        most = most.max(xs[i]);
        least = least.min(xs[i]);
        i = i + 1;
    }
    assert(xs@.take(i as int) =~= xs@);
    (most, least)
}

/// What was won for each unit lost.
#[derive(Clone, Copy, Debug, PartialEq, Eq, Structural)]
pub enum ProfitFactor {
    Ratio(Double),
    /// There are gains and no losses.
    Unbounded,
    /// There are neither.
    Nothing,
}

/// The figures of the account.
#[derive(Clone, Copy, Debug, PartialEq, Eq, Structural)]
pub struct Stats {
    pub pnl: Double,
    pub realized: Double,
    pub unrealized: Double,
    pub win_rate: Double,
    pub profit_factor: ProfitFactor,
    pub trades: usize,
    pub open: usize,
    pub wins: usize,
    pub losses: usize,
    pub avg_win: Double,
    pub avg_loss: Double,
    pub best_trade: Double,
    pub worst_trade: Double,
    pub max_drawdown: Double,
    pub streak: i64,
    pub avg_hold_seconds: Double,
}

/// The figures of an account with closed trades, newest first, and open positions.
pub open spec fn stats_of(closed: Seq<ClosedRow>, unrealized: Double, open: usize) -> Stats {
    let results = pnls(closed);
    let wins = figures::gains(results);
    let losses = figures::losses(results);
    let realized = brain::sum(results);
    Stats {
        pnl: realized.add(unrealized),
        realized,
        unrealized,
        win_rate: if closed.len() == 0 {
            Double::zero()
        } else {
            Double::whole(wins.len() as u64).div(Double::whole(closed.len() as u64)).mul(
                Double::whole(100),
            )
        },
        profit_factor: if losses.len() > 0 {
            ProfitFactor::Ratio(brain::sum(wins).div(brain::sum(losses).abs()))
        } else if wins.len() > 0 {
            ProfitFactor::Unbounded
        } else {
            ProfitFactor::Nothing
        },
        trades: closed.len() as usize,
        open,
        wins: wins.len() as usize,
        losses: losses.len() as usize,
        avg_win: readiness::mean(wins),
        avg_loss: readiness::mean(losses),
        best_trade: if closed.len() == 0 {
            Double::zero()
        } else {
            largest_of(results)
        },
        worst_trade: if closed.len() == 0 {
            Double::zero()
        } else {
            smallest_of(results)
        },
        max_drawdown: figures::course(pnls(by_time(closed))).drawdown,
        streak: streak_on(results, 0),
        avg_hold_seconds: readiness::mean(holds(closed)),
    }
}

/// The figures of the account.
pub fn account_stats(
    closed: &VecDeque<ClosedTrade>,
    drawdown: Double,
    unrealized: Double,
    open: usize,
) -> (r: Stats)
    requires
        drawdown == figures::course(pnls(by_time(state::closed_rows(closed@)))).drawdown,
    ensures
        r == stats_of(state::closed_rows(closed@), unrealized, open),
{
    let results = pnls_of(closed);
    let wins = figures::gains_of(&results);
    let losses = figures::losses_of(&results);
    let realized = brain::sum_of(&results);
    let (most, least) = extremes(&results);
    let held = holds_of(closed);
    let n = closed.len();
    assert(results@.len() == n);
    Stats {
        pnl: realized.add(unrealized),
        realized,
        unrealized,
        win_rate: if n == 0 {
            Double::zero()
        } else {
            Double::whole(wins.len() as u64).div(Double::whole(n as u64)).mul(Double::whole(100))
        },
        profit_factor: if losses.len() > 0 {
            ProfitFactor::Ratio(brain::sum_of(&wins).div(brain::sum_of(&losses).abs()))
        } else if wins.len() > 0 {
            ProfitFactor::Unbounded
        } else {
            ProfitFactor::Nothing
        },
        trades: n,
        open,
        wins: wins.len(),
        losses: losses.len(),
        avg_win: readiness::mean_of(&wins),
        avg_loss: readiness::mean_of(&losses),
        best_trade: if n == 0 {
            Double::zero()
        } else {
            most
        },
        worst_trade: if n == 0 {
            Double::zero()
        } else {
            least
        },
        max_drawdown: drawdown,
        streak: streak_of(&results),
        avg_hold_seconds: readiness::mean_of(&held),
    }
}

} // verus!

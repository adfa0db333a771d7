//! Replay of recorded events in event time, and walk-forward folds.
use vstd::prelude::*;
use vstd::arithmetic::div_mod::{lemma_fundamental_div_mod, lemma_mod_bound};
use crate::double;
use crate::double::Double;
use crate::json::Json;
use crate::sorting;
use crate::table;
use crate::table::Table;

verus! {

/// A recorded event.
#[derive(Debug)]
pub struct ReplayEvent {
    pub timestamp: Double,
    pub sequence: i64,
    pub symbol: String,
    pub kind: String,
    pub payload: Json,
}

/// A key by which events are ordered: by time, and at one time by sequence.
pub open spec fn event_key(e: ReplayEvent) -> int {
    double::rank(e.timestamp) * 0x1_0000_0000_0000_0000 + e.sequence + 0x8000_0000_0000_0000
}

/// The keys of some events.
pub open spec fn event_keys(events: Seq<ReplayEvent>) -> Seq<i128> {
    Seq::new(events.len(), |i: int| event_key(events[i]) as i128)
}

/// Events in the order of their times, at one time by sequence, else as they came.
pub open spec fn in_order(events: Seq<ReplayEvent>) -> Seq<ReplayEvent> {
    sorting::picked(events, sorting::order(event_keys(events)))
}

/// References to events, by the events.
pub open spec fn events_of(refs: Seq<&ReplayEvent>) -> Seq<ReplayEvent> {
    refs.map_values(|e: &ReplayEvent| *e)
}

/// No event stands behind one that is later, or that has the same time and a greater
/// sequence.
pub open spec fn chronological(events: Seq<ReplayEvent>) -> bool {
    forall|i: int, j: int|
        0 <= i < j < events.len() ==> {
            let a = #[trigger] events[i];
            let b = #[trigger] events[j];
            ||| double::rank(a.timestamp) < double::rank(b.timestamp)
            ||| double::rank(a.timestamp) == double::rank(b.timestamp) && a.sequence <= b.sequence
        }
}

fn key_of(e: &ReplayEvent) -> (k: i128)
    ensures
        k == event_key(*e),
{
    let r = sorting::rank_key(e.timestamp);
    r * 0x1_0000_0000_0000_0000 + (e.sequence as i128 + 0x8000_0000_0000_0000)
}

/// The events in order.
fn sorted(events: &Vec<ReplayEvent>) -> (r: Vec<&ReplayEvent>)
    ensures
        events_of(r@) == in_order(events@),
        r@.len() == events@.len(),
        chronological(in_order(events@)),
{
    let ghost all = events@;
    let mut keys: Vec<i128> = Vec::new();
    let mut i: usize = 0;
    while i < events.len()
        invariant
            i <= events@.len(),
            keys@ == event_keys(events@.take(i as int)),
        decreases events@.len() - i,
    {
        keys.push(key_of(&events[i]));
        i = i + 1;
        assert(keys@ =~= event_keys(events@.take(i as int)));
    }
    assert(events@.take(i as int) =~= events@);
    let places = sorting::stable_order(&keys);
    let ghost expected = in_order(all);
    let mut r: Vec<&ReplayEvent> = Vec::new();
    let mut k: usize = 0;
    assert(events_of(r@) =~= expected.take(0));
    while k < places.len()
        invariant
            k <= places@.len(),
            places@.len() == events@.len(),
            expected == sorting::picked(events@, places@),
            forall|x: int| 0 <= x < places@.len() ==> #[trigger] places@[x] < events@.len(),
            events_of(r@) == expected.take(k as int),
        decreases places@.len() - k,
    {
        let ghost before = events_of(r@);
        r.push(&events[places[k]]);
        proof {
            assert(events_of(r@) =~= before.push(expected[k as int]));
            assert(expected.take(k + 1) =~= expected.take(k as int).push(expected[k as int]));
        }
        k = k + 1;
    }
    assert(expected.take(k as int) =~= expected);
    assert(r@.len() == events_of(r@).len());
    proof {
        lemma_in_order(all, places@);
    }
    r
}

proof fn lemma_key(e: ReplayEvent)
    ensures
        i128::MIN <= event_key(e) <= i128::MAX,
{
}

proof fn lemma_in_order(events: Seq<ReplayEvent>, p: Seq<usize>)
    requires
        sorting::is_stable_order(event_keys(events), p),
    ensures
        chronological(sorting::picked(events, p)),
{
    let list = sorting::picked(events, p);
    let keys = event_keys(events);
    assert forall|i: int, j: int| 0 <= i < j < list.len() implies ({
        let a = #[trigger] list[i];
        let b = #[trigger] list[j];
        ||| double::rank(a.timestamp) < double::rank(b.timestamp)
        ||| double::rank(a.timestamp) == double::rank(b.timestamp) && a.sequence <= b.sequence
    }) by {
        assert(sorting::before(keys, p[i], p[j]));
        lemma_key(list[i]);
        lemma_key(list[j]);
        assert(event_key(list[i]) <= event_key(list[j]));
    }
}

/// Where a replay stands: its time, the last sequence of each symbol, and how many events
/// were refused.
#[verifier::ext_equal]
pub struct ReplayView {
    pub now: Double,
    pub last: Map<Seq<char>, i64>,
    pub errors: u64,
}

/// An event is out of order: its sequence does not go on from the last one of its symbol,
/// or its time is past.
pub open spec fn refused(state: ReplayView, e: ReplayEvent) -> bool {
    e.sequence <= table::entry_or(state.last, e.symbol@, -1i64) || e.timestamp.lt(state.now)
}

/// The replay after one event.
pub open spec fn stepped(state: ReplayView, e: ReplayEvent) -> ReplayView {
    if refused(state, e) {
        ReplayView { errors: state.errors.wrapping_add(1), ..state }
    } else {
        ReplayView {
            now: e.timestamp,
            last: state.last.insert(e.symbol@, e.sequence),
            errors: state.errors,
        }
    }
}

/// The replay after some events, in order.
pub open spec fn replayed(state: ReplayView, events: Seq<ReplayEvent>) -> ReplayView
    decreases events.len(),
{
    if events.len() == 0 {
        state
    } else {
        stepped(replayed(state, events.drop_last()), events.last())
    }
}

/// The events that a replay hands out, in order.
pub open spec fn delivered(state: ReplayView, events: Seq<ReplayEvent>) -> Seq<ReplayEvent>
    decreases events.len(),
{
    if events.len() == 0 {
        Seq::empty()
    } else {
        let before = delivered(state, events.drop_last());
        if refused(replayed(state, events.drop_last()), events.last()) {
            before
        } else {
            before.push(events.last())
        }
    }
}

/// A replay. Event time is advanced before an event is handed out, so that whoever handles
/// it sees this event and earlier ones, never later ones.
pub struct ReplayEngine {
    pub now: Double,
    pub last_sequence: Table<i64>,
    pub data_quality_errors: u64,
}

impl ReplayEngine {
    pub open spec fn view(&self) -> ReplayView {
        ReplayView {
            now: self.now,
            last: self.last_sequence@,
            errors: self.data_quality_errors,
        }
    }

    pub fn new() -> (r: ReplayEngine)
        ensures
            r@ == (ReplayView { now: Double::zero(), last: Map::empty(), errors: 0 }),
    {
        ReplayEngine { now: Double::zero(), last_sequence: Table::new(), data_quality_errors: 0 }
    }

    /// Puts events in order and hands out those that are not refused.
    pub fn run<'a>(&mut self, events: &'a Vec<ReplayEvent>) -> (r: Vec<&'a ReplayEvent>)
        ensures
            chronological(in_order(events@)),
            final(self)@ == replayed(old(self)@, in_order(events@)),
            events_of(r@) == delivered(old(self)@, in_order(events@)),
    {
        let ordered = sorted(events);
        let ghost all = in_order(events@);
        let ghost start = self@;
        let mut r: Vec<&'a ReplayEvent> = Vec::new();
        let mut i: usize = 0;
        assert(events_of(r@) =~= delivered(start, all.take(0)));
        while i < ordered.len()
            invariant
                i <= ordered@.len(),
                all == events_of(ordered@),
                self@ == replayed(start, all.take(i as int)),
                events_of(r@) == delivered(start, all.take(i as int)),
            decreases ordered@.len() - i,
        {
            let event = ordered[i];
            proof {
                assert(all.take(i + 1).drop_last() =~= all.take(i as int));
                assert(all.take(i + 1).last() == *event);
            }
            let previous: i64 = match self.last_sequence.get(event.symbol.as_str()) {
                Some(sequence) => *sequence,
                None => -1,
            };
            let ghost before = events_of(r@);
            if event.sequence <= previous || event.timestamp.lt(self.now) {
                self.data_quality_errors = self.data_quality_errors.wrapping_add(1);
            } else {
                self.now = event.timestamp;
                self.last_sequence.insert(event.symbol.as_str(), event.sequence);
                r.push(event);
                assert(events_of(r@) =~= before.push(*event));
            }
            assert(self@ =~= stepped(replayed(start, all.take(i as int)), *event));
            i = i + 1;
        }
        assert(all.take(i as int) =~= all);
        r
    }
}

/// A replay of events in order never goes back in time: what it hands out has ascending
/// times, none before the time that the replay had reached, and it ends at the last of them.
pub proof fn replay_never_goes_back(state: ReplayView, events: Seq<ReplayEvent>)
    requires
        chronological(events),
        !state.now.nan(),
        forall|i: int| 0 <= i < events.len() ==> !(#[trigger] events[i]).timestamp.nan(),
    ensures
        forall|i: int, j: int|
            0 <= i <= j < delivered(state, events).len() ==> (#[trigger] delivered(
                state,
                events,
            )[i]).timestamp.le((#[trigger] delivered(state, events)[j]).timestamp),
        forall|i: int|
            0 <= i < delivered(state, events).len() ==> state.now.le(
                (#[trigger] delivered(state, events)[i]).timestamp,
            ) && delivered(state, events)[i].timestamp.le(replayed(state, events).now),
        state.now.le(replayed(state, events).now),
        !replayed(state, events).now.nan(),
    decreases events.len(),
{
    if events.len() > 0 {
        let rest = events.drop_last();
        assert forall|i: int| 0 <= i < rest.len() implies !(#[trigger] rest[i]).timestamp.nan() by {
            assert(rest[i] == events[i]);
        }
        assert forall|i: int, j: int| 0 <= i < j < rest.len() implies ({
            let a = #[trigger] rest[i];
            let b = #[trigger] rest[j];
            ||| double::rank(a.timestamp) < double::rank(b.timestamp)
            ||| double::rank(a.timestamp) == double::rank(b.timestamp) && a.sequence <= b.sequence
        }) by {
            assert(rest[i] == events[i]);
            assert(rest[j] == events[j]);
        }
        replay_never_goes_back(state, rest);
        assert(!events[events.len() - 1].timestamp.nan());
    }
}

/// Of each symbol a replay hands out events with ascending sequences only.
pub proof fn sequences_ascend(state: ReplayView, events: Seq<ReplayEvent>)
    ensures
        forall|i: int, j: int|
            0 <= i < j < delivered(state, events).len() && (#[trigger] delivered(
                state,
                events,
            )[i]).symbol@ == (#[trigger] delivered(state, events)[j]).symbol@
                ==> delivered(state, events)[i].sequence < delivered(state, events)[j].sequence,
        forall|i: int|
            0 <= i < delivered(state, events).len() ==> ({
                let e = #[trigger] delivered(state, events)[i];
                &&& replayed(state, events).last.dom().contains(e.symbol@)
                &&& e.sequence <= replayed(state, events).last[e.symbol@]
                &&& e.sequence > table::entry_or(state.last, e.symbol@, -1i64)
            }),
        forall|s: Seq<char>|
            table::entry_or(state.last, s, -1i64) <= #[trigger] table::entry_or(
                replayed(state, events).last,
                s,
                -1i64,
            ),
    decreases events.len(),
{
    if events.len() > 0 {
        let rest = events.drop_last();
        sequences_ascend(state, rest);
        assert forall|s: Seq<char>|
            table::entry_or(state.last, s, -1i64) <= #[trigger] table::entry_or(
                replayed(state, events).last,
                s,
                -1i64,
            ) by {
            assert(table::entry_or(state.last, s, -1i64) <= table::entry_or(
                replayed(state, rest).last,
                s,
                -1i64,
            ));
        }
    }
}

/// Every event is either handed out or counted as an error.
pub proof fn every_event_is_accounted_for(state: ReplayView, events: Seq<ReplayEvent>)
    requires
        state.errors + events.len() <= u64::MAX,
    ensures
        delivered(state, events).len() + replayed(state, events).errors == state.errors
            + events.len(),
    decreases events.len(),
{
    if events.len() > 0 {
        every_event_is_accounted_for(state, events.drop_last());
    }
}

/// A training window and the test fold behind it.
pub type WalkForwardFold<'a> = (Vec<&'a ReplayEvent>, Vec<&'a ReplayEvent>);

/// Where the test fold with a number ends.
pub open spec fn fold_end(count: int, folds: int, index: int) -> int {
    if index == folds - 1 {
        count
    } else {
        count / folds * (index + 1)
    }
}

/// The training window and the test fold with a number, counted from 1.
pub open spec fn fold_at(rows: Seq<ReplayEvent>, folds: int, index: int) -> (
    Seq<ReplayEvent>,
    Seq<ReplayEvent>,
) {
    let count = rows.len() as int;
    let cut = count / folds * index;
    (rows.take(cut), rows.subrange(cut, fold_end(count, folds, index)))
}

/// The events that a fold holds.
pub open spec fn fold_view(fold: WalkForwardFold<'_>) -> (Seq<ReplayEvent>, Seq<ReplayEvent>) {
    (events_of(fold.0@), events_of(fold.1@))
}

proof fn lemma_cuts(count: int, folds: int, index: int)
    requires
        2 <= folds <= count,
        1 <= index < folds,
    ensures
        0 < count / folds,
        0 < count / folds * index < fold_end(count, folds, index) <= count,
        index < folds - 1 ==> fold_end(count, folds, index) == count / folds * (index + 1),
{
    let size = count / folds;
    lemma_fundamental_div_mod(count, folds);
    lemma_mod_bound(count, folds);
    assert(size > 0) by (nonlinear_arith)
        requires
            count == folds * size + count % folds,
            0 <= count % folds < folds,
            folds <= count,
            2 <= folds,
    ;
    assert(folds * size <= count);
    assert(size * index > 0) by (nonlinear_arith)
        requires
            size > 0,
            index >= 1,
    ;
    assert(size * (index + 1) == size * index + size) by (nonlinear_arith);
    assert(size * (index + 1) <= folds * size) by (nonlinear_arith)
        requires
            size > 0,
            index + 1 <= folds,
    ;
}

fn part<'a>(rows: &Vec<&'a ReplayEvent>, from: usize, to: usize) -> (r: Vec<&'a ReplayEvent>)
    requires
        from <= to <= rows@.len(),
    ensures
        events_of(r@) == events_of(rows@).subrange(from as int, to as int),
{
    let ghost all = events_of(rows@);
    let mut r: Vec<&'a ReplayEvent> = Vec::new();
    let mut i: usize = from;
    assert(events_of(r@) =~= all.subrange(from as int, from as int));
    while i < to
        invariant
            from <= i <= to <= rows@.len(),
            all == events_of(rows@),
            events_of(r@) == all.subrange(from as int, i as int),
        decreases to - i,
    {
        let ghost before = events_of(r@);
        r.push(rows[i]);
        proof {
            assert(events_of(r@) =~= before.push(all[i as int]));
            assert(all.subrange(from as int, i + 1) =~= all.subrange(from as int, i as int).push(
                all[i as int],
            ));
        }
        i = i + 1;
    }
    r
}

/// Expanding training windows, each with the untouched fold of events right behind it.
pub fn walk_forward<'a>(events: &'a Vec<ReplayEvent>, folds: usize) -> (r: Result<
    Vec<WalkForwardFold<'a>>,
    String,
>)
    ensures
        chronological(in_order(events@)),
        match r {
            Ok(list) => {
                &&& 2 <= folds <= events@.len()
                &&& list@.len() == folds - 1
                &&& forall|k: int|
                    0 <= k < list@.len() ==> fold_view(#[trigger] list@[k]) == fold_at(
                        in_order(events@),
                        folds as int,
                        k + 1,
                    )
            },
            Err(why) => (folds < 2 || events@.len() < folds) && why@
                == "walk-forward requires at least two non-empty folds"@,
        },
{
    let rows = sorted(events);
    let ghost all = in_order(events@);
    if folds < 2 || rows.len() < folds {
        return Err("walk-forward requires at least two non-empty folds".to_owned());
    }
    let count = rows.len();
    let size = count / folds;
    let mut result: Vec<WalkForwardFold<'a>> = Vec::new();
    let mut index: usize = 1;
    while index < folds
        invariant
            1 <= index <= folds,
            2 <= folds <= count,
            count == rows@.len(),
            count == all.len(),
            size == count / folds,
            all == events_of(rows@),
            result@.len() == index - 1,
            forall|k: int|
                0 <= k < result@.len() ==> fold_view(#[trigger] result@[k]) == fold_at(
                    all,
                    folds as int,
                    k + 1,
                ),
        decreases folds - index,
    {
        proof {
            lemma_cuts(count as int, folds as int, index as int);
        }
        let cut = size * index;
        let end = if index == folds - 1 {
            count
        } else {
            size * (index + 1)
        };
        let train = part(&rows, 0, cut);
        let test = part(&rows, cut, end);
        assert(all.subrange(0, cut as int) =~= all.take(cut as int));
        result.push((train, test));
        index = index + 1;
    }
    Ok(result)
}

/// The folds of ordered events are never empty, the test fold begins where its training
/// window ends and where the fold before it ended, the last one ends with the events, and
/// nothing in a training window comes after anything in the test fold.
pub proof fn folds_never_overlap(rows: Seq<ReplayEvent>, folds: int, index: int)
    requires
        chronological(rows),
        2 <= folds <= rows.len(),
        1 <= index < folds,
    ensures
        ({
            let (train, test) = fold_at(rows, folds, index);
            &&& train.len() > 0
            &&& test.len() > 0
            &&& train + test == rows.take(fold_end(rows.len() as int, folds, index))
            &&& index > 1 ==> train == fold_at(rows, folds, index - 1).0 + fold_at(
                rows,
                folds,
                index - 1,
            ).1
            &&& index == folds - 1 ==> train + test == rows
            &&& forall|i: int, j: int|
                0 <= i < train.len() && 0 <= j < test.len() ==> double::rank(
                    (#[trigger] train[i]).timestamp,
                ) <= double::rank((#[trigger] test[j]).timestamp)
        }),
{
    let count = rows.len() as int;
    lemma_cuts(count, folds, index);
    let (train, test) = fold_at(rows, folds, index);
    let cut = count / folds * index;
    assert(train + test =~= rows.take(fold_end(count, folds, index)));
    if index > 1 {
        lemma_cuts(count, folds, index - 1);
        let (a, b) = fold_at(rows, folds, index - 1);
        assert(train =~= a + b);
    }
    if index == folds - 1 {
        assert(train + test =~= rows);
    }
    assert forall|i: int, j: int| 0 <= i < train.len() && 0 <= j < test.len() implies double::rank(
        (#[trigger] train[i]).timestamp,
    ) <= double::rank((#[trigger] test[j]).timestamp) by {
        assert(train[i] == rows[i]);
        assert(test[j] == rows[cut + j]);
    }
}

} // verus!

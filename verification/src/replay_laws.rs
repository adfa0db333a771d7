//! How a replay orders, refuses and divides its events.
use vstd::prelude::*;
use crate::double;
use crate::replay;
use crate::replay::{ReplayEvent, ReplayView};
use crate::sorting;

verus! {

/// An event is refused exactly when its symbol has come as far already or when time has; a
/// refused one changes nothing but the count of errors, and one that is taken sets the time and
/// how far its own symbol has come, and no other.
pub proof fn an_event_moves_its_own_symbol(state: ReplayView, e: ReplayEvent, other: Seq<char>)
    requires
        other != e.symbol@,
        state.errors < u64::MAX,
    ensures
        ({
            let after = replay::stepped(state, e);
            let seen = state.last.dom().contains(e.symbol@) && e.sequence <= state.last[e.symbol@];
            let bad = seen || (!state.last.dom().contains(e.symbol@) && e.sequence < 0)
                || e.timestamp.lt(state.now);
            &&& bad ==> after.errors == state.errors + 1 && after.now == state.now && after.last
                == state.last
            &&& !bad ==> {
                &&& after.errors == state.errors
                &&& after.now == e.timestamp
                &&& after.last.dom().contains(e.symbol@)
                &&& after.last[e.symbol@] == e.sequence
                &&& after.last.dom().contains(other) <==> state.last.dom().contains(other)
                &&& state.last.dom().contains(other) ==> after.last[other] == state.last[other]
            }
        }),
{
}

/// An event is handed out exactly when it is not refused, and then after all that came before.
pub proof fn what_is_taken_is_handed_out(
    state: ReplayView,
    events: Seq<ReplayEvent>,
    e: ReplayEvent,
)
    requires
        replay::replayed(state, events).errors < u64::MAX,
    ensures
        ({
            let before = replay::replayed(state, events);
            let after = replay::replayed(state, events.push(e));
            &&& after == replay::stepped(before, e)
            &&& after.errors == before.errors ==> replay::delivered(state, events.push(e))
                == replay::delivered(state, events).push(e)
            &&& after.errors != before.errors ==> replay::delivered(state, events.push(e))
                == replay::delivered(state, events)
        }),
{
    assert(events.push(e).drop_last() =~= events);
}

/// Twice the same event is once too often.
pub proof fn an_event_is_taken_once(state: ReplayView, e: ReplayEvent)
    requires
        replay::stepped(state, e).errors == state.errors,
        state.errors < u64::MAX,
    ensures
        replay::stepped(replay::stepped(state, e), e).errors == state.errors + 1,
{
}

/// Ordered events are the same events, each once, by time and at the same time by sequence.
pub proof fn ordered_events_go_by_time(events: Seq<ReplayEvent>, i: int, j: int)
    requires
        events.len() <= usize::MAX,
    ensures
        ({
            let ordered = replay::in_order(events);
            &&& ordered.len() == events.len()
            &&& 0 <= i < events.len() ==> exists|k: int|
                0 <= k < ordered.len() && #[trigger] ordered[k] == events[i]
            &&& 0 <= i < j < ordered.len() ==> !ordered[j].timestamp.lt(ordered[i].timestamp)
            &&& 0 <= i < j < ordered.len() && ordered[i].timestamp == ordered[j].timestamp
                ==> ordered[i].sequence <= ordered[j].sequence
        }),
{
    let keys = replay::event_keys(events);
    let places = sorting::order(keys);
    let ordered = replay::in_order(events);
    sorting::every_list_has_an_order(keys);
    if 0 <= i < events.len() {
        assert(places.contains(i as usize));
        let k = choose|k: int| 0 <= k < places.len() && places[k] == i as usize;
        assert(ordered[k] == events[i]);
    }
    if 0 <= i < j < ordered.len() {
        let a = ordered[i];
        let b = ordered[j];
        assert(sorting::before(keys, places[i], places[j]));
        lemma_key(a);
        lemma_key(b);
        assert(replay::event_key(a) <= replay::event_key(b));
        let ra = double::rank(a.timestamp);
        let rb = double::rank(b.timestamp);
        assert(ra <= rb) by (nonlinear_arith)
            requires
                ra * 0x1_0000_0000_0000_0000 + a.sequence + 0x8000_0000_0000_0000 <= rb
                    * 0x1_0000_0000_0000_0000 + b.sequence + 0x8000_0000_0000_0000,
                -0x8000_0000_0000_0000 <= a.sequence <= 0x7fff_ffff_ffff_ffff,
                -0x8000_0000_0000_0000 <= b.sequence <= 0x7fff_ffff_ffff_ffff,
        ;
        lemma_not_earlier(a.timestamp, b.timestamp);
    }
}

proof fn lemma_key(e: ReplayEvent)
    ensures
        replay::event_key(e) as i128 == replay::event_key(e),
{
    let r = double::rank(e.timestamp);
    assert(-0x8000_0000_0000_0000 <= r < 0x8000_0000_0000_0000);
    assert(-0x8000_0000_0000_0000 * 0x1_0000_0000_0000_0000 <= r * 0x1_0000_0000_0000_0000 <= (
    0x8000_0000_0000_0000 - 1) * 0x1_0000_0000_0000_0000) by (nonlinear_arith)
        requires
            -0x8000_0000_0000_0000 <= r < 0x8000_0000_0000_0000,
    ;
}

proof fn lemma_not_earlier(a: double::Double, b: double::Double)
    requires
        double::rank(a) <= double::rank(b),
    ensures
        !b.lt(a),
{
}

/// Every test fold but the last holds as many events as a whole share of all of them, and is
/// trained on everything before it, which is as many such shares as folds went before.
pub proof fn folds_are_equal_shares(rows: Seq<ReplayEvent>, folds: int, index: int)
    requires
        2 <= folds <= rows.len(),
        1 <= index < folds,
    ensures
        ({
            let (train, test) = replay::fold_at(rows, folds, index);
            let share = rows.len() as int / folds;
            &&& train.len() == share * index
            &&& index < folds - 1 ==> test.len() == share
            &&& index == folds - 1 ==> train.len() + test.len() == rows.len()
            &&& share <= test.len() < share + folds
        }),
{
    let count = rows.len() as int;
    let share = count / folds;
    assert(share * folds <= count < share * folds + folds) by (nonlinear_arith)
        requires
            folds >= 2,
            share == count / folds,
    ;
    assert(share * index <= share * (index + 1) <= share * folds && share * (index + 1) == share
        * index + share) by (nonlinear_arith)
        requires
            1 <= index < folds,
            share >= 0,
    ;
    assert(index == folds - 1 ==> share * (index + 1) == share * folds);
    assert(0 <= share * index) by (nonlinear_arith)
        requires
            index >= 1,
            share >= 0,
    ;
}

} // verus!

//! Figures of a series of trade results.
use vstd::prelude::*;
use crate::double::Double;

verus! {

/// The positive numbers of a list, in their order.
pub open spec fn gains(xs: Seq<Double>) -> Seq<Double>
    decreases xs.len(),
{
    if xs.len() == 0 {
        Seq::empty()
    } else if xs.last().gt(Double::zero()) {
        gains(xs.drop_last()).push(xs.last())
    } else {
        gains(xs.drop_last())
    }
}

/// The negative numbers of a list, in their order.
pub open spec fn losses(xs: Seq<Double>) -> Seq<Double>
    decreases xs.len(),
{
    if xs.len() == 0 {
        Seq::empty()
    } else if xs.last().lt(Double::zero()) {
        losses(xs.drop_last()).push(xs.last())
    } else {
        losses(xs.drop_last())
    }
}

/// The positive numbers of a list, in their order.
pub fn gains_of(xs: &Vec<Double>) -> (r: Vec<Double>)
    ensures
        r@ == gains(xs@),
        r@.len() <= xs@.len(),
{
    let mut r: Vec<Double> = Vec::new();
    let mut i: usize = 0;
    while i < xs.len()
        invariant
            i <= xs@.len(),
            r@ == gains(xs@.take(i as int)),
            r@.len() <= i,
        decreases xs@.len() - i,
    {
        assert(xs@.take(i + 1).drop_last() =~= xs@.take(i as int));
        if xs[i].gt(Double::zero()) {
            r.push(xs[i]);
        }
        i = i + 1;
    }
    assert(xs@.take(i as int) =~= xs@);
    r
}

/// The negative numbers of a list, in their order.
pub fn losses_of(xs: &Vec<Double>) -> (r: Vec<Double>)
    ensures
        r@ == losses(xs@),
        r@.len() <= xs@.len(),
{
    let mut r: Vec<Double> = Vec::new();
    let mut i: usize = 0;
    while i < xs.len()
        invariant
            i <= xs@.len(),
            r@ == losses(xs@.take(i as int)),
            r@.len() <= i,
        decreases xs@.len() - i,
    {
        assert(xs@.take(i + 1).drop_last() =~= xs@.take(i as int));
        if xs[i].lt(Double::zero()) {
            r.push(xs[i]);
        }
        i = i + 1;
    }
    assert(xs@.take(i as int) =~= xs@);
    r
}

/// How an account went: what it stands at, its highest stand so far, and the deepest fall
/// from a highest stand.
#[derive(Clone, Copy, Debug, PartialEq, Eq, Structural)]
pub struct Course {
    pub running: Double,
    pub peak: Double,
    pub drawdown: Double,
}

impl Course {
    pub open spec fn spec_start() -> Course {
        Course { running: Double::zero(), peak: Double::zero(), drawdown: Double::zero() }
    }

    #[verifier::when_used_as_spec(spec_start)]
    pub fn start() -> (r: Course)
        ensures
            r == Course::spec_start(),
    {
        Course { running: Double::zero(), peak: Double::zero(), drawdown: Double::zero() }
    }

    /// The course after one more result.
    pub open spec fn spec_after(self, result: Double) -> Course {
        let running = self.running.add(result);
        let peak = self.peak.max(running);
        Course { running, peak, drawdown: self.drawdown.max(peak.sub(running)) }
    }

    #[verifier::when_used_as_spec(spec_after)]
    pub fn after(self, result: Double) -> (r: Course)
        ensures
            r == self.spec_after(result),
    {
        let running = self.running.add(result);
        let peak = self.peak.max(running);
        Course { running, peak, drawdown: self.drawdown.max(peak.sub(running)) }
    }
}

/// The course of an account through results, oldest first.
pub open spec fn course(results: Seq<Double>) -> Course
    decreases results.len(),
{
    if results.len() == 0 {
        Course::start()
    } else {
        course(results.drop_last()).after(results.last())
    }
}

/// The course of an account through results that are listed newest first.
pub fn course_back(results: &Vec<Double>) -> (r: Course)
    ensures
        r == course(results@.reverse()),
{
    let ghost all = results@.reverse();
    let n = results.len();
    let mut r = Course::start();
    let mut i: usize = 0;
    while i < n
        invariant
            n == results@.len(),
            i <= n,
            all == results@.reverse(),
            r == course(all.take(i as int)),
        decreases n - i,
    {
        assert(all.take(i + 1).drop_last() =~= all.take(i as int));
        r = r.after(results[n - 1 - i]);
        i = i + 1;
    }
    assert(all.take(i as int) =~= all);
    r
}

/// The deepest fall is never negative, and no later result makes it smaller.
pub proof fn drawdown_only_grows(results: Seq<Double>, n: int)
    requires
        0 <= n <= results.len(),
    ensures
        Double::zero().le(course(results.take(n)).drawdown),
        course(results.take(n)).drawdown.le(course(results).drawdown),
    decreases results.len() - n,
{
    lemma_drawdown_is_a_number(results.take(n));
    if n < results.len() {
        drawdown_only_grows(results, n + 1);
        assert(results.take(n + 1).drop_last() =~= results.take(n));
    } else {
        assert(results.take(n) =~= results);
    }
}

proof fn lemma_drawdown_is_a_number(results: Seq<Double>)
    ensures
        Double::zero().le(course(results).drawdown),
    decreases results.len(),
{
    if results.len() > 0 {
        lemma_drawdown_is_a_number(results.drop_last());
    }
}

} // verus!

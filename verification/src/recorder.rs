//! When a record of raw events goes on in a new file, and which old files have to go.
use vstd::prelude::*;
use crate::text;

verus! {

/// The least bytes that a file may be limited to.
pub const LEAST_SEGMENT: u64 = 1_048_576;

/// The most lines that may wait to be written.
pub const WAITING_LINES: usize = 8_192;

/// The limits of a file and of all files together: a file is never limited to less than a
/// mebibyte, and all files together never to less than one.
pub fn limits(segment_bytes: u64, budget_bytes: u64) -> (r: (u64, u64))
    ensures
        r.0 == (if segment_bytes > LEAST_SEGMENT {
            segment_bytes
        } else {
            LEAST_SEGMENT
        }),
        r.1 == (if budget_bytes > r.0 {
            budget_bytes
        } else {
            r.0
        }),
        1024 * 1024 <= r.0 <= r.1,
{
    let segment = if segment_bytes > LEAST_SEGMENT {
        segment_bytes
    } else {
        LEAST_SEGMENT
    };
    let budget = if budget_bytes > segment {
        budget_bytes
    } else {
        segment
    };
    (segment, budget)
}

/// The file that is being written.
#[derive(Clone, Copy, Debug, PartialEq, Eq, Structural)]
pub struct Segment {
    pub written: u64,
    pub limit: u64,
}

impl Segment {
    /// A new file.
    pub fn new(limit: u64) -> (r: Segment)
        ensures
            r == (Segment { written: 0, limit }),
    {
        Segment { written: 0, limit }
    }

    /// Whether a line of so many bytes, with its end, does not fit any more.
    pub fn is_full(&self, bytes: u64) -> (r: bool)
        ensures
            r == (self.written + bytes + 1 > self.limit),
    {
        self.written >= self.limit || bytes >= self.limit - self.written
    }

    /// The file after a line of so many bytes.
    pub fn after(self, bytes: u64) -> (r: Segment)
        ensures
            r.limit == self.limit,
            r.written == (if self.written + bytes + 1 <= u64::MAX {
                (self.written + bytes + 1) as u64
            } else {
                u64::MAX
            }),
            !(self.written + bytes + 1 > self.limit) ==> r.written <= r.limit,
    {
        Segment { written: self.written.saturating_add(bytes).saturating_add(1), ..self }
    }
}

/// The name of a file that was begun at a time in milliseconds.
pub fn segment_name(milliseconds: u64) -> (r: String)
    ensures
        r@ == "pulsebook-"@ + text::digits(milliseconds as nat) + ".jsonl"@,
{
    let mut r = "pulsebook-".to_owned();
    r.append(text::decimal(milliseconds).as_str());
    r.append(".jsonl");
    r
}

/// The bytes of some files.
pub open spec fn total_of(sizes: Seq<u64>) -> u64
    decreases sizes.len(),
{
    if sizes.len() == 0 {
        0
    } else {
        total_of(sizes.drop_last()).wrapping_add(sizes.last())
    }
}

/// The bytes that are left after some files, oldest first, were tried to be removed until
/// the rest fits; `gone` says of each whether it could be.
pub open spec fn left_after(total: u64, files: Seq<(u64, bool)>, budget: u64) -> u64
    decreases files.len(),
{
    if files.len() == 0 || total <= budget {
        total
    } else {
        let (size, gone) = files[0];
        left_after(
            if gone {
                without(total, size)
            } else {
                total
            },
            files.drop_first(),
            budget,
        )
    }
}

/// What is left of a total without a file.
pub open spec fn without(total: u64, size: u64) -> u64 {
    if total >= size {
        (total - size) as u64
    } else {
        0
    }
}

/// Files that have to fit into a budget.
#[derive(Clone, Copy, Debug, PartialEq, Eq, Structural)]
pub struct Sweep {
    pub total: u64,
    pub budget: u64,
}

impl Sweep {
    /// Files of some sizes.
    pub fn new(sizes: &Vec<u64>, budget: u64) -> (r: Sweep)
        ensures
            r == (Sweep { total: total_of(sizes@), budget }),
    {
        let mut total: u64 = 0;
        let mut i: usize = 0;
        while i < sizes.len()
            invariant
                i <= sizes@.len(),
                total == total_of(sizes@.take(i as int)),
            decreases sizes@.len() - i,
        {
            assert(sizes@.take(i + 1).drop_last() =~= sizes@.take(i as int));
            total = total.wrapping_add(sizes[i]);
            i = i + 1;
        }
        assert(sizes@.take(i as int) =~= sizes@);
        Sweep { total, budget }
    }

    /// Whether another file has to go.
    pub fn goes_on(&self) -> (r: bool)
        ensures
            r == (self.total > self.budget),
    {
        self.total > self.budget
    }

    /// The files after one was tried to be removed.
    pub fn after(self, size: u64, gone: bool) -> (r: Sweep)
        ensures
            r == (Sweep {
                total: if gone {
                    without(self.total, size)
                } else {
                    self.total
                },
                budget: self.budget,
            }),
    {
        if gone {
            Sweep { total: self.total.saturating_sub(size), ..self }
        } else {
            self
        }
    }
}

/// A sweep that can remove every file ends within the budget, however the files are sized.
pub proof fn a_sweep_ends_within_the_budget(total: u64, files: Seq<(u64, bool)>, budget: u64)
    requires
        total <= sizes_sum(files),
        forall|i: int| 0 <= i < files.len() ==> (#[trigger] files[i]).1,
    ensures
        left_after(total, files, budget) <= budget,
    decreases files.len(),
{
    if files.len() > 0 && total > budget {
        let rest = files.drop_first();
        assert(files[0].1);
        assert forall|i: int| 0 <= i < rest.len() implies (#[trigger] rest[i]).1 by {
            assert(files[i + 1].1);
        }
        a_sweep_ends_within_the_budget(without(total, files[0].0), rest, budget);
    }
}

/// The bytes of some files, however many.
pub open spec fn sizes_sum(files: Seq<(u64, bool)>) -> nat
    decreases files.len(),
{
    if files.len() == 0 {
        0
    } else {
        files[0].0 as nat + sizes_sum(files.drop_first())
    }
}

} // verus!

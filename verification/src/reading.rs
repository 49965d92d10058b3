//! Filling a buffer by reads that may each bring less than is asked for.

use vstd::prelude::*;

verus! {

/// How a read went.
#[derive(Debug, Clone, Copy, PartialEq, Eq, Structural)]
pub enum ReadOutcome {
    /// It brought `bytes` bytes; none at all means that the file has ended.
    Read { bytes: u64 },
    /// It was interrupted before it brought anything.
    Interrupted,
    /// It failed.
    Failed,
}

/// What is to be done after a read.
#[derive(Debug, Clone, Copy, PartialEq, Eq, Structural)]
pub enum FillStep {
    /// Read on, from the new place.
    ReadOn,
    /// Nothing: the buffer is full.
    Filled,
    /// Report that the file ended too early.
    UnexpectedEnd,
    /// Report the failure of the read.
    Failed,
}

/// A buffer of `len` bytes that is being filled.
#[derive(Debug, Clone, Copy, PartialEq, Eq, Structural)]
pub struct Fill {
    /// How many bytes the buffer takes.
    pub len: u64,
    /// How many of them are there.
    pub filled: u64,
    /// Where the next byte stands in the file.
    pub offset: u64,
}

/// What follows a read that went as `outcome` says.
pub open spec fn fill_step(before: Fill, outcome: ReadOutcome) -> (Fill, FillStep) {
    match outcome {
        ReadOutcome::Read { bytes } => if bytes == 0 {
            (before, FillStep::UnexpectedEnd)
        } else {
            let after = Fill {
                filled: (before.filled + bytes) as u64,
                offset: (before.offset + bytes) as u64,
                ..before
            };
            if after.filled == after.len {
                (after, FillStep::Filled)
            } else {
                (after, FillStep::ReadOn)
            }
        },
        ReadOutcome::Interrupted => (before, FillStep::ReadOn),
        ReadOutcome::Failed => (before, FillStep::Failed),
    }
}

/// Whether a read can have brought what it did, and the next place can be addressed.
pub open spec fn outcome_fits(before: Fill, outcome: ReadOutcome) -> bool {
    match outcome {
        ReadOutcome::Read { bytes } => before.filled + bytes <= before.len && before.offset + bytes
            <= u64::MAX,
        _ => true,
    }
}

impl Fill {
    /// An empty buffer of `len` bytes, to be filled from the byte `offset` of a file on.
    pub fn new(len: u64, offset: u64) -> (r: Fill)
        ensures
            r == (Fill { len, filled: 0, offset }),
    {
        Fill { len, filled: 0, offset }
    }

    /// What is to be done before the first read.
    pub fn first_step(&self) -> (r: FillStep)
        ensures
            r == (if self.filled == self.len {
                FillStep::Filled
            } else {
                FillStep::ReadOn
            }),
    {
        if self.filled == self.len {
            FillStep::Filled
        } else {
            FillStep::ReadOn
        }
    }

    /// Whether a read can have brought what it did, and the next place can be addressed.
    pub fn accepts(&self, outcome: ReadOutcome) -> (r: bool)
        ensures
            r == outcome_fits(*self, outcome),
    {
        match outcome {
            ReadOutcome::Read { bytes } => self.filled <= self.len && bytes <= self.len
                - self.filled && bytes <= u64::MAX - self.offset,
            _ => true,
        }
    }

    /// Goes on after a read.
    pub fn read_done(&mut self, outcome: ReadOutcome) -> (r: FillStep)
        requires
            outcome_fits(*old(self), outcome),
        ensures
            (*final(self), r) == fill_step(*old(self), outcome),
    {
        match outcome {
            ReadOutcome::Read { bytes } => {
                if bytes == 0 {
                    return FillStep::UnexpectedEnd;
                }
                self.filled = self.filled + bytes;
                self.offset = self.offset + bytes;
                self.first_step()
            },
            ReadOutcome::Interrupted => FillStep::ReadOn,
            ReadOutcome::Failed => FillStep::Failed,
        }
    }
}

/// The bytes that a sequence of reads brought.
pub open spec fn bytes_read(outcomes: Seq<ReadOutcome>) -> int
    decreases outcomes.len(),
{
    if outcomes.len() == 0 {
        0
    } else {
        bytes_read(outcomes.drop_last()) + match outcomes.last() {
            ReadOutcome::Read { bytes } => bytes as int,
            _ => 0,
        }
    }
}

/// The state behind a sequence of reads, and what the last of them leads to.
pub open spec fn fill_run(start: Fill, outcomes: Seq<ReadOutcome>) -> (Fill, FillStep)
    decreases outcomes.len(),
{
    if outcomes.len() == 0 {
        (
            start,
            if start.filled == start.len {
                FillStep::Filled
            } else {
                FillStep::ReadOn
            },
        )
    } else {
        fill_step(fill_run(start, outcomes.drop_last()).0, outcomes.last())
    }
}

/// However a file comes in, the bytes lie in the buffer in the order in which they stand in the
/// file, and the buffer counts as full exactly when the reads brought as much as it takes: that
/// is so of every sequence of reads none of which failed or found the file at its end.
pub proof fn reads_fill_the_buffer_in_order(start: Fill, outcomes: Seq<ReadOutcome>)
    requires
        start.filled == 0,
        start.offset + start.len <= u64::MAX,
        bytes_read(outcomes) <= start.len,
        forall|i: int|
            0 <= i < outcomes.len() ==> (#[trigger] outcomes[i]) != ReadOutcome::Failed
                && outcomes[i] != (ReadOutcome::Read { bytes: 0 }),
        forall|i: int|
            0 <= i < outcomes.len() ==> bytes_read(#[trigger] outcomes.take(i)) < start.len,
    ensures
        ({
            let (fill, step) = fill_run(start, outcomes);
            &&& fill.len == start.len
            &&& fill.filled == bytes_read(outcomes)
            &&& fill.offset == start.offset + bytes_read(outcomes)
            &&& step == FillStep::Filled <==> bytes_read(outcomes) == start.len
            &&& step == FillStep::ReadOn <==> bytes_read(outcomes) < start.len
        }),
    decreases outcomes.len(),
{
    if outcomes.len() > 0 {
        let earlier = outcomes.drop_last();
        assert(earlier =~= outcomes.take(outcomes.len() - 1));
        assert forall|i: int| 0 <= i < earlier.len() implies bytes_read(
            #[trigger] earlier.take(i),
        ) < start.len by {
            assert(earlier.take(i) =~= outcomes.take(i));
        }
        assert forall|i: int| 0 <= i < earlier.len() implies (#[trigger] earlier[i])
            != ReadOutcome::Failed && earlier[i] != (ReadOutcome::Read { bytes: 0 }) by {
            assert(earlier[i] == outcomes[i]);
        }
        lemma_bytes_are_not_negative(earlier);
        reads_fill_the_buffer_in_order(start, earlier);
        assert(outcomes.last() == outcomes[outcomes.len() - 1]);
    }
}

proof fn lemma_bytes_are_not_negative(outcomes: Seq<ReadOutcome>)
    ensures
        bytes_read(outcomes) >= 0,
    decreases outcomes.len(),
{
    if outcomes.len() > 0 {
        lemma_bytes_are_not_negative(outcomes.drop_last());
    }
}

} // verus!

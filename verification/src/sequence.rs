//! Outbound sequence allocation: strictly monotonic 24-bit values, never
//! running ahead of the persisted high-water mark.

use vstd::prelude::*;
use crate::common::SequenceNumber;
use crate::error::SeqRolloverError;

verus! {

/// The last sequence value of the 24-bit space.
pub const SEQ_MAX: u32 = 0x00ffffff;

/// The default distance kept between the in-RAM counter and the
/// persisted threshold.
pub const SEQ_COMMIT_STRIDE: u32 = 100;

/// The outbound sequence state: the next value to hand out, and the
/// persisted threshold below which allocation is permitted.
#[derive(Copy, Clone, Debug, PartialEq, Eq, Structural)]
pub struct Sequence {
    pub current: u32,
    pub committed: u32,
}

impl Sequence {
    /// The in-RAM counter never runs ahead of the persisted threshold.
    pub open spec fn wf(&self) -> bool {
        self.current <= self.committed
    }

    /// One successful allocation: the value handed out is the counter
    /// before the call, and only the counter advances.
    pub open spec fn allocates(pre: Sequence, post: Sequence, r: SequenceNumber) -> bool {
        &&& pre.current <= SEQ_MAX
        &&& r.0 == pre.current
        &&& post.current == pre.current + 1
        &&& post.committed == pre.committed
    }

    /// On cold boot the counter starts at the persisted threshold, so no
    /// value is ever reused; a new threshold must be committed before
    /// the first allocation.
    pub fn new(seq: SequenceNumber) -> (r: Self)
        ensures
            r.current == seq.0,
            r.committed == seq.0,
            r.wf(),
    {
        Self { current: seq.0, committed: seq.0 }
    }

    pub fn current(&self) -> (r: SequenceNumber)
        ensures
            r.0 == self.current,
    {
        SequenceNumber(self.current)
    }

    /// Whether a new threshold must be persisted before `stride` more
    /// allocations can proceed.
    pub fn needs_commit(&self, stride: u32) -> (r: bool)
        requires
            self.wf(),
        ensures
            r == (self.current + stride > self.committed),
    {
        stride > self.committed - self.current
    }

    /// Record that `threshold` was written to stable storage; the caller
    /// performs the write first, ahead of any allocation it permits.
    pub fn commit(&mut self, threshold: u32)
        requires
            threshold >= old(self).current,
        ensures
            final(self).current == old(self).current,
            final(self).committed == threshold,
            final(self).wf(),
    {
        self.committed = threshold;
    }

    /// Allocate the next sequence value. Exhaustion of the 24-bit space
    /// is a rollover, surfaced to the caller with the state unchanged;
    /// no allocation may outrun the persisted threshold.
    pub fn next(&mut self) -> (r: Result<SequenceNumber, SeqRolloverError>)
        requires
            old(self).wf(),
            old(self).current < old(self).committed,
        ensures
            final(self).wf(),
            old(self).current <= SEQ_MAX ==> {
                &&& r is Ok
                &&& Self::allocates(*old(self), *final(self), r->Ok_0)
            },
            old(self).current > SEQ_MAX ==> {
                &&& r == Err::<SequenceNumber, SeqRolloverError>(SeqRolloverError)
                &&& *final(self) == *old(self)
            },
    {
        if self.current > SEQ_MAX {
            Err(SeqRolloverError)
        } else {
            let value: u32 = self.current;
            self.current = self.current + 1;
            Ok(SequenceNumber(value))
        }
    }
}

/// Outbound allocation is strictly monotonic and never outruns the
/// persisted threshold: of two consecutive allocations from a
/// well-formed state, the second value is strictly greater, and each
/// value lies below the threshold persisted when it was handed out.
pub proof fn lemma_sequence_monotonic(
    s0: Sequence,
    s1: Sequence,
    s2: Sequence,
    r1: SequenceNumber,
    r2: SequenceNumber,
)
    requires
        s0.wf(),
        s0.current < s0.committed,
        s1.current < s1.committed,
        Sequence::allocates(s0, s1, r1),
        Sequence::allocates(s1, s2, r2),
    ensures
        r1.0 < r2.0,
        r1.0 < s0.committed,
        r2.0 < s1.committed,
{
}

} // verus!

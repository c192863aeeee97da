//! The replay protection list: a per-source high-water mark over
//! (IV index, sequence number), consulted before a frame is accepted and
//! updated only after the upper layers decrypt it successfully.

use vstd::prelude::*;
use crate::address::UnicastAddress;
use crate::common::{IvIndex, SequenceNumber};

verus! {

/// The stored high-water mark of one source address.
#[derive(Copy, Clone, Debug, PartialEq, Eq, Structural)]
pub struct ReplayEntry {
    pub src: u16,
    pub iv: u32,
    pub seq: u32,
}

/// Lexicographic order on (IV index, sequence): the pair of a fresh
/// frame must be strictly greater than the stored pair.
pub open spec fn fresher(iv: u32, seq: u32, prior_iv: u32, prior_seq: u32) -> bool {
    iv > prior_iv || (iv == prior_iv && seq > prior_seq)
}

/// The replay protection list, bounded by the CRPL capacity of the
/// node's composition; when full, frames from unknown sources are
/// rejected (fail-closed).
#[derive(Clone, Debug)]
pub struct ReplayProtection {
    pub entries: Vec<ReplayEntry>,
    pub capacity: usize,
}

impl ReplayProtection {
    /// Bounded, with at most one entry per source.
    pub open spec fn wf(&self) -> bool {
        &&& self.entries@.len() <= self.capacity
        &&& forall|i: int, j: int|
            0 <= i < j < self.entries@.len() ==> self.entries@[i].src != self.entries@[j].src
    }

    /// The stored pair of a source, if any.
    pub open spec fn prior(&self, src: u16) -> Option<(u32, u32)> {
        if exists|i: int| 0 <= i < self.entries@.len() && self.entries@[i].src == src {
            let i = choose|i: int| 0 <= i < self.entries@.len() && self.entries@[i].src == src;
            Some((self.entries@[i].iv, self.entries@[i].seq))
        } else {
            None
        }
    }

    /// Whether a frame from `src` with the given pair passes the replay
    /// check: strictly fresher than the stored pair, or from an unknown
    /// source while the list still has room.
    pub open spec fn accepts(&self, src: u16, iv: u32, seq: u32) -> bool {
        match self.prior(src) {
            Some((p_iv, p_seq)) => fresher(iv, seq, p_iv, p_seq),
            None => self.entries@.len() < self.capacity,
        }
    }

    pub fn new(capacity: usize) -> (r: Self)
        ensures
            r.wf(),
            r.entries@.len() == 0,
            r.capacity == capacity,
    {
        Self { entries: Vec::new(), capacity }
    }

    /// Find the index of a source's entry.
    fn find(&self, src: u16) -> (r: Option<usize>)
        requires
            self.wf(),
        ensures
            match r {
                Some(i) => {
                    &&& i < self.entries@.len()
                    &&& self.entries@[i as int].src == src
                    &&& self.prior(src) == Some((self.entries@[i as int].iv, self.entries@[i as int].seq))
                },
                None => self.prior(src) is None,
            },
    {
        let mut i: usize = 0;
        while i < self.entries.len()
            invariant
                self.wf(),
                i <= self.entries@.len(),
                forall|j: int| 0 <= j < i ==> self.entries@[j].src != src,
            decreases self.entries@.len() - i,
        {
            if self.entries[i].src == src {
                proof {
                    let w = choose|k: int|
                        0 <= k < self.entries@.len() && self.entries@[k].src == src;
                    assert(w == i);
                }
                return Some(i);
            }
            i = i + 1;
        }
        None
    }

    /// The replay check of an inbound frame, with no state change.
    pub fn check(&self, src: UnicastAddress, iv: IvIndex, seq: SequenceNumber) -> (r: bool)
        requires
            self.wf(),
        ensures
            r == self.accepts(src.0, iv.0, seq.0),
    {
        match self.find(src.0) {
            Some(i) => {
                let e = self.entries[i];
                iv.0 > e.iv || (iv.0 == e.iv && seq.0 > e.seq)
            }
            None => self.entries.len() < self.capacity,
        }
    }

    /// Record the pair of a fully decrypted frame. Only pairs strictly
    /// fresher than the stored one (or from an admissible new source)
    /// may be recorded, and afterwards the stored pair of the source is
    /// exactly the frame's pair; other sources are untouched.
    pub fn update(&mut self, src: UnicastAddress, iv: IvIndex, seq: SequenceNumber)
        requires
            old(self).wf(),
            old(self).accepts(src.0, iv.0, seq.0),
        ensures
            final(self).wf(),
            final(self).capacity == old(self).capacity,
            final(self).prior(src.0) == Some((iv.0, seq.0)),
            forall|other: u16| other != src.0
                ==> final(self).prior(other) == old(self).prior(other),
    {
        let ghost pre = *self;
        match self.find(src.0) {
            Some(i) => {
                let entry = ReplayEntry { src: src.0, iv: iv.0, seq: seq.0 };
                self.entries.set(i, entry);
                proof {
                    assert(self.wf());
                    assert(self.entries@[i as int].src == src.0);
                    let w = choose|k: int|
                        0 <= k < self.entries@.len() && self.entries@[k].src == src.0;
                    assert(self.entries@[w].src == src.0);
                    assert(w == i);
                    assert forall|other: u16| other != src.0
                        implies self.prior(other) == pre.prior(other) by {
                        lemma_prior_frame_agreement(pre, *self, other);
                    }
                }
            }
            None => {
                let entry = ReplayEntry { src: src.0, iv: iv.0, seq: seq.0 };
                self.entries.push(entry);
                proof {
                    let n = pre.entries@.len() as int;
                    assert forall|i: int, j: int|
                        0 <= i < j < self.entries@.len()
                        implies self.entries@[i].src != self.entries@[j].src by {
                        if j < n {
                            assert(pre.entries@[i].src != pre.entries@[j].src);
                        } else {
                            assert(self.entries@[j].src == src.0);
                            assert(pre.entries@[i].src != src.0);
                        }
                    }
                    assert(self.entries@[n].src == src.0);
                    let w = choose|k: int|
                        0 <= k < self.entries@.len() && self.entries@[k].src == src.0;
                    assert(self.entries@[w].src == src.0);
                    assert(w == n);
                    assert forall|other: u16| other != src.0
                        implies self.prior(other) == pre.prior(other) by {
                        lemma_prior_frame_agreement(pre, *self, other);
                    }
                }
            }
        }
    }
}

/// Two well-formed lists that agree on every entry of a source agree on
/// its stored pair: used to show updates leave other sources untouched.
proof fn lemma_prior_frame_agreement(a: ReplayProtection, b: ReplayProtection, src: u16)
    requires
        a.wf(),
        b.wf(),
        forall|i: int| 0 <= i < a.entries@.len() && a.entries@[i].src == src
            ==> 0 <= i < b.entries@.len() && b.entries@[i] == a.entries@[i],
        forall|i: int| 0 <= i < b.entries@.len() && b.entries@[i].src == src
            ==> 0 <= i < a.entries@.len() && a.entries@[i] == b.entries@[i],
    ensures
        a.prior(src) == b.prior(src),
{
    if exists|i: int| 0 <= i < a.entries@.len() && a.entries@[i].src == src {
        let i = choose|i: int| 0 <= i < a.entries@.len() && a.entries@[i].src == src;
        assert(0 <= i < b.entries@.len() && b.entries@[i].src == src);
        let j = choose|j: int| 0 <= j < b.entries@.len() && b.entries@[j].src == src;
        assert(0 <= j < a.entries@.len() && a.entries@[j].src == src);
        assert(i == j);
    } else {
        if exists|i: int| 0 <= i < b.entries@.len() && b.entries@[i].src == src {
            let i = choose|i: int| 0 <= i < b.entries@.len() && b.entries@[i].src == src;
            assert(0 <= i < a.entries@.len() && a.entries@[i].src == src);
        }
    }
}

} // verus!

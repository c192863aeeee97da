//! The transmit queue: a bounded slot array of outbound upper-transport
//! PDUs awaiting retransmission, either until a retry counter decays
//! (non-segmented) or until a block-ack covers every segment
//! (segmented). Completion is signalled through caller-owned tokens,
//! modelled by their identifiers; the caller fires the identifiers this
//! module hands back.

use vstd::prelude::*;
use crate::common::{SeqZero, Ttl};
use crate::error::{DriverError, InsufficientBuffer};
use crate::lower::{ack_admissible, covers, lemma_block_ack_idempotent, Acked, BlockAck};
use crate::upper::{same_upper_pdu, UpperPDU};

verus! {

/// How many entries the queue holds at most.
pub const QUEUE_SIZE: usize = 5;

/// An entry retransmitted a fixed number of times.
#[derive(Clone, Debug)]
pub struct NonsegmentedQueueEntry {
    pub upper_pdu: UpperPDU,
    pub num_retransmit: u8,
    pub completion_token: Option<u32>,
}

/// An entry retransmitted until its block-ack is complete.
#[derive(Clone, Debug)]
pub struct SegmentedQueueEntry {
    pub upper_pdu: UpperPDU,
    pub acked: Acked,
    pub completion_token: Option<u32>,
}

/// One queue slot's occupant.
#[derive(Clone, Debug)]
pub enum QueueEntry {
    Nonsegmented(NonsegmentedQueueEntry),
    Segmented(SegmentedQueueEntry),
}

/// The bounded transmit queue.
#[derive(Clone, Debug)]
pub struct TransmitQueue {
    pub queue: Vec<Option<QueueEntry>>,
}

/// The SeqZero a segmented entry is keyed by.
pub open spec fn entry_seq_zero(e: SegmentedQueueEntry) -> u16 {
    e.acked.block_ack.seq_zero.0
}

/// The PDU a queue entry carries.
pub open spec fn entry_pdu(e: QueueEntry) -> UpperPDU {
    match e {
        QueueEntry::Nonsegmented(x) => x.upper_pdu,
        QueueEntry::Segmented(x) => x.upper_pdu,
    }
}

/// The PDUs one retransmission pass yields: the stored PDU of every
/// occupied slot, in slot order.
pub open spec fn yielded_pdus(q: Seq<Option<QueueEntry>>) -> Seq<UpperPDU>
    decreases q.len(),
{
    if q.len() == 0 {
        Seq::empty()
    } else {
        (match q[0] {
            Some(e) => seq![entry_pdu(e)],
            None => Seq::empty(),
        }) + yielded_pdus(q.drop_first())
    }
}

/// The completion tokens one retransmission pass fires: those of the
/// non-segmented entries on their last transmission, in slot order.
pub open spec fn fired_tokens(q: Seq<Option<QueueEntry>>) -> Seq<u32>
    decreases q.len(),
{
    if q.len() == 0 {
        Seq::empty()
    } else {
        (match q[0] {
            Some(QueueEntry::Nonsegmented(e)) => if e.num_retransmit == 1
                && e.completion_token is Some {
                seq![e.completion_token->0]
            } else {
                Seq::empty()
            },
            _ => Seq::empty(),
        }) + fired_tokens(q.drop_first())
    }
}

/// One slot appended extends the yielded PDUs by that slot's PDU.
proof fn lemma_yielded_push(q: Seq<Option<QueueEntry>>, x: Option<QueueEntry>)
    ensures
        yielded_pdus(q.push(x)) == yielded_pdus(q) + (match x {
            Some(e) => seq![entry_pdu(e)],
            None => Seq::<UpperPDU>::empty(),
        }),
    decreases q.len(),
{
    let t = q.push(x);
    if q.len() == 0 {
        assert(t[0] == x);
        assert(t.drop_first() =~= Seq::<Option<QueueEntry>>::empty());
        assert(yielded_pdus(t.drop_first()).len() == 0);
        assert(yielded_pdus(t) == (match x {
            Some(e) => seq![entry_pdu(e)],
            None => Seq::<UpperPDU>::empty(),
        }) + yielded_pdus(t.drop_first()));
        assert(yielded_pdus(q).len() == 0);
        assert(yielded_pdus(t) =~= yielded_pdus(q) + (match x {
            Some(e) => seq![entry_pdu(e)],
            None => Seq::<UpperPDU>::empty(),
        }));
    } else {
        let head = (match q[0] {
            Some(e) => seq![entry_pdu(e)],
            None => Seq::<UpperPDU>::empty(),
        });
        let part = (match x {
            Some(e) => seq![entry_pdu(e)],
            None => Seq::<UpperPDU>::empty(),
        });
        assert(t[0] == q[0]);
        assert(t.drop_first() =~= q.drop_first().push(x));
        lemma_yielded_push(q.drop_first(), x);
        assert(yielded_pdus(t) == head + yielded_pdus(t.drop_first()));
        assert(yielded_pdus(t.drop_first()) == yielded_pdus(q.drop_first()) + part);
        assert(yielded_pdus(q) == head + yielded_pdus(q.drop_first()));
        assert(yielded_pdus(t) =~= yielded_pdus(q) + part);
    }
}

/// One slot appended extends the fired tokens by that slot's token.
proof fn lemma_fired_push(q: Seq<Option<QueueEntry>>, x: Option<QueueEntry>)
    ensures
        fired_tokens(q.push(x)) == fired_tokens(q) + (match x {
            Some(QueueEntry::Nonsegmented(e)) => if e.num_retransmit == 1
                && e.completion_token is Some {
                seq![e.completion_token->0]
            } else {
                Seq::<u32>::empty()
            },
            _ => Seq::<u32>::empty(),
        }),
    decreases q.len(),
{
    let t = q.push(x);
    if q.len() == 0 {
        assert(t[0] == x);
        assert(t.drop_first() =~= Seq::<Option<QueueEntry>>::empty());
        assert(fired_tokens(t.drop_first()).len() == 0);
        assert(fired_tokens(t) == (match x {
            Some(QueueEntry::Nonsegmented(e)) => if e.num_retransmit == 1
                && e.completion_token is Some {
                seq![e.completion_token->0]
            } else {
                Seq::<u32>::empty()
            },
            _ => Seq::<u32>::empty(),
        }) + fired_tokens(t.drop_first()));
        assert(fired_tokens(q).len() == 0);
        assert(fired_tokens(t) =~= fired_tokens(q) + (match x {
            Some(QueueEntry::Nonsegmented(e)) => if e.num_retransmit == 1
                && e.completion_token is Some {
                seq![e.completion_token->0]
            } else {
                Seq::<u32>::empty()
            },
            _ => Seq::<u32>::empty(),
        }));
    } else {
        let head = (match q[0] {
            Some(QueueEntry::Nonsegmented(e)) => if e.num_retransmit == 1
                && e.completion_token is Some {
                seq![e.completion_token->0]
            } else {
                Seq::<u32>::empty()
            },
            _ => Seq::<u32>::empty(),
        });
        let part = (match x {
            Some(QueueEntry::Nonsegmented(e)) => if e.num_retransmit == 1
                && e.completion_token is Some {
                seq![e.completion_token->0]
            } else {
                Seq::<u32>::empty()
            },
            _ => Seq::<u32>::empty(),
        });
        assert(t[0] == q[0]);
        assert(t.drop_first() =~= q.drop_first().push(x));
        lemma_fired_push(q.drop_first(), x);
        assert(fired_tokens(t) == head + fired_tokens(t.drop_first()));
        assert(fired_tokens(t.drop_first()) == fired_tokens(q.drop_first()) + part);
        assert(fired_tokens(q) == head + fired_tokens(q.drop_first()));
        assert(fired_tokens(t) =~= fired_tokens(q) + part);
    }
}

/// A pass yields at most one PDU per slot.
pub proof fn lemma_yielded_len(q: Seq<Option<QueueEntry>>)
    ensures
        yielded_pdus(q).len() <= q.len(),
        fired_tokens(q).len() <= q.len(),
    decreases q.len(),
{
    if q.len() > 0 {
        lemma_yielded_len(q.drop_first());
    }
}

/// Whether `pdu` is (a copy of) the PDU of some occupied slot.
pub open spec fn pdu_from_queue(q: Seq<Option<QueueEntry>>, pdu: UpperPDU) -> bool {
    exists|j: int| 0 <= j < q.len() && (#[trigger] q[j]) is Some
        && same_upper_pdu(pdu, entry_pdu(q[j]->Some_0))
}

/// Whether `t` is the completion token of some slot holding a
/// non-segmented entry on its last transmission.
pub open spec fn token_from_queue(q: Seq<Option<QueueEntry>>, t: u32) -> bool {
    exists|j: int| 0 <= j < q.len() && ((#[trigger] q[j]) matches Some(
        QueueEntry::Nonsegmented(e)) && e.num_retransmit == 1 && e.completion_token == Some(t))
}

impl TransmitQueue {
    /// A fixed number of slots; every occupied segmented slot has a
    /// well-formed acknowledgement state, and every non-segmented one
    /// still owes at least one transmission.
    pub open spec fn wf(&self) -> bool {
        &&& self.queue@.len() == QUEUE_SIZE
        &&& forall|i: int| 0 <= i < self.queue@.len()
            ==> ((#[trigger] self.queue@[i]) matches Some(QueueEntry::Segmented(e))
                ==> e.acked.wf())
        &&& forall|i: int| 0 <= i < self.queue@.len()
            ==> ((#[trigger] self.queue@[i]) matches Some(QueueEntry::Nonsegmented(e))
                ==> e.num_retransmit >= 1)
    }

    /// An empty queue.
    pub fn new() -> (r: Self)
        ensures
            r.wf(),
            forall|i: int| 0 <= i < QUEUE_SIZE ==> r.queue@[i] is None,
    {
        let mut queue: Vec<Option<QueueEntry>> = Vec::new();
        let mut i: usize = 0;
        while i < QUEUE_SIZE
            invariant
                i <= QUEUE_SIZE,
                queue@.len() == i,
                forall|j: int| 0 <= j < i ==> queue@[j] is None,
            decreases QUEUE_SIZE - i,
        {
            queue.push(None);
            i = i + 1;
        }
        TransmitQueue { queue }
    }

    /// Queue a segmented PDU for retransmission until its block-ack is
    /// complete. It takes the first free slot; a full queue drops the
    /// PDU, as retransmission is best-effort.
    pub fn add_segmented(&mut self, upper_pdu: UpperPDU, num_segments: u8, completion_token:
        Option<u32>, seq_zero: SeqZero) -> (r: Result<(), InsufficientBuffer>)
        requires
            old(self).wf(),
            1 <= num_segments <= 32,
        ensures
            final(self).wf(),
            r is Ok,
            final(self).queue@.len() == old(self).queue@.len(),
            (exists|i: int| 0 <= i < old(self).queue@.len() && old(self).queue@[i] is None)
                ==> exists|i: int| ({
                &&& 0 <= i < final(self).queue@.len()
                &&& old(self).queue@[i] is None
                &&& forall|j: int| 0 <= j < i ==> old(self).queue@[j] is Some
                &&& (#[trigger] final(self).queue@[i]) matches Some(QueueEntry::Segmented(e))
                &&& e.upper_pdu == upper_pdu
                &&& e.acked.num_segments == num_segments
                &&& e.acked.block_ack.bitmap == 0
                &&& e.acked.block_ack.seq_zero == seq_zero
                &&& e.completion_token == completion_token
                &&& forall|j: int| 0 <= j < final(self).queue@.len() && j != i
                    ==> final(self).queue@[j] == old(self).queue@[j]
            }),
            (forall|i: int| 0 <= i < old(self).queue@.len()
                ==> old(self).queue@[i] is Some) ==> *final(self) == *old(self),
    {
        let ghost pre = *self;
        let mut i: usize = 0;
        while i < QUEUE_SIZE
            invariant
                old(self).wf(),
                pre == *old(self),
                *self == pre,
                1 <= num_segments <= 32,
                i <= QUEUE_SIZE,
                forall|j: int| 0 <= j < i ==> self.queue@[j] is Some,
            decreases QUEUE_SIZE - i,
        {
            let slot_free: bool = match &self.queue[i] {
                None => true,
                Some(_) => false,
            };
            if slot_free {
                let entry = SegmentedQueueEntry {
                    upper_pdu,
                    acked: Acked::new(seq_zero, num_segments),
                    completion_token,
                };
                self.queue.set(i, Some(QueueEntry::Segmented(entry)));
                proof {
                    assert(final(self).queue@[i as int] matches Some(
                        QueueEntry::Segmented(e)) && e.acked.num_segments == num_segments);
                    assert(self.wf());
                }
                return Ok(());
            }
            i = i + 1;
        }
        Ok(())
    }

    /// Queue a non-segmented PDU for a fixed number of retransmissions.
    /// It takes the first free slot; a full queue drops the PDU.
    pub fn add_nonsegmented(&mut self, upper_pdu: UpperPDU, num_retransmit: u8, completion_token:
        Option<u32>) -> (r: Result<(), InsufficientBuffer>)
        requires
            old(self).wf(),
            num_retransmit >= 1,
        ensures
            final(self).wf(),
            r is Ok,
            final(self).queue@.len() == old(self).queue@.len(),
            (exists|i: int| 0 <= i < old(self).queue@.len() && old(self).queue@[i] is None)
                ==> exists|i: int| ({
                &&& 0 <= i < final(self).queue@.len()
                &&& old(self).queue@[i] is None
                &&& forall|j: int| 0 <= j < i ==> old(self).queue@[j] is Some
                &&& (#[trigger] final(self).queue@[i]) matches Some(
                    QueueEntry::Nonsegmented(e))
                &&& e.upper_pdu == upper_pdu
                &&& e.num_retransmit == num_retransmit
                &&& e.completion_token == completion_token
                &&& forall|j: int| 0 <= j < final(self).queue@.len() && j != i
                    ==> final(self).queue@[j] == old(self).queue@[j]
            }),
            (forall|i: int| 0 <= i < old(self).queue@.len()
                ==> old(self).queue@[i] is Some) ==> *final(self) == *old(self),
    {
        let ghost pre = *self;
        let mut i: usize = 0;
        while i < QUEUE_SIZE
            invariant
                old(self).wf(),
                pre == *old(self),
                *self == pre,
                num_retransmit >= 1,
                i <= QUEUE_SIZE,
                forall|j: int| 0 <= j < i ==> self.queue@[j] is Some,
            decreases QUEUE_SIZE - i,
        {
            let slot_free: bool = match &self.queue[i] {
                None => true,
                Some(_) => false,
            };
            if slot_free {
                let entry = NonsegmentedQueueEntry {
                    upper_pdu,
                    num_retransmit,
                    completion_token,
                };
                self.queue.set(i, Some(QueueEntry::Nonsegmented(entry)));
                proof {
                    assert(pre.queue@[i as int] is None);
                    assert(self.queue@[i as int] matches Some(QueueEntry::Nonsegmented(e))
                        && e.num_retransmit == num_retransmit
                        && e.completion_token == completion_token);
                    assert(self.wf());
                }
                return Ok(());
            }
            i = i + 1;
        }
        Ok(())
    }

    /// One retransmission pass: every occupied slot's PDU is returned
    /// for transmission, in slot order. Non-segmented entries decay
    /// their counter; one that reaches zero fires its token and leaves
    /// the queue. Segmented entries stay until acknowledged.
    pub fn iter(&mut self) -> (r: (Vec<UpperPDU>, Vec<u32>))
        requires
            old(self).wf(),
        ensures
            final(self).wf(),
            final(self).queue@.len() == old(self).queue@.len(),
            forall|i: int| 0 <= i < old(self).queue@.len() ==> match old(self).queue@[i] {
                Some(QueueEntry::Segmented(e)) => final(self).queue@[i]
                    == old(self).queue@[i],
                Some(QueueEntry::Nonsegmented(e)) => {
                    &&& (e.num_retransmit > 1 ==> ((#[trigger] final(self).queue@[i])
                        matches Some(QueueEntry::Nonsegmented(e2))
                        && e2.num_retransmit == e.num_retransmit - 1
                        && same_upper_pdu(e2.upper_pdu, e.upper_pdu)
                        && e2.completion_token == e.completion_token))
                    &&& (e.num_retransmit == 1 ==> final(self).queue@[i] is None)
                },
                None => final(self).queue@[i] is None,
            },
            r.0@.len() == yielded_pdus(old(self).queue@).len(),
            forall|k: int| 0 <= k < r.0@.len() ==> same_upper_pdu(
                #[trigger] r.0@[k],
                yielded_pdus(old(self).queue@)[k],
            ),
            r.1@ == fired_tokens(old(self).queue@),
            forall|k: int| 0 <= k < r.0@.len() ==> pdu_from_queue(old(self).queue@,
                #[trigger] r.0@[k]),
            forall|k: int| 0 <= k < r.1@.len() ==> token_from_queue(old(self).queue@,
                #[trigger] r.1@[k]),
    {
        let mut pdus: Vec<UpperPDU> = Vec::new();
        let mut fired: Vec<u32> = Vec::new();
        let ghost pre = *self;
        proof {
            assert(pre.queue@.subrange(0, 0) =~= Seq::<Option<QueueEntry>>::empty());
            assert(yielded_pdus(pre.queue@.subrange(0, 0)).len() == 0);
            assert(fired@ =~= fired_tokens(pre.queue@.subrange(0, 0)));
        }
        let mut i: usize = 0;
        while i < QUEUE_SIZE
            invariant
                pre.wf(),
                pre == *old(self),
                self.queue@.len() == QUEUE_SIZE,
                pre.queue@.len() == QUEUE_SIZE,
                i <= QUEUE_SIZE,
                self.wf(),
                forall|j: int| i <= j < QUEUE_SIZE ==> self.queue@[j] == pre.queue@[j],
                forall|j: int| 0 <= j < i ==> match pre.queue@[j] {
                    Some(QueueEntry::Segmented(e)) => self.queue@[j] == pre.queue@[j],
                    Some(QueueEntry::Nonsegmented(e)) => {
                        &&& (e.num_retransmit > 1 ==> ((#[trigger] self.queue@[j])
                            matches Some(QueueEntry::Nonsegmented(e2))
                            && e2.num_retransmit == e.num_retransmit - 1
                            && same_upper_pdu(e2.upper_pdu, e.upper_pdu)
                            && e2.completion_token == e.completion_token))
                        &&& (e.num_retransmit == 1 ==> self.queue@[j] is None)
                    },
                    None => self.queue@[j] is None,
                },
                pdus@.len() == yielded_pdus(pre.queue@.subrange(0, i as int)).len(),
                forall|k: int| 0 <= k < pdus@.len() ==> same_upper_pdu(
                    #[trigger] pdus@[k],
                    yielded_pdus(pre.queue@.subrange(0, i as int))[k],
                ),
                fired@ == fired_tokens(pre.queue@.subrange(0, i as int)),
                forall|k: int| 0 <= k < pdus@.len() ==> pdu_from_queue(pre.queue@,
                    #[trigger] pdus@[k]),
                forall|k: int| 0 <= k < fired@.len() ==> token_from_queue(pre.queue@,
                    #[trigger] fired@[k]),
            decreases QUEUE_SIZE - i,
        {
            let ghost pdus_pre = pdus@;
            let ghost fired_pre = fired@;
            let decay: Option<(UpperPDU, u8, Option<u32>)> = match &self.queue[i] {
                Some(QueueEntry::Nonsegmented(e)) => Some((e.upper_pdu.duplicate(),
                    e.num_retransmit, e.completion_token)),
                Some(QueueEntry::Segmented(e)) => {
                    pdus.push(e.upper_pdu.duplicate());
                    None
                }
                None => None,
            };
            match decay {
                Some((pdu, num_retransmit, completion_token)) => {
                    let pdu2: UpperPDU = pdu.duplicate();
                    pdus.push(pdu);
                    if num_retransmit == 1 {
                        match completion_token {
                            Some(token) => {
                                fired.push(token);
                            }
                            None => {}
                        }
                        self.queue.set(i, None);
                    } else {
                        let e2 = NonsegmentedQueueEntry {
                            upper_pdu: pdu2,
                            num_retransmit: num_retransmit - 1,
                            completion_token,
                        };
                        self.queue.set(i, Some(QueueEntry::Nonsegmented(e2)));
                    }
                }
                None => {}
            }
            proof {
                let prefix = pre.queue@.subrange(0, i as int);
                let slot = pre.queue@[i as int];
                assert(pre.queue@.subrange(0, i + 1 as int) =~= prefix.push(slot));
                lemma_yielded_push(prefix, slot);
                lemma_fired_push(prefix, slot);
                assert(fired@ =~= fired_tokens(pre.queue@.subrange(0, i + 1 as int)));
                assert forall|k: int| 0 <= k < pdus@.len() implies same_upper_pdu(
                    #[trigger] pdus@[k],
                    yielded_pdus(pre.queue@.subrange(0, i + 1 as int))[k],
                ) by {
                    if k < pdus_pre.len() {
                        assert(pdus@[k] == pdus_pre[k]);
                        assert(yielded_pdus(pre.queue@.subrange(0, i + 1 as int))[k]
                            == yielded_pdus(prefix)[k]);
                    } else {
                        assert(pdus@[k] == pdus@[pdus@.len() - 1]);
                        assert(slot is Some && same_upper_pdu(pdus@[k],
                            entry_pdu(slot->Some_0)));
                    }
                }
                assert forall|k: int| 0 <= k < pdus@.len() implies pdu_from_queue(pre.queue@,
                    #[trigger] pdus@[k]) by {
                    if k < pdus_pre.len() {
                        assert(pdus@[k] == pdus_pre[k]);
                        assert(pdu_from_queue(pre.queue@, pdus_pre[k]));
                    } else {
                        assert(pre.queue@[i as int] is Some && same_upper_pdu(pdus@[k],
                            entry_pdu(pre.queue@[i as int]->Some_0)));
                    }
                }
                assert forall|k: int| 0 <= k < fired@.len() implies token_from_queue(pre.queue@,
                    #[trigger] fired@[k]) by {
                    if k < fired_pre.len() {
                        assert(fired@[k] == fired_pre[k]);
                        assert(token_from_queue(pre.queue@, fired_pre[k]));
                    } else {
                        assert(pre.queue@[i as int] matches Some(QueueEntry::Nonsegmented(e))
                            && e.num_retransmit == 1 && e.completion_token == Some(fired@[k]));
                    }
                }
            }
            i = i + 1;
        }
        proof {
            assert(pre.queue@.subrange(0, QUEUE_SIZE as int) =~= pre.queue@);
        }
        (pdus, fired)
    }

    /// Drop the segmented entry of an expired SeqZero, firing nothing:
    /// the watchdog's retry budget is exhausted.
    pub fn expire_outbound(&mut self, seq_zero: SeqZero)
        requires
            old(self).wf(),
        ensures
            final(self).wf(),
            final(self).queue@.len() == old(self).queue@.len(),
            forall|i: int| 0 <= i < old(self).queue@.len() ==> match old(self).queue@[i] {
                Some(QueueEntry::Segmented(e)) => (entry_seq_zero(e) == seq_zero.0
                    ==> (#[trigger] final(self).queue@[i]) is None) && (entry_seq_zero(e)
                    != seq_zero.0 ==> final(self).queue@[i] == old(self).queue@[i]),
                _ => final(self).queue@[i] == old(self).queue@[i],
            },
    {
        let ghost pre = *self;
        let mut i: usize = 0;
        while i < QUEUE_SIZE
            invariant
                pre.wf(),
                pre == *old(self),
                self.queue@.len() == QUEUE_SIZE,
                pre.queue@.len() == QUEUE_SIZE,
                i <= QUEUE_SIZE,
                self.wf(),
                forall|j: int| i <= j < QUEUE_SIZE ==> self.queue@[j] == pre.queue@[j],
                forall|j: int| 0 <= j < i ==> match pre.queue@[j] {
                    Some(QueueEntry::Segmented(e)) => (entry_seq_zero(e) == seq_zero.0
                        ==> (#[trigger] self.queue@[j]) is None) && (entry_seq_zero(e)
                        != seq_zero.0 ==> self.queue@[j] == pre.queue@[j]),
                    _ => self.queue@[j] == pre.queue@[j],
                },
            decreases QUEUE_SIZE - i,
        {
            let matches_key: bool = match &self.queue[i] {
                Some(QueueEntry::Segmented(e)) => e.acked.block_ack.seq_zero.0 == seq_zero.0,
                _ => false,
            };
            if matches_key {
                self.queue.set(i, None);
            }
            i = i + 1;
        }
    }

    /// Merge an inbound block-ack into the first segmented entry it is
    /// keyed to, if any. An admissible ack merges into that entry's
    /// bitmap; once the union covers every segment the entry fires its
    /// token and leaves the queue. An ack naming a segment at or past
    /// the entry's segment count is invalid and changes nothing, and an
    /// ack matching no entry changes nothing.
    pub fn receive_ack(&mut self, block_ack: BlockAck) -> (r: Result<Option<u32>, DriverError>)
        requires
            old(self).wf(),
        ensures
            final(self).wf(),
            final(self).queue@.len() == old(self).queue@.len(),
            (forall|i: int| 0 <= i < old(self).queue@.len()
                ==> !seg_matches(#[trigger] old(self).queue@[i], block_ack.seq_zero.0))
                ==> r == Ok::<Option<u32>, DriverError>(None) && *final(self) == *old(self),
            r is Err ==> *final(self) == *old(self)
                && r == Err::<Option<u32>, DriverError>(DriverError::InvalidState),
            (exists|i: int| 0 <= i < old(self).queue@.len()
                && seg_matches(#[trigger] old(self).queue@[i], block_ack.seq_zero.0))
                ==> exists|i: int| ({
                let e = old(self).queue@[i]->Some_0->Segmented_0;
                let merged = (e.acked.block_ack.bitmap | block_ack.bitmap) as u32;
                &&& 0 <= i < old(self).queue@.len()
                &&& seg_matches(#[trigger] old(self).queue@[i], block_ack.seq_zero.0)
                &&& forall|j: int| 0 <= j < i
                    ==> !seg_matches(old(self).queue@[j], block_ack.seq_zero.0)
                &&& forall|j: int| 0 <= j < old(self).queue@.len() && j != i
                    ==> final(self).queue@[j] == old(self).queue@[j]
                &&& (!ack_admissible(block_ack.bitmap, e.acked.num_segments) ==> r is Err)
                &&& (ack_admissible(block_ack.bitmap, e.acked.num_segments) ==> ({
                    &&& (covers(merged, e.acked.num_segments) ==> final(self).queue@[i]
                        is None && r == Ok::<Option<u32>, DriverError>(e.completion_token))
                    &&& (!covers(merged, e.acked.num_segments) ==> ({
                        &&& final(self).queue@[i] matches Some(QueueEntry::Segmented(e2))
                        &&& e2.acked.block_ack.bitmap == merged
                        &&& e2.acked.block_ack.seq_zero == e.acked.block_ack.seq_zero
                        &&& e2.acked.num_segments == e.acked.num_segments
                        &&& e2.completion_token == e.completion_token
                        &&& same_upper_pdu(e2.upper_pdu, e.upper_pdu)
                        &&& r == Ok::<Option<u32>, DriverError>(None)
                    }))
                }))
            }),
            r matches Ok(Some(t)) ==> exists|i: int| ({
                &&& 0 <= i < old(self).queue@.len()
                &&& (#[trigger] old(self).queue@[i]) matches Some(QueueEntry::Segmented(e))
                &&& entry_seq_zero(e) == block_ack.seq_zero.0
                &&& e.completion_token == Some(t)
                &&& final(self).queue@[i] is None
            }),
            receive_ack_step(*old(self), *final(self), r, block_ack),
    {
        let ghost pre = *self;
        let mut i: usize = 0;
        while i < QUEUE_SIZE
            invariant
                pre.wf(),
                pre == *old(self),
                self.queue@.len() == QUEUE_SIZE,
                pre.queue@.len() == QUEUE_SIZE,
                i <= QUEUE_SIZE,
                self.wf(),
                *self == pre,
                forall|j: int| 0 <= j < i
                    ==> !seg_matches(#[trigger] pre.queue@[j], block_ack.seq_zero.0),
            decreases QUEUE_SIZE - i,
        {
            let found: Option<(UpperPDU, Acked, Option<u32>)> = match &self.queue[i] {
                Some(QueueEntry::Segmented(e)) => {
                    if e.acked.block_ack.seq_zero.0 == block_ack.seq_zero.0 {
                        Some((e.upper_pdu.duplicate(), e.acked, e.completion_token))
                    } else {
                        None
                    }
                }
                _ => None,
            };
            match found {
                Some((pdu, acked0, completion_token)) => {
                    proof {
                        assert(seg_matches(pre.queue@[i as int], block_ack.seq_zero.0));
                    }
                    let mut acked: Acked = acked0;
                    let fully_acked: bool = match acked.ack(block_ack) {
                        Ok(full) => full,
                        Err(_) => {
                            proof {
                                assert(!ack_admissible(
                                    block_ack.bitmap,
                                    pre.queue@[i as int]->Some_0->Segmented_0.acked.num_segments,
                                ));
                            }
                            return Err(DriverError::InvalidState);
                        }
                    };
                    if fully_acked {
                        self.queue.set(i, None);
                        proof {
                            assert(self.wf());
                            let e = pre.queue@[i as int]->Some_0->Segmented_0;
                            assert(covers(
                                (e.acked.block_ack.bitmap | block_ack.bitmap) as u32,
                                e.acked.num_segments,
                            ));
                        }
                        return Ok(completion_token);
                    } else {
                        let e2 = SegmentedQueueEntry {
                            upper_pdu: pdu,
                            acked,
                            completion_token,
                        };
                        self.queue.set(i, Some(QueueEntry::Segmented(e2)));
                        proof {
                            assert(self.wf());
                            let e = pre.queue@[i as int]->Some_0->Segmented_0;
                            assert(!covers(
                                (e.acked.block_ack.bitmap | block_ack.bitmap) as u32,
                                e.acked.num_segments,
                            ));
                            assert(self.queue@[i as int] matches Some(
                                QueueEntry::Segmented(x)) && same_upper_pdu(
                                x.upper_pdu,
                                e.upper_pdu,
                            ));
                        }
                        return Ok(None);
                    }
                }
                None => {
                    proof {
                        assert(!seg_matches(pre.queue@[i as int], block_ack.seq_zero.0));
                    }
                }
            }
            i = i + 1;
        }
        Ok(None)
    }
}

/// Whether a queue slot holds the segmented entry keyed by `seq_zero`.
pub open spec fn seg_matches(slot: Option<QueueEntry>, seq_zero: u16) -> bool {
    slot matches Some(QueueEntry::Segmented(e)) && entry_seq_zero(e) == seq_zero
}

/// What one `receive_ack` call ensures of its before and after states
/// and its result, restated over plain values so that laws can chain
/// calls.
pub open spec fn receive_ack_step(
    pre: TransmitQueue,
    post: TransmitQueue,
    r: Result<Option<u32>, DriverError>,
    block_ack: BlockAck,
) -> bool {
    &&& post.queue@.len() == pre.queue@.len()
    &&& ((forall|i: int| 0 <= i < pre.queue@.len()
        ==> !seg_matches(#[trigger] pre.queue@[i], block_ack.seq_zero.0))
        ==> r == Ok::<Option<u32>, DriverError>(None) && post == pre)
    &&& (r is Err ==> post == pre)
    &&& ((exists|i: int| 0 <= i < pre.queue@.len()
        && seg_matches(#[trigger] pre.queue@[i], block_ack.seq_zero.0)) ==> exists|i: int| ({
        let e = pre.queue@[i]->Some_0->Segmented_0;
        let merged = (e.acked.block_ack.bitmap | block_ack.bitmap) as u32;
        &&& 0 <= i < pre.queue@.len()
        &&& seg_matches(#[trigger] pre.queue@[i], block_ack.seq_zero.0)
        &&& forall|j: int| 0 <= j < i ==> !seg_matches(pre.queue@[j], block_ack.seq_zero.0)
        &&& forall|j: int| 0 <= j < pre.queue@.len() && j != i
            ==> post.queue@[j] == pre.queue@[j]
        &&& (!ack_admissible(block_ack.bitmap, e.acked.num_segments) ==> r is Err)
        &&& (ack_admissible(block_ack.bitmap, e.acked.num_segments) ==> ({
            &&& (covers(merged, e.acked.num_segments) ==> post.queue@[i] is None
                && r == Ok::<Option<u32>, DriverError>(e.completion_token))
            &&& (!covers(merged, e.acked.num_segments) ==> ({
                &&& post.queue@[i] matches Some(QueueEntry::Segmented(e2))
                &&& e2.acked.block_ack.bitmap == merged
                &&& e2.acked.block_ack.seq_zero == e.acked.block_ack.seq_zero
                &&& e2.acked.num_segments == e.acked.num_segments
                &&& e2.completion_token == e.completion_token
                &&& same_upper_pdu(e2.upper_pdu, e.upper_pdu)
                &&& r == Ok::<Option<u32>, DriverError>(None)
            }))
        }))
    }))
}

/// Block-ack idempotence at the queue: for a queue holding at most one
/// segmented entry per SeqZero — as it does when each transmission is
/// enqueued once — applying the same admissible block-ack a second
/// time succeeds and leaves every slot exactly as the first
/// application left it, the retransmitted PDU equal field by field.
pub proof fn lemma_receive_ack_idempotent(
    q0: TransmitQueue,
    q1: TransmitQueue,
    q2: TransmitQueue,
    r1: Result<Option<u32>, DriverError>,
    r2: Result<Option<u32>, DriverError>,
    block_ack: BlockAck,
)
    requires
        forall|i: int, j: int| 0 <= i < j < q0.queue@.len()
            ==> !(seg_matches(#[trigger] q0.queue@[i], block_ack.seq_zero.0) && seg_matches(
            #[trigger] q0.queue@[j],
            block_ack.seq_zero.0,
        )),
        receive_ack_step(q0, q1, r1, block_ack),
        receive_ack_step(q1, q2, r2, block_ack),
        r1 is Ok,
    ensures
        r2 is Ok,
        q2.queue@.len() == q1.queue@.len(),
        forall|i: int| 0 <= i < q1.queue@.len() ==> match q1.queue@[i] {
            Some(QueueEntry::Segmented(e)) => (#[trigger] q2.queue@[i]) matches Some(
                QueueEntry::Segmented(e2)) && e2.acked == e.acked && e2.completion_token
                == e.completion_token && same_upper_pdu(e2.upper_pdu, e.upper_pdu),
            Some(QueueEntry::Nonsegmented(e)) => q2.queue@[i] == q1.queue@[i],
            None => q2.queue@[i] is None,
        },
{
    let sz = block_ack.seq_zero.0;
    if forall|i: int| 0 <= i < q0.queue@.len() ==> !seg_matches(#[trigger] q0.queue@[i], sz) {
        assert(q1 == q0);
        assert(forall|i: int| 0 <= i < q1.queue@.len()
            ==> !seg_matches(#[trigger] q1.queue@[i], sz));
        assert(q2 == q1);
        assert forall|i: int| 0 <= i < q1.queue@.len() implies match q1.queue@[i] {
            Some(QueueEntry::Segmented(e)) => (#[trigger] q2.queue@[i]) matches Some(
                QueueEntry::Segmented(e2)) && e2.acked == e.acked && e2.completion_token
                == e.completion_token && same_upper_pdu(e2.upper_pdu, e.upper_pdu),
            Some(QueueEntry::Nonsegmented(e)) => q2.queue@[i] == q1.queue@[i],
            None => q2.queue@[i] is None,
        } by {
            assert(q2.queue@[i] == q1.queue@[i]);
        }
    } else {
        let iw = choose|i: int| 0 <= i < q0.queue@.len() && seg_matches(
            #[trigger] q0.queue@[i],
            sz,
        );
        let i1 = choose|i: int| ({
            let e = q0.queue@[i]->Some_0->Segmented_0;
            let merged = (e.acked.block_ack.bitmap | block_ack.bitmap) as u32;
            &&& 0 <= i < q0.queue@.len()
            &&& seg_matches(#[trigger] q0.queue@[i], sz)
            &&& forall|j: int| 0 <= j < i ==> !seg_matches(q0.queue@[j], sz)
            &&& forall|j: int| 0 <= j < q0.queue@.len() && j != i
                ==> q1.queue@[j] == q0.queue@[j]
            &&& (!ack_admissible(block_ack.bitmap, e.acked.num_segments) ==> r1 is Err)
            &&& (ack_admissible(block_ack.bitmap, e.acked.num_segments) ==> ({
                &&& (covers(merged, e.acked.num_segments) ==> q1.queue@[i] is None
                    && r1 == Ok::<Option<u32>, DriverError>(e.completion_token))
                &&& (!covers(merged, e.acked.num_segments) ==> ({
                    &&& q1.queue@[i] matches Some(QueueEntry::Segmented(e2))
                    &&& e2.acked.block_ack.bitmap == merged
                    &&& e2.acked.block_ack.seq_zero == e.acked.block_ack.seq_zero
                    &&& e2.acked.num_segments == e.acked.num_segments
                    &&& e2.completion_token == e.completion_token
                    &&& same_upper_pdu(e2.upper_pdu, e.upper_pdu)
                    &&& r1 == Ok::<Option<u32>, DriverError>(None)
                }))
            }))
        });
        let e = q0.queue@[i1]->Some_0->Segmented_0;
        let merged = (e.acked.block_ack.bitmap | block_ack.bitmap) as u32;
        assert(ack_admissible(block_ack.bitmap, e.acked.num_segments));
        if covers(merged, e.acked.num_segments) {
            // the entry is gone: the repeat finds no match
            assert forall|j: int| 0 <= j < q1.queue@.len()
                implies !seg_matches(#[trigger] q1.queue@[j], sz) by {
                if j != i1 {
                    assert(q1.queue@[j] == q0.queue@[j]);
                    if seg_matches(q0.queue@[j], sz) {
                        assert(seg_matches(q0.queue@[i1], sz));
                        assert(false);
                    }
                }
            }
            assert(q2 == q1);
            assert forall|i: int| 0 <= i < q1.queue@.len() implies match q1.queue@[i] {
                Some(QueueEntry::Segmented(e0)) => (#[trigger] q2.queue@[i]) matches Some(
                    QueueEntry::Segmented(e2)) && e2.acked == e0.acked
                    && e2.completion_token == e0.completion_token && same_upper_pdu(
                    e2.upper_pdu,
                    e0.upper_pdu,
                ),
                Some(QueueEntry::Nonsegmented(e0)) => q2.queue@[i] == q1.queue@[i],
                None => q2.queue@[i] is None,
            } by {
                assert(q2.queue@[i] == q1.queue@[i]);
            }
        } else {
            // the merged entry is hit again; merging is idempotent
            assert(q1.queue@[i1] is Some && q1.queue@[i1]->Some_0 is Segmented);
            assert(q1.queue@[i1]->Some_0->Segmented_0.acked.block_ack.bitmap == merged);
            assert(q1.queue@[i1]->Some_0->Segmented_0.acked.num_segments
                == e.acked.num_segments);
            assert(seg_matches(q1.queue@[i1], sz));
            let i2 = choose|i: int| ({
                let c = q1.queue@[i]->Some_0->Segmented_0;
                let merged2 = (c.acked.block_ack.bitmap | block_ack.bitmap) as u32;
                &&& 0 <= i < q1.queue@.len()
                &&& seg_matches(#[trigger] q1.queue@[i], sz)
                &&& forall|j: int| 0 <= j < i ==> !seg_matches(q1.queue@[j], sz)
                &&& forall|j: int| 0 <= j < q1.queue@.len() && j != i
                    ==> q2.queue@[j] == q1.queue@[j]
                &&& (!ack_admissible(block_ack.bitmap, c.acked.num_segments) ==> r2 is Err)
                &&& (ack_admissible(block_ack.bitmap, c.acked.num_segments) ==> ({
                    &&& (covers(merged2, c.acked.num_segments) ==> q2.queue@[i] is None
                        && r2 == Ok::<Option<u32>, DriverError>(c.completion_token))
                    &&& (!covers(merged2, c.acked.num_segments) ==> ({
                        &&& q2.queue@[i] matches Some(QueueEntry::Segmented(e2))
                        &&& e2.acked.block_ack.bitmap == merged2
                        &&& e2.acked.block_ack.seq_zero == c.acked.block_ack.seq_zero
                        &&& e2.acked.num_segments == c.acked.num_segments
                        &&& e2.completion_token == c.completion_token
                        &&& same_upper_pdu(e2.upper_pdu, c.upper_pdu)
                        &&& r2 == Ok::<Option<u32>, DriverError>(None)
                    }))
                }))
            });
            // uniqueness forces the repeat onto the same slot
            if i2 != i1 {
                assert(q1.queue@[i2] == q0.queue@[i2]);
                assert(seg_matches(q0.queue@[i2], sz));
                assert(seg_matches(q0.queue@[i1], sz));
                assert(false);
            }
            let c = q1.queue@[i2]->Some_0->Segmented_0;
            lemma_block_ack_idempotent(e.acked.block_ack.bitmap, block_ack.bitmap);
            assert((c.acked.block_ack.bitmap | block_ack.bitmap) as u32 == merged);
            assert(!covers((c.acked.block_ack.bitmap | block_ack.bitmap) as u32,
                c.acked.num_segments));
            assert forall|i: int| 0 <= i < q1.queue@.len() implies match q1.queue@[i] {
                Some(QueueEntry::Segmented(e0)) => (#[trigger] q2.queue@[i]) matches Some(
                    QueueEntry::Segmented(e2)) && e2.acked == e0.acked
                    && e2.completion_token == e0.completion_token && same_upper_pdu(
                    e2.upper_pdu,
                    e0.upper_pdu,
                ),
                Some(QueueEntry::Nonsegmented(e0)) => q2.queue@[i] == q1.queue@[i],
                None => q2.queue@[i] is None,
            } by {
                if i != i1 {
                    assert(q2.queue@[i] == q1.queue@[i]);
                }
            }
        }
    }
}

/// The entries of a watchdog table that have expired by `now`, in
/// order.
pub open spec fn watchdog_due(entries: Seq<(u64, SeqZero)>, now: u64) -> Seq<SeqZero>
    decreases entries.len(),
{
    if entries.len() == 0 {
        Seq::empty()
    } else {
        (if entries[0].0 <= now {
            seq![entries[0].1]
        } else {
            Seq::empty()
        }) + watchdog_due(entries.drop_first(), now)
    }
}

/// The entries of a watchdog table still pending at `now`, in order.
pub open spec fn watchdog_live(entries: Seq<(u64, SeqZero)>, now: u64) -> Seq<(u64, SeqZero)>
    decreases entries.len(),
{
    if entries.len() == 0 {
        Seq::empty()
    } else {
        (if entries[0].0 <= now {
            Seq::empty()
        } else {
            seq![entries[0]]
        }) + watchdog_live(entries.drop_first(), now)
    }
}

/// A watchdog table without the entries keyed by one SeqZero.
pub open spec fn watchdog_without(entries: Seq<(u64, SeqZero)>, seq_zero: u16) -> Seq<(
    u64,
    SeqZero,
)>
    decreases entries.len(),
{
    if entries.len() == 0 {
        Seq::empty()
    } else {
        (if entries[0].1.0 == seq_zero {
            Seq::empty()
        } else {
            seq![entries[0]]
        }) + watchdog_without(entries.drop_first(), seq_zero)
    }
}

/// Removal never grows the table.
proof fn lemma_watchdog_without_len(entries: Seq<(u64, SeqZero)>, seq_zero: u16)
    ensures
        watchdog_without(entries, seq_zero).len() <= entries.len(),
    decreases entries.len(),
{
    if entries.len() > 0 {
        lemma_watchdog_without_len(entries.drop_first(), seq_zero);
    }
}

/// The watchdog bookkeeping of in-flight segmented transmissions: one
/// deadline per transmission, keyed by its SeqZero. One entry per queue
/// slot suffices.
#[derive(Clone, Debug)]
pub struct WatchdogTable {
    pub entries: Vec<(u64, SeqZero)>,
}

impl WatchdogTable {
    /// Bounded by the transmit queue's slot count.
    pub open spec fn wf(&self) -> bool {
        self.entries@.len() <= QUEUE_SIZE
    }

    pub fn new() -> (r: Self)
        ensures
            r.wf(),
            r.entries@.len() == 0,
    {
        WatchdogTable { entries: Vec::new() }
    }

    /// Arm (or re-arm) the deadline of a transmission: any prior entry
    /// with the same SeqZero is replaced; with every slot taken the
    /// deadline is dropped, as the queue also drops the transmission.
    pub fn arm(&mut self, deadline: u64, seq_zero: SeqZero)
        requires
            old(self).wf(),
        ensures
            final(self).wf(),
            watchdog_without(old(self).entries@, seq_zero.0).len() < QUEUE_SIZE
                ==> final(self).entries@ == watchdog_without(
                old(self).entries@,
                seq_zero.0,
            ).push((deadline, seq_zero)),
            watchdog_without(old(self).entries@, seq_zero.0).len() >= QUEUE_SIZE
                ==> final(self).entries@ == watchdog_without(old(self).entries@, seq_zero.0),
    {
        let ghost pre = self.entries@;
        let mut kept: Vec<(u64, SeqZero)> = Vec::new();
        proof {
            assert(kept@ + watchdog_without(self.entries@, seq_zero.0)
                =~= watchdog_without(pre, seq_zero.0));
        }
        while self.entries.len() > 0
            invariant
                kept@.len() + self.entries@.len() <= pre.len(),
                pre.len() <= QUEUE_SIZE,
                kept@ + watchdog_without(self.entries@, seq_zero.0) == watchdog_without(
                    pre,
                    seq_zero.0,
                ),
            decreases self.entries@.len(),
        {
            let ghost before = self.entries@;
            let entry = self.entries.remove(0);
            proof {
                assert(self.entries@ =~= before.drop_first());
            }
            if entry.1.0 != seq_zero.0 {
                kept.push(entry);
                proof {
                    assert(kept@ + watchdog_without(self.entries@, seq_zero.0)
                        =~= watchdog_without(pre, seq_zero.0));
                }
            } else {
                proof {
                    assert(kept@ + watchdog_without(self.entries@, seq_zero.0)
                        =~= watchdog_without(pre, seq_zero.0));
                }
            }
        }
        proof {
            assert(watchdog_without(Seq::<(u64, SeqZero)>::empty(), seq_zero.0)
                =~= Seq::<(u64, SeqZero)>::empty());
            assert(kept@ =~= watchdog_without(pre, seq_zero.0));
            lemma_watchdog_without_len(pre, seq_zero.0);
        }
        if kept.len() < QUEUE_SIZE {
            kept.push((deadline, seq_zero));
        }
        self.entries = kept;
    }

    /// Take every deadline that has expired by `now`, leaving the rest
    /// pending in order.
    pub fn expired(&mut self, now: u64) -> (r: Vec<SeqZero>)
        requires
            old(self).wf(),
        ensures
            final(self).wf(),
            r@ == watchdog_due(old(self).entries@, now),
            final(self).entries@ == watchdog_live(old(self).entries@, now),
    {
        let ghost pre = self.entries@;
        let mut due: Vec<SeqZero> = Vec::new();
        let mut kept: Vec<(u64, SeqZero)> = Vec::new();
        proof {
            assert(due@ + watchdog_due(self.entries@, now) =~= watchdog_due(pre, now));
            assert(kept@ + watchdog_live(self.entries@, now) =~= watchdog_live(pre, now));
        }
        while self.entries.len() > 0
            invariant
                due@.len() + kept@.len() + self.entries@.len() <= pre.len() + pre.len(),
                kept@.len() + self.entries@.len() <= pre.len(),
                pre.len() <= QUEUE_SIZE,
                due@ + watchdog_due(self.entries@, now) == watchdog_due(pre, now),
                kept@ + watchdog_live(self.entries@, now) == watchdog_live(pre, now),
            decreases self.entries@.len(),
        {
            let ghost before = self.entries@;
            let entry = self.entries.remove(0);
            proof {
                assert(self.entries@ =~= before.drop_first());
            }
            if entry.0 <= now {
                due.push(entry.1);
            } else {
                kept.push(entry);
            }
            proof {
                assert(due@ + watchdog_due(self.entries@, now) =~= watchdog_due(pre, now));
                assert(kept@ + watchdog_live(self.entries@, now)
                    =~= watchdog_live(pre, now));
            }
        }
        proof {
            assert(watchdog_due(Seq::<(u64, SeqZero)>::empty(), now)
                =~= Seq::<SeqZero>::empty());
            assert(watchdog_live(Seq::<(u64, SeqZero)>::empty(), now)
                =~= Seq::<(u64, SeqZero)>::empty());
            assert(due@ =~= watchdog_due(pre, now));
            assert(kept@ =~= watchdog_live(pre, now));
        }
        self.entries = kept;
        due
    }

    /// Drop the deadline of an acknowledged transmission.
    pub fn clear(&mut self, seq_zero: SeqZero)
        requires
            old(self).wf(),
        ensures
            final(self).wf(),
            final(self).entries@ == watchdog_without(old(self).entries@, seq_zero.0),
    {
        let ghost pre = self.entries@;
        let mut kept: Vec<(u64, SeqZero)> = Vec::new();
        proof {
            assert(kept@ + watchdog_without(self.entries@, seq_zero.0)
                =~= watchdog_without(pre, seq_zero.0));
        }
        while self.entries.len() > 0
            invariant
                kept@.len() + self.entries@.len() <= pre.len(),
                pre.len() <= QUEUE_SIZE,
                kept@ + watchdog_without(self.entries@, seq_zero.0) == watchdog_without(
                    pre,
                    seq_zero.0,
                ),
            decreases self.entries@.len(),
        {
            let ghost before = self.entries@;
            let entry = self.entries.remove(0);
            proof {
                assert(self.entries@ =~= before.drop_first());
            }
            if entry.1.0 != seq_zero.0 {
                kept.push(entry);
            }
            proof {
                assert(kept@ + watchdog_without(self.entries@, seq_zero.0)
                    =~= watchdog_without(pre, seq_zero.0));
            }
        }
        proof {
            assert(watchdog_without(Seq::<(u64, SeqZero)>::empty(), seq_zero.0)
                =~= Seq::<(u64, SeqZero)>::empty());
            assert(kept@ =~= watchdog_without(pre, seq_zero.0));
            lemma_watchdog_without_len(pre, seq_zero.0);
        }
        self.entries = kept;
    }
}

/// The watchdog deadline of a segmented entry: a 200 ms base plus 50 ms
/// per hop the PDU may travel.
pub fn watchdog_deadline(now: u64, ttl: Ttl) -> (r: u64)
    requires
        now <= 0xffff_ffff_ffff_0000u64,
    ensures
        r == now + 200 + 50 * (ttl.0 as u64),
{
    now + 200 + 50 * (ttl.0 as u64)
}

} // verus!

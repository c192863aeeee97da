//! Lower transport: segmentation of an upper-transport PDU into
//! fixed-size segments, reassembly of inbound segments, and the
//! block-ack bitmap that acknowledges them.

use vstd::prelude::*;
use crate::common::SeqZero;
use crate::error::{DriverError, InvalidBlock, ParseError};
use crate::mic::SzMic;

verus! {

/// Bytes carried per segment of a segmented access PDU.
pub const SEGMENT_SIZE_ACCESS: usize = 12;

/// Bytes carried per segment of a segmented control PDU.
pub const SEGMENT_SIZE_CONTROL: usize = 8;

/// The largest upper-transport access PDU: 379 bytes of payload plus an
/// 8-byte MIC at most.
pub const MAX_UPPER_PDU: usize = 387;

/// The successive chunks of at most `sz` bytes a payload splits into.
pub open spec fn segments_of(p: Seq<u8>, sz: nat) -> Seq<Seq<u8>>
    decreases p.len(),
{
    if sz == 0 {
        seq![]
    } else if p.len() == 0 {
        seq![]
    } else if p.len() <= sz {
        seq![p]
    } else {
        seq![p.subrange(0, sz as int)] + segments_of(p.subrange(sz as int, p.len() as int), sz)
    }
}

/// The concatenation of a sequence of chunks.
pub open spec fn concat_of(s: Seq<Seq<u8>>) -> Seq<u8>
    decreases s.len(),
{
    if s.len() == 0 {
        seq![]
    } else {
        s[0] + concat_of(s.drop_first())
    }
}

/// Concatenation distributes over appending one chunk.
pub proof fn lemma_concat_push(s: Seq<Seq<u8>>, x: Seq<u8>)
    ensures
        concat_of(s.push(x)) == concat_of(s) + x,
    decreases s.len(),
{
    let t = s.push(x);
    if s.len() == 0 {
        assert(t[0] == x);
        assert(t.drop_first() =~= Seq::<Seq<u8>>::empty());
        assert(concat_of(t.drop_first()) =~= Seq::<u8>::empty());
        assert(concat_of(t) == t[0] + concat_of(t.drop_first()));
        assert(concat_of(s) =~= Seq::<u8>::empty());
        assert(concat_of(t) =~= concat_of(s) + x);
    } else {
        assert(t[0] == s[0]);
        assert(t.drop_first() =~= s.drop_first().push(x));
        lemma_concat_push(s.drop_first(), x);
        assert(concat_of(t) == t[0] + concat_of(t.drop_first()));
        assert(concat_of(t.drop_first()) == concat_of(s.drop_first()) + x);
        assert(concat_of(s) == s[0] + concat_of(s.drop_first()));
        assert(concat_of(t) =~= concat_of(s) + x);
    }
}

/// Segmentation round-trip: reassembling the segments of any payload
/// yields the payload, for every positive segment size.
pub proof fn lemma_segment_round_trip(p: Seq<u8>, sz: nat)
    requires
        sz >= 1,
    ensures
        concat_of(segments_of(p, sz)) == p,
    decreases p.len(),
{
    if p.len() == 0 {
        assert(concat_of(segments_of(p, sz)) =~= p);
    } else if p.len() <= sz {
        assert(segments_of(p, sz) =~= seq![p]);
        assert(seq![p].drop_first() =~= Seq::<Seq<u8>>::empty());
        assert(concat_of(seq![p].drop_first()) =~= Seq::<u8>::empty());
        assert(concat_of(seq![p]) == seq![p][0] + concat_of(seq![p].drop_first()));
        assert(concat_of(seq![p]) =~= p);
    } else {
        let head = p.subrange(0, sz as int);
        let tail = p.subrange(sz as int, p.len() as int);
        lemma_segment_round_trip(tail, sz);
        assert((seq![head] + segments_of(tail, sz)).drop_first() =~= segments_of(tail, sz));
        assert((seq![head] + segments_of(tail, sz))[0] == head);
        assert(concat_of(segments_of(p, sz)) =~= head + concat_of(segments_of(tail, sz)));
        assert(head + tail =~= p);
    }
}

/// How many segments a payload needs: none when empty, else one per
/// started chunk.
pub proof fn lemma_segments_count(p: Seq<u8>, sz: nat)
    requires
        sz >= 1,
    ensures
        p.len() == 0 ==> segments_of(p, sz).len() == 0,
        p.len() > 0 ==> segments_of(p, sz).len() == (p.len() + sz - 1) / (sz as int),
    decreases p.len(),
{
    if p.len() == 0 {
    } else if p.len() <= sz {
        assert((p.len() + sz - 1) / (sz as int) == 1) by (nonlinear_arith)
            requires 1 <= p.len() <= sz;
    } else {
        let tail = p.subrange(sz as int, p.len() as int);
        lemma_segments_count(tail, sz);
        assert(tail.len() == p.len() - sz);
        assert((tail.len() + sz - 1) / (sz as int) + 1 == (p.len() + sz - 1) / (sz as int))
            by (nonlinear_arith)
            requires sz >= 1 && tail.len() == p.len() - sz && p.len() > sz;
    }
}

/// Every segment a payload splits into carries between one byte and
/// the segment size.
pub proof fn lemma_segments_sizes(p: Seq<u8>, sz: nat)
    requires
        sz >= 1,
    ensures
        forall|k: int| 0 <= k < segments_of(p, sz).len()
            ==> 1 <= (#[trigger] segments_of(p, sz)[k]).len() <= sz,
    decreases p.len(),
{
    if p.len() == 0 {
    } else if p.len() <= sz {
    } else {
        let tail = p.subrange(sz as int, p.len() as int);
        lemma_segments_sizes(tail, sz);
        assert forall|k: int| 0 <= k < segments_of(p, sz).len()
            implies 1 <= (#[trigger] segments_of(p, sz)[k]).len() <= sz by {
            if k > 0 {
                assert(segments_of(p, sz)[k] == segments_of(tail, sz)[k - 1]);
            }
        }
    }
}

/// The wire bytes of an unsegmented access lower-transport PDU, as a
/// function of its fields.
pub open spec fn unseg_access_bytes(akf_aid: Option<u8>, upper: Seq<u8>) -> Seq<u8> {
    seq![LowerPDU::akf_octet(false, akf_aid)] + upper
}

/// The wire bytes of one segment of a segmented access lower-transport
/// PDU, as a function of its fields.
pub open spec fn seg_access_bytes(
    akf_aid: Option<u8>,
    szmic: SzMic,
    seq_zero: u16,
    seg_o: u8,
    seg_n: u8,
    segment: Seq<u8>,
) -> Seq<u8> {
    seq![
        LowerPDU::akf_octet(true, akf_aid),
        ((if szmic is Bit64 {
            0x80u8
        } else {
            0x00u8
        }) | ((seq_zero >> 6) & 0x7f) as u8) as u8,
        (((seq_zero & 0x3f) << 2) as u8 | ((seg_o >> 3) & 0x03) as u8) as u8,
        (((seg_o & 0x07) << 5) as u8 | (seg_n & 0x1f) as u8) as u8,
    ] + segment
}

/// Split an upper-transport PDU into segments of at most `seg_size`
/// bytes, in order.
pub fn segment(payload: &[u8], seg_size: usize) -> (r: Vec<Vec<u8>>)
    requires
        1 <= seg_size,
    ensures
        r@.map_values(|v: Vec<u8>| v@) == segments_of(payload@, seg_size as nat),
{
    let n: usize = payload.len();
    let mut r: Vec<Vec<u8>> = Vec::new();
    let mut i: usize = 0;
    proof {
        assert(payload@.subrange(0, n as int) =~= payload@);
        assert(r@.map_values(|v: Vec<u8>| v@) =~= Seq::<Seq<u8>>::empty());
        assert(Seq::<Seq<u8>>::empty() + segments_of(payload@, seg_size as nat)
            =~= segments_of(payload@, seg_size as nat));
    }
    while i < n
        invariant
            1 <= seg_size,
            i <= n,
            n == payload@.len(),
            segments_of(payload@, seg_size as nat) == r@.map_values(|v: Vec<u8>| v@)
                + segments_of(payload@.subrange(i as int, n as int), seg_size as nat),
        decreases n - i,
    {
        let ghost remaining = payload@.subrange(i as int, n as int);
        let take: usize = if n - i < seg_size {
            n - i
        } else {
            seg_size
        };
        let mut chunk: Vec<u8> = Vec::new();
        let mut j: usize = 0;
        while j < take
            invariant
                i + take <= n,
                n == payload@.len(),
                j <= take,
                chunk@ == payload@.subrange(i as int, i + j as int),
            decreases take - j,
        {
            chunk.push(payload[i + j]);
            assert(chunk@ =~= payload@.subrange(i as int, i + (j + 1) as int));
            j = j + 1;
        }
        proof {
            let rm = r@.map_values(|v: Vec<u8>| v@);
            let rm2 = r@.push(chunk).map_values(|v: Vec<u8>| v@);
            assert(rm2 =~= rm.push(chunk@));
            if remaining.len() <= seg_size {
                assert(chunk@ =~= remaining);
                assert(segments_of(remaining, seg_size as nat) == seq![remaining]);
                assert(rm + segments_of(remaining, seg_size as nat) =~= rm2
                    + segments_of(payload@.subrange((i + take) as int, n as int), seg_size as nat));
            } else {
                assert(chunk@ =~= remaining.subrange(0, seg_size as int));
                assert(remaining.subrange(seg_size as int, remaining.len() as int)
                    =~= payload@.subrange((i + seg_size) as int, n as int));
                assert(segments_of(remaining, seg_size as nat)
                    == seq![remaining.subrange(0, seg_size as int)] + segments_of(
                        remaining.subrange(seg_size as int, remaining.len() as int),
                        seg_size as nat,
                    ));
                assert(rm + segments_of(remaining, seg_size as nat) =~= rm2
                    + segments_of(payload@.subrange((i + take) as int, n as int), seg_size as nat));
            }
        }
        r.push(chunk);
        i = i + take;
    }
    proof {
        assert(segments_of(payload@.subrange(n as int, n as int), seg_size as nat)
            =~= Seq::<Seq<u8>>::empty());
        assert(r@.map_values(|v: Vec<u8>| v@) + Seq::<Seq<u8>>::empty()
            =~= r@.map_values(|v: Vec<u8>| v@));
    }
    r
}

/// Concatenate received segments back into the upper-transport PDU.
pub fn reassemble(segments: &Vec<Vec<u8>>) -> (r: Vec<u8>)
    ensures
        r@ == concat_of(segments@.map_values(|v: Vec<u8>| v@)),
{
    let mut r: Vec<u8> = Vec::new();
    let mut i: usize = 0;
    proof {
        assert(segments@.subrange(0, 0).map_values(|v: Vec<u8>| v@)
            =~= Seq::<Seq<u8>>::empty());
    }
    while i < segments.len()
        invariant
            i <= segments@.len(),
            r@ == concat_of(segments@.subrange(0, i as int).map_values(|v: Vec<u8>| v@)),
        decreases segments@.len() - i,
    {
        crate::crypto::push_all(&mut r, segments[i].as_slice());
        proof {
            let prefix = segments@.subrange(0, i as int).map_values(|v: Vec<u8>| v@);
            assert(segments@.subrange(0, i + 1 as int).map_values(|v: Vec<u8>| v@)
                =~= prefix.push(segments@[i as int]@));
            lemma_concat_push(prefix, segments@[i as int]@);
        }
        i = i + 1;
    }
    proof {
        assert(segments@.subrange(0, segments@.len() as int) =~= segments@);
    }
    r
}

/// A block-ack bitmap for one segmented PDU, keyed by its SeqZero.
#[derive(Copy, Clone, Debug, PartialEq, Eq, Structural)]
pub struct BlockAck {
    pub seq_zero: SeqZero,
    pub bitmap: u32,
}

impl BlockAck {
    /// Whether segment `i` is acknowledged.
    pub open spec fn is_acked(&self, i: int) -> bool {
        0 <= i < 32 && self.bitmap >> (i as u32) & 1u32 == 1u32
    }

    pub fn new(seq_zero: SeqZero) -> (r: Self)
        ensures
            r.seq_zero == seq_zero,
            r.bitmap == 0,
    {
        Self { seq_zero, bitmap: 0 }
    }

    /// Acknowledge segment `i`; indices beyond the 32-segment space are
    /// invalid.
    pub fn ack(&mut self, i: u8) -> (r: Result<(), InvalidBlock>)
        ensures
            i < 32 ==> {
                &&& r is Ok
                &&& final(self).bitmap == old(self).bitmap | (1u32 << (i as u32))
                &&& final(self).seq_zero == old(self).seq_zero
            },
            i >= 32 ==> r is Err && *final(self) == *old(self),
    {
        if i < 32 {
            self.bitmap = self.bitmap | (1u32 << (i as u32));
            Ok(())
        } else {
            Err(InvalidBlock)
        }
    }

    /// Whether every segment 0 ..= seg_n is acknowledged.
    pub fn is_fully_acked(&self, seg_n: u8) -> (r: bool)
        requires
            seg_n < 32,
        ensures
            r == (forall|i: int| 0 <= i <= seg_n ==> self.is_acked(i)),
    {
        let bm: u32 = self.bitmap;
        let mut i: u8 = 0;
        let mut all: bool = true;
        while i <= seg_n
            invariant
                seg_n < 32,
                i <= seg_n + 1,
                bm == self.bitmap,
                all == (forall|j: int| 0 <= j < i ==> self.is_acked(j)),
            decreases seg_n + 1 - i,
        {
            if (bm >> (i as u32)) & 1 != 1 {
                assert(!self.is_acked(i as int));
                all = false;
            } else {
                assert(self.is_acked(i as int));
            }
            i = i + 1;
        }
        all
    }

    /// The acknowledged segment indices, in ascending order.
    pub fn acked_indices(&self) -> (r: Vec<u8>)
        ensures
            forall|k: int| 0 <= k < r@.len() ==> r@[k] < 32 && self.is_acked(r@[k] as int),
            forall|i: int| 0 <= i < 32 && self.is_acked(i)
                ==> exists|k: int| 0 <= k < r@.len() && r@[k] == i,
    {
        let mut r: Vec<u8> = Vec::new();
        let mut i: u8 = 0;
        while i < 32
            invariant
                i <= 32,
                forall|k: int| 0 <= k < r@.len() ==> r@[k] < i && self.is_acked(r@[k] as int),
                forall|j: int| 0 <= j < i && self.is_acked(j)
                    ==> exists|k: int| 0 <= k < r@.len() && r@[k] == j,
            decreases 32 - i,
        {
            let ghost pre = r@;
            let bm: u32 = self.bitmap;
            assert(bm == self.bitmap);
            if (bm >> (i as u32)) & 1 == 1 {
                r.push(i);
                assert(r@[r@.len() - 1] == i);
                assert(self.is_acked(i as int));
            } else {
                assert(!self.is_acked(i as int));
            }
            proof {
                assert forall|j: int| 0 <= j < i + 1 && self.is_acked(j)
                    implies exists|k: int| 0 <= k < r@.len() && r@[k] == j by {
                    if j < i {
                        let k = choose|k: int| 0 <= k < pre.len() && pre[k] == j;
                        assert(r@[k] == j);
                    } else {
                        assert(r@[r@.len() - 1] == j);
                    }
                }
            }
            i = i + 1;
        }
        r
    }
}

/// The acknowledgement state of one outbound segmented PDU.
#[derive(Copy, Clone, Debug, PartialEq, Eq, Structural)]
pub struct Acked {
    pub num_segments: u8,
    pub block_ack: BlockAck,
}

impl Acked {
    /// The segment count fits the 32-bit bitmap.
    pub open spec fn wf(&self) -> bool {
        1 <= self.num_segments <= 32
    }

    pub fn new(seq_zero: SeqZero, num_segments: u8) -> (r: Self)
        requires
            1 <= num_segments <= 32,
        ensures
            r.wf(),
            r.num_segments == num_segments,
            r.block_ack == BlockAck::new_spec(seq_zero),
    {
        Self { num_segments, block_ack: BlockAck { seq_zero, bitmap: 0 } }
    }

    /// Merge an inbound block-ack; an ack of a segment index at or past
    /// the segment count is invalid. Returns whether every segment is
    /// now acknowledged.
    pub fn ack(&mut self, block_ack: BlockAck) -> (r: Result<bool, InvalidBlock>)
        requires
            old(self).wf(),
        ensures
            final(self).wf(),
            final(self).num_segments == old(self).num_segments,
            ack_admissible(block_ack.bitmap, old(self).num_segments) ==> {
                &&& r is Ok
                &&& final(self).block_ack.bitmap == old(self).block_ack.bitmap | block_ack.bitmap
                &&& final(self).block_ack.seq_zero == old(self).block_ack.seq_zero
            },
            r matches Ok(full) ==> full == covers(
                final(self).block_ack.bitmap,
                old(self).num_segments,
            ),
            !ack_admissible(block_ack.bitmap, old(self).num_segments)
                ==> r is Err && *final(self) == *old(self),
    {
        let bm: u32 = block_ack.bitmap;
        let n: u8 = self.num_segments;
        let admissible: bool = if n == 32 {
            true
        } else {
            bm >> (n as u32) == 0
        };
        proof {
            assert(admissible == ack_admissible(bm, n));
        }
        if !admissible {
            return Err(InvalidBlock);
        }
        self.block_ack.bitmap = self.block_ack.bitmap | bm;
        let full = self.block_ack.is_fully_acked(self.num_segments - 1);
        proof {
            let count: u8 = self.num_segments;
            if full {
                assert forall|k: int| 0 <= k < count
                    implies #[trigger] (self.block_ack.bitmap >> (k as u32)) & 1u32 == 1u32 by {
                    assert(self.block_ack.is_acked(k));
                }
            } else {
                let w = choose|i: int| !(0 <= i <= count - 1 ==> self.block_ack.is_acked(i));
                assert(0 <= w < count && !self.block_ack.is_acked(w));
                assert((self.block_ack.bitmap >> (w as u32)) & 1u32 != 1u32);
                assert(!covers(self.block_ack.bitmap, count));
            }
            assert(full == covers(self.block_ack.bitmap, count));
        }
        Ok(full)
    }
}

/// Whether a bitmap acknowledges every segment below the segment
/// count.
pub open spec fn covers(bitmap: u32, num_segments: u8) -> bool {
    forall|k: int| 0 <= k < num_segments ==> #[trigger] (bitmap >> (k as u32)) & 1u32 == 1u32
}

/// Whether an inbound bitmap acknowledges only segments below the
/// segment count.
pub open spec fn ack_admissible(bitmap: u32, num_segments: u8) -> bool {
    if num_segments == 32 {
        true
    } else {
        bitmap >> (num_segments as u32) == 0
    }
}

impl BlockAck {
    /// The empty bitmap for a SeqZero, at the specification level.
    pub open spec fn new_spec(seq_zero: SeqZero) -> BlockAck {
        BlockAck { seq_zero, bitmap: 0 }
    }
}

/// Block-ack idempotence: merging the same inbound bitmap twice leaves
/// the same acknowledged set as merging it once.
pub proof fn lemma_block_ack_idempotent(prior: u32, inbound: u32)
    ensures
        (prior | inbound) | inbound == prior | inbound,
{
    assert((prior | inbound) | inbound == prior | inbound) by (bit_vector);
}

/// A lower-transport PDU as carried in a network frame's payload.
#[derive(Clone, Debug)]
pub enum LowerPDU {
    /// SEG=0, access: the AKF/AID octet and the whole upper PDU.
    UnsegmentedAccess { akf_aid: Option<u8>, upper: Vec<u8> },
    /// SEG=1, access: one segment of an upper PDU.
    SegmentedAccess {
        akf_aid: Option<u8>,
        szmic: SzMic,
        seq_zero: u16,
        seg_o: u8,
        seg_n: u8,
        segment: Vec<u8>,
    },
    /// A control PDU (never transport-encrypted); opcode 0 with a
    /// 6-byte body is the segment acknowledgement.
    UnsegmentedControl { opcode: u8, parameters: Vec<u8> },
}

impl LowerPDU {
    /// Range constraints of the packed fields.
    pub open spec fn wf(&self) -> bool {
        match *self {
            LowerPDU::UnsegmentedAccess { akf_aid, upper } => match akf_aid {
                Some(aid) => aid < 0x40,
                None => true,
            },
            LowerPDU::SegmentedAccess { akf_aid, szmic, seq_zero, seg_o, seg_n, segment } => {
                &&& match akf_aid {
                    Some(aid) => aid < 0x40,
                    None => true,
                }
                &&& seq_zero < 0x2000
                &&& seg_o < 32
                &&& seg_n < 32
                &&& seg_o <= seg_n
            },
            LowerPDU::UnsegmentedControl { opcode, parameters } => opcode < 0x80,
        }
    }

    /// The AKF/AID octet of an access PDU: the SEG bit, the AKF bit,
    /// and the 6-bit AID.
    pub open spec fn akf_octet(seg: bool, akf_aid: Option<u8>) -> u8 {
        if seg {
            (0x80u8 | (match akf_aid {
                Some(aid) => (0x40u8 | (aid & 0x3fu8)) as u8,
                None => 0x00u8,
            })) as u8
        } else {
            match akf_aid {
                Some(aid) => (0x40u8 | (aid & 0x3fu8)) as u8,
                None => 0x00u8,
            }
        }
    }

    /// The wire bytes of a lower-transport PDU.
    pub open spec fn emitted(&self) -> Seq<u8> {
        match *self {
            LowerPDU::UnsegmentedAccess { akf_aid, upper } => seq![
                Self::akf_octet(false, akf_aid),
            ] + upper@,
            LowerPDU::SegmentedAccess { akf_aid, szmic, seq_zero, seg_o, seg_n, segment } => seq![
                Self::akf_octet(true, akf_aid),
                ((if szmic is Bit64 {
                    0x80u8
                } else {
                    0x00u8
                }) | ((seq_zero >> 6) & 0x7f) as u8) as u8,
                (((seq_zero & 0x3f) << 2) as u8 | ((seg_o >> 3) & 0x03) as u8) as u8,
                (((seg_o & 0x07) << 5) as u8 | (seg_n & 0x1f) as u8) as u8,
            ] + segment@,
            LowerPDU::UnsegmentedControl { opcode, parameters } => seq![
                (opcode & 0x7fu8) as u8,
            ] + parameters@,
        }
    }

    /// Emit the PDU's wire bytes.
    pub fn emit(&self, xmit: &mut Vec<u8>)
        requires
            self.wf(),
        ensures
            final(xmit)@ == old(xmit)@ + self.emitted(),
    {
        match self {
            LowerPDU::UnsegmentedAccess { akf_aid, upper } => {
                let octet: u8 = match akf_aid {
                    Some(aid) => 0x40u8 | (*aid & 0x3f),
                    None => 0x00,
                };
                xmit.push(octet);
                crate::crypto::push_all(xmit, upper.as_slice());
                assert(xmit@ =~= old(xmit)@ + self.emitted());
            }
            LowerPDU::SegmentedAccess { akf_aid, szmic, seq_zero, seg_o, seg_n, segment } => {
                let inner: u8 = match akf_aid {
                    Some(aid) => 0x40u8 | (*aid & 0x3f),
                    None => 0x00,
                };
                let octet: u8 = 0x80u8 | inner;
                let sz: u16 = *seq_zero;
                let so: u8 = *seg_o;
                let sn: u8 = *seg_n;
                proof {
                    assert((sz >> 6) & 0x7f <= 0x7f) by (bit_vector);
                    assert((sz & 0x3f) << 2 <= 0xff) by (bit_vector);
                    assert((so & 0x07) << 5 <= 0xe0) by (bit_vector);
                }
                let szmic_bit: u8 = match szmic {
                    SzMic::Bit64 => 0x80,
                    SzMic::Bit32 => 0x00,
                };
                let b1: u8 = szmic_bit | ((sz >> 6) & 0x7f) as u8;
                let b2: u8 = ((sz & 0x3f) << 2) as u8 | ((so >> 3) & 0x03);
                let b3: u8 = ((so & 0x07) << 5) | (sn & 0x1f);
                xmit.push(octet);
                xmit.push(b1);
                xmit.push(b2);
                xmit.push(b3);
                crate::crypto::push_all(xmit, segment.as_slice());
                assert(xmit@ =~= old(xmit)@ + self.emitted());
            }
            LowerPDU::UnsegmentedControl { opcode, parameters } => {
                xmit.push(*opcode & 0x7f);
                crate::crypto::push_all(xmit, parameters.as_slice());
                assert(xmit@ =~= old(xmit)@ + self.emitted());
            }
        }
    }

    /// Parse the lower-transport bytes of an access frame (CTL = 0).
    /// The returned PDU reproduces the input: emitting it yields the
    /// same bytes. A clear AKF bit demands a zero AID, and parsing
    /// succeeds exactly on non-empty input whose AID obeys that, with
    /// a whole header and SegO at most SegN when the SEG bit is set —
    /// in particular on everything `emit` produces.
    pub fn parse_access(data: &[u8]) -> (r: Result<LowerPDU, ParseError>)
        ensures
            r matches Ok(pdu) ==> pdu.wf() && pdu.emitted() == data@
                && !(pdu is UnsegmentedControl),
            r is Ok <==> ({
                &&& data@.len() >= 1
                &&& ((data@[0] >> 6) & 1 == 1 || data@[0] & 0x3f == 0)
                &&& (data@[0] >> 7 == 1 ==> data@.len() >= 4 && ((data@[2] & 0x03) << 3 | (
                data@[3] >> 5)) <= (data@[3] & 0x1f))
            }),
    {
        if data.len() < 1 {
            return Err(ParseError::InvalidLength);
        }
        let octet: u8 = data[0];
        let seg: bool = octet >> 7 == 1;
        let akf: bool = (octet >> 6) & 1 == 1;
        let aid: u8 = octet & 0x3f;
        if !akf && aid != 0 {
            return Err(ParseError::InvalidPDUFormat);
        }
        proof {
            assert(octet & 0x3f < 0x40) by (bit_vector);
        }
        let akf_aid: Option<u8> = if akf {
            Some(aid)
        } else {
            None
        };
        if !seg {
            proof {
                if akf {
                    assert(octet == (0x40u8 | ((octet & 0x3fu8) & 0x3fu8))) by (bit_vector)
                        requires octet >> 7 != 1 && (octet >> 6) & 1 == 1;
                } else {
                    assert(octet == 0) by (bit_vector)
                        requires octet >> 7 != 1 && (octet >> 6) & 1 != 1 && octet & 0x3f
                            == 0;
                }
            }
            let upper: Vec<u8> = crate::upper::copy_range(data, 1, data.len());
            let pdu = LowerPDU::UnsegmentedAccess { akf_aid, upper };
            proof {
                assert(pdu.emitted() =~= data@);
            }
            Ok(pdu)
        } else {
            if data.len() < 4 {
                return Err(ParseError::InvalidLength);
            }
            let b1: u8 = data[1];
            let b2: u8 = data[2];
            let b3: u8 = data[3];
            let szmic: SzMic = if b1 >> 7 == 1 {
                SzMic::Bit64
            } else {
                SzMic::Bit32
            };
            let seq_zero: u16 = ((b1 & 0x7f) as u16) << 6 | (b2 >> 2) as u16;
            let seg_o: u8 = (b2 & 0x03) << 3 | (b3 >> 5);
            let seg_n: u8 = b3 & 0x1f;
            if seg_o > seg_n {
                return Err(ParseError::InvalidValue);
            }
            let segment: Vec<u8> = crate::upper::copy_range(data, 4, data.len());
            let pdu = LowerPDU::SegmentedAccess { akf_aid, szmic, seq_zero, seg_o, seg_n,
                segment };
            proof {
                if akf {
                    assert(octet == (0x80u8 | (0x40u8 | ((octet & 0x3fu8) & 0x3fu8))))
                        by (bit_vector)
                        requires octet >> 7 == 1 && (octet >> 6) & 1 == 1;
                } else {
                    assert(octet == (0x80u8 | 0x00u8)) by (bit_vector)
                        requires octet >> 7 == 1 && (octet >> 6) & 1 != 1 && octet & 0x3f
                            == 0;
                }
                let sz: u16 = seq_zero;
                let so: u8 = seg_o;
                let sn: u8 = seg_n;
                assert(sz < 0x2000 && so < 32 && sn < 32) by (bit_vector)
                    requires sz == ((b1 & 0x7f) as u16) << 6 | (b2 >> 2) as u16 && so == (b2
                        & 0x03) << 3 | (b3 >> 5) && sn == b3 & 0x1f;
                assert(b1 >> 7 == 1 ==> b1 == (0x80u8 | ((sz >> 6) & 0x7f) as u8) as u8)
                    by (bit_vector)
                    requires sz == ((b1 & 0x7f) as u16) << 6 | (b2 >> 2) as u16;
                assert(b1 >> 7 != 1 ==> b1 == (0x00u8 | ((sz >> 6) & 0x7f) as u8) as u8)
                    by (bit_vector)
                    requires sz == ((b1 & 0x7f) as u16) << 6 | (b2 >> 2) as u16;
                assert(b2 == (((sz & 0x3f) << 2) as u8 | ((so >> 3) & 0x03) as u8) as u8)
                    by (bit_vector)
                    requires sz == ((b1 & 0x7f) as u16) << 6 | (b2 >> 2) as u16 && so == (b2
                        & 0x03) << 3 | (b3 >> 5);
                assert(b3 == ((((so & 0x07) << 5)) as u8 | (sn & 0x1f) as u8) as u8)
                    by (bit_vector)
                    requires so == (b2 & 0x03) << 3 | (b3 >> 5) && sn == b3 & 0x1f;
                assert(pdu.emitted() =~= data@);
            }
            Ok(pdu)
        }
    }
}

/// The wire parameters of a segment-acknowledgement control PDU
/// (opcode 0): a clear OBO bit, the 13-bit SeqZero left-aligned over
/// two bytes, then the 32-bit bitmap, big-endian.
pub fn segment_ack_parameters(block_ack: BlockAck) -> (r: Vec<u8>)
    requires
        block_ack.seq_zero.0 < 0x2000,
    ensures
        r@ == seq![
            ((block_ack.seq_zero.0 >> 6) & 0x7f) as u8,
            ((block_ack.seq_zero.0 & 0x3f) << 2) as u8,
            ((block_ack.bitmap >> 24) & 0xff) as u8,
            ((block_ack.bitmap >> 16) & 0xff) as u8,
            ((block_ack.bitmap >> 8) & 0xff) as u8,
            (block_ack.bitmap & 0xff) as u8,
        ],
{
    let sz: u16 = block_ack.seq_zero.0;
    let bm: u32 = block_ack.bitmap;
    proof {
        assert((sz & 0x3f) << 2 <= 0xff) by (bit_vector);
    }
    let mut r: Vec<u8> = Vec::new();
    r.push(((sz >> 6) & 0x7f) as u8);
    r.push(((sz & 0x3f) << 2) as u8);
    r.push(((bm >> 24) & 0xff) as u8);
    r.push(((bm >> 16) & 0xff) as u8);
    r.push(((bm >> 8) & 0xff) as u8);
    r.push((bm & 0xff) as u8);
    proof {
        assert(r@ =~= seq![
            ((sz >> 6) & 0x7f) as u8,
            ((sz & 0x3f) << 2) as u8,
            ((bm >> 24) & 0xff) as u8,
            ((bm >> 16) & 0xff) as u8,
            ((bm >> 8) & 0xff) as u8,
            (bm & 0xff) as u8,
        ]);
    }
    r
}

/// The whole transport payload of a segment-acknowledgement control
/// PDU: the opcode octet (zero) followed by its parameters.
pub fn segment_ack_transport(block_ack: BlockAck) -> (r: Vec<u8>)
    requires
        block_ack.seq_zero.0 < 0x2000,
    ensures
        r@ == seq![0u8] + seq![
            ((block_ack.seq_zero.0 >> 6) & 0x7f) as u8,
            ((block_ack.seq_zero.0 & 0x3f) << 2) as u8,
            ((block_ack.bitmap >> 24) & 0xff) as u8,
            ((block_ack.bitmap >> 16) & 0xff) as u8,
            ((block_ack.bitmap >> 8) & 0xff) as u8,
            (block_ack.bitmap & 0xff) as u8,
        ],
{
    let mut r: Vec<u8> = Vec::new();
    r.push(0x00);
    let params: Vec<u8> = segment_ack_parameters(block_ack);
    crate::crypto::push_all(&mut r, params.as_slice());
    proof {
        assert(r@ =~= seq![0u8] + params@);
    }
    r
}

/// Parse a segment-acknowledgement control PDU's parameters back into
/// the block-ack they carry: the inverse of `segment_ack_parameters`.
pub fn parse_segment_ack(parameters: &[u8]) -> (r: Result<BlockAck, ParseError>)
    ensures
        parameters@.len() == 6 ==> (r matches Ok(ba) && ({
            let sz = (((parameters@[0] & 0x7f) as u16) << 6 | (parameters@[1] >> 2) as u16)
                as u16;
            let bm = ((parameters@[2] as u32) << 24 | (parameters@[3] as u32) << 16 | (
            parameters@[4] as u32) << 8 | (parameters@[5] as u32)) as u32;
            &&& ba.seq_zero.0 == sz
            &&& ba.seq_zero.0 < 0x2000
            &&& ba.bitmap == bm
        })),
        parameters@.len() != 6 ==> r == Err::<BlockAck, ParseError>(ParseError::InvalidLength),
{
    if parameters.len() != 6 {
        return Err(ParseError::InvalidLength);
    }
    let b0: u8 = parameters[0];
    let b1: u8 = parameters[1];
    let seq_zero: u16 = ((b0 & 0x7f) as u16) << 6 | (b1 >> 2) as u16;
    let bitmap: u32 = (parameters[2] as u32) << 24 | (parameters[3] as u32) << 16
        | (parameters[4] as u32) << 8 | (parameters[5] as u32);
    proof {
        let sz: u16 = seq_zero;
        assert(sz < 0x2000) by (bit_vector)
            requires sz == ((b0 & 0x7f) as u16) << 6 | (b1 >> 2) as u16;
    }
    let ba = BlockAck { seq_zero: SeqZero(seq_zero), bitmap };
    Ok(ba)
}

/// How many reassembly contexts may run concurrently.
pub const REASSEMBLY_CONTEXTS: usize = 3;

/// A block-ack for a context is emitted at most this often, except on
/// completion.
pub const ACK_SUPPRESSION_MS: u64 = 150;

/// A context with no new segment for this long is dropped silently.
pub const INCOMPLETE_TIMEOUT_MS: u64 = 10000;

/// One in-progress reassembly, keyed by source and SeqZero.
#[derive(Clone, Debug)]
pub struct ReassemblyContext {
    pub src: u16,
    pub seq_zero: u16,
    pub szmic: SzMic,
    pub seg_n: u8,
    pub segments: Vec<Option<Vec<u8>>>,
    pub block_ack: BlockAck,
    pub created_at: u64,
    pub last_segment_at: u64,
    pub last_ack_at: u64,
}

impl ReassemblyContext {
    /// One slot per expected segment, and the running bitmap marks
    /// exactly the slots already filled.
    pub open spec fn wf(&self) -> bool {
        &&& self.seg_n < 32
        &&& self.segments@.len() == self.seg_n + 1
        &&& self.block_ack.seq_zero.0 == self.seq_zero
        &&& forall|i: int| 0 <= i <= self.seg_n
            ==> (self.block_ack.is_acked(i) <==> (#[trigger] self.segments@[i]) is Some)
    }
}

/// Whether a context is keyed by this source and SeqZero.
pub open spec fn ctx_matches(c: ReassemblyContext, src: u16, seq_zero: u16) -> bool {
    c.src == src && c.seq_zero == seq_zero
}

/// The in-order concatenation of a complete segment table.
pub open spec fn assembled(segments: Seq<Option<Vec<u8>>>) -> Seq<u8> {
    concat_of(Seq::new(segments.len(), |i: int| segments[i]->Some_0@))
}

/// Whether a context has seen no new segment for the incomplete
/// timeout.
pub open spec fn context_idle(c: ReassemblyContext, now: u64) -> bool {
    c.last_segment_at + INCOMPLETE_TIMEOUT_MS <= now
}

/// The contexts that survive an expiry pass, in order.
pub open spec fn live_contexts(s: Seq<ReassemblyContext>, now: u64) -> Seq<ReassemblyContext>
    decreases s.len(),
{
    if s.len() == 0 {
        Seq::empty()
    } else {
        (if !context_idle(s[0], now) {
            seq![s[0]]
        } else {
            Seq::empty()
        }) + live_contexts(s.drop_first(), now)
    }
}

/// The bounded reassembly table: the contexts currently in progress.
#[derive(Clone, Debug)]
pub struct Reassembly {
    pub contexts: Vec<ReassemblyContext>,
}

impl Reassembly {
    /// A bounded number of contexts, each well-formed.
    pub open spec fn wf(&self) -> bool {
        &&& self.contexts@.len() <= REASSEMBLY_CONTEXTS
        &&& forall|i: int| 0 <= i < self.contexts@.len()
            ==> (#[trigger] self.contexts@[i]).wf()
    }

    pub fn new() -> (r: Self)
        ensures
            r.wf(),
            r.contexts@.len() == 0,
    {
        Reassembly { contexts: Vec::new() }
    }

    /// The first context of (src, seq_zero), if one is in progress.
    fn find(&self, src: u16, seq_zero: u16) -> (r: Option<usize>)
        requires
            self.wf(),
        ensures
            r matches Some(i) ==> i < self.contexts@.len()
                && ctx_matches(self.contexts@[i as int], src, seq_zero)
                && forall|j: int| 0 <= j < i
                    ==> !ctx_matches(#[trigger] self.contexts@[j], src, seq_zero),
            r is None ==> forall|i: int| 0 <= i < self.contexts@.len()
                ==> !ctx_matches(#[trigger] self.contexts@[i], src, seq_zero),
    {
        let mut i: usize = 0;
        while i < self.contexts.len()
            invariant
                self.wf(),
                i <= self.contexts@.len(),
                forall|j: int| 0 <= j < i
                    ==> !ctx_matches(#[trigger] self.contexts@[j], src, seq_zero),
            decreases self.contexts@.len() - i,
        {
            if self.contexts[i].src == src && self.contexts[i].seq_zero == seq_zero {
                return Some(i);
            }
            i = i + 1;
        }
        None
    }

    /// Drop the oldest context to make room: the bounded table evicts
    /// the least recently started reassembly, incomplete.
    fn evict_oldest(&mut self)
        requires
            old(self).wf(),
            old(self).contexts@.len() > 0,
        ensures
            final(self).wf(),
            final(self).contexts@.len() == old(self).contexts@.len() - 1,
    {
        let mut oldest: usize = 0;
        let mut i: usize = 1;
        while i < self.contexts.len()
            invariant
                self.wf(),
                *self == *old(self),
                self.contexts@.len() > 0,
                oldest < self.contexts@.len(),
                i <= self.contexts@.len(),
            decreases self.contexts@.len() - i,
        {
            if self.contexts[i].created_at < self.contexts[oldest].created_at {
                oldest = i;
            }
            i = i + 1;
        }
        let _ = self.contexts.remove(oldest);
    }

    /// Take one inbound segment. A fresh context is opened for an
    /// unknown (src, SeqZero), evicting the oldest when the table is
    /// full; the segment fills its slot and sets its bitmap bit, and
    /// when the bitmap covers every segment the in-order concatenation
    /// of the stored segments comes back and the context is discarded.
    /// A segment whose SegN disagrees with its context's is invalid.
    /// The returned block-ack should be transmitted when the flag says
    /// so: on completion, and otherwise at most once per suppression
    /// period.
    pub fn on_segment(
        &mut self,
        src: u16,
        seq_zero: u16,
        szmic: SzMic,
        seg_o: u8,
        seg_n: u8,
        segment: Vec<u8>,
        now: u64,
    ) -> (r: Result<(Option<Vec<u8>>, BlockAck, bool), DriverError>)
        requires
            old(self).wf(),
            seg_o <= seg_n,
            seg_n < 32,
            now <= 0xffff_ffff_ffff_0000u64,
        ensures
            final(self).wf(),
            r matches Ok((done, ba, ack_due)) ==> ({
                &&& ba.seq_zero.0 == seq_zero
                &&& (done is Some ==> forall|i: int| 0 <= i <= seg_n ==> ba.is_acked(i))
                &&& (done is Some ==> ack_due)
            }),
            (forall|i: int| 0 <= i < old(self).contexts@.len()
                ==> !ctx_matches(#[trigger] old(self).contexts@[i], src, seq_zero)) ==> ({
                &&& r is Ok
                &&& r->Ok_0.1.bitmap == (1u32 << (seg_o as u32))
                &&& (r->Ok_0.0 is Some <==> covers(
                    (1u32 << (seg_o as u32)),
                    (seg_n + 1) as u8,
                ))
                &&& r->Ok_0.2
                &&& (r->Ok_0.0 matches Some(p) ==> p@ == assembled(Seq::new(
                    seg_n as nat + 1,
                    |i: int| None::<Vec<u8>>,
                ).update(seg_o as int, Some(segment))))
            }),
            (exists|i: int| 0 <= i < old(self).contexts@.len()
                && ctx_matches(#[trigger] old(self).contexts@[i], src, seq_zero))
                ==> exists|i: int| ({
                let c = old(self).contexts@[i];
                let updated = if c.segments@[seg_o as int] is Some {
                    c.segments@
                } else {
                    c.segments@.update(seg_o as int, Some(segment))
                };
                let bm = (c.block_ack.bitmap | (1u32 << (seg_o as u32))) as u32;
                &&& 0 <= i < old(self).contexts@.len()
                &&& ctx_matches(#[trigger] old(self).contexts@[i], src, seq_zero)
                &&& forall|j: int| 0 <= j < i
                    ==> !ctx_matches(old(self).contexts@[j], src, seq_zero)
                &&& (c.seg_n != seg_n ==> r == Err::<(Option<Vec<u8>>, BlockAck, bool),
                    DriverError>(DriverError::InvalidPDU))
                &&& (c.seg_n == seg_n ==> ({
                    &&& r is Ok
                    &&& r->Ok_0.1.bitmap == bm
                    &&& (r->Ok_0.0 is Some <==> covers(bm, (seg_n + 1) as u8))
                    &&& (r->Ok_0.0 is None ==> r->Ok_0.2 == (c.last_ack_at == 0
                        || c.last_ack_at + ACK_SUPPRESSION_MS <= now))
                    &&& (r->Ok_0.0 matches Some(p) ==> p@ == assembled(updated))
                }))
            }),
    {
        let ghost no_match = forall|i: int| 0 <= i < old(self).contexts@.len()
            ==> !ctx_matches(#[trigger] old(self).contexts@[i], src, seq_zero);
        let ghost mut mi: int = 0;
        let mut ctx: ReassemblyContext = match self.find(src, seq_zero) {
            Some(i) => {
                proof {
                    mi = i as int;
                }
                self.contexts.remove(i)
            }
            None => {
                if self.contexts.len() >= REASSEMBLY_CONTEXTS {
                    self.evict_oldest();
                }
                let mut segments: Vec<Option<Vec<u8>>> = Vec::new();
                let mut k: usize = 0;
                while k < seg_n as usize + 1
                    invariant
                        k <= seg_n + 1,
                        segments@.len() == k,
                        forall|j: int| 0 <= j < k ==> segments@[j] is None,
                    decreases seg_n + 1 - k,
                {
                    segments.push(None);
                    k = k + 1;
                }
                let fresh = ReassemblyContext {
                    src,
                    seq_zero,
                    szmic,
                    seg_n,
                    segments,
                    block_ack: BlockAck::new(SeqZero(seq_zero)),
                    created_at: now,
                    last_segment_at: now,
                    last_ack_at: 0,
                };
                proof {
                    assert forall|i: int| 0 <= i <= fresh.seg_n
                        implies !fresh.block_ack.is_acked(i) by {
                        let iu: u32 = i as u32;
                        assert(0u32 >> iu & 1u32 != 1u32) by (bit_vector);
                    }
                    assert(fresh.wf());
                    assert(fresh.segments@ =~= Seq::new(
                        seg_n as nat + 1,
                        |i: int| None::<Vec<u8>>,
                    ));
                }
                fresh
            }
        };
        let ghost pre_ctx = ctx;
        proof {
            assert(ctx.wf());
            if !no_match {
                assert(ctx == old(self).contexts@[mi]);
            }
        }
        if ctx.seg_n != seg_n {
            // conflicting segment counts: the segment is invalid and
            // the corrupt context is dropped
            proof {
                assert(!no_match);
            }
            return Err(DriverError::InvalidPDU);
        }
        let already: bool = match &ctx.segments[seg_o as usize] {
            Some(_) => true,
            None => false,
        };
        if !already {
            ctx.segments.set(seg_o as usize, Some(segment));
            let _ = ctx.block_ack.ack(seg_o);
            proof {
                assert forall|i: int| 0 <= i <= ctx.seg_n
                    implies (ctx.block_ack.is_acked(i) <==> (#[trigger] ctx.segments@[i])
                        is Some) by {
                    let bm0: u32 = pre_ctx.block_ack.bitmap;
                    let so: u8 = seg_o;
                    let iu: u32 = i as u32;
                    if i == seg_o {
                        assert((bm0 | (1u32 << (so as u32))) >> iu & 1u32 == 1u32)
                            by (bit_vector)
                            requires iu == so as u32 && iu < 32;
                    } else {
                        assert((bm0 | (1u32 << (so as u32))) >> iu & 1u32 == bm0 >> iu
                            & 1u32) by (bit_vector)
                            requires iu != so as u32 && iu < 32 && so < 32;
                    }
                }
            }
        } else {
            proof {
                let bm0: u32 = pre_ctx.block_ack.bitmap;
                let so: u8 = seg_o;
                assert(pre_ctx.block_ack.is_acked(seg_o as int));
                assert((bm0 >> (so as u32)) & 1u32 == 1u32 ==> (bm0 | (1u32 << (so as u32)))
                    == bm0) by (bit_vector);
            }
        }
        ctx.last_segment_at = now;
        proof {
            assert(ctx.wf());
            assert(ctx.block_ack.bitmap == (pre_ctx.block_ack.bitmap | (1u32 << (
            seg_o as u32))) as u32);
            assert(ctx.segments@ == (if pre_ctx.segments@[seg_o as int] is Some {
                pre_ctx.segments@
            } else {
                pre_ctx.segments@.update(seg_o as int, Some(segment))
            }));
            if no_match {
                let so: u8 = seg_o;
                assert((0u32 | (1u32 << (so as u32))) == (1u32 << (so as u32)))
                    by (bit_vector);
                assert(ctx.block_ack.bitmap == (1u32 << (seg_o as u32)));
                assert(ctx.segments@ == Seq::new(
                    seg_n as nat + 1,
                    |i: int| None::<Vec<u8>>,
                ).update(seg_o as int, Some(segment)));
            }
        }
        let complete: bool = ctx.block_ack.is_fully_acked(ctx.seg_n);
        proof {
            let bm: u32 = ctx.block_ack.bitmap;
            let count: u8 = (seg_n + 1) as u8;
            if complete {
                assert forall|k: int| 0 <= k < count
                    implies #[trigger] (bm >> (k as u32)) & 1u32 == 1u32 by {
                    assert(ctx.block_ack.is_acked(k));
                }
            } else {
                let w = choose|i: int| !(0 <= i <= seg_n ==> ctx.block_ack.is_acked(i));
                assert(0 <= w < count && !ctx.block_ack.is_acked(w));
                assert((bm >> (w as u32)) & 1u32 != 1u32);
                assert(!covers(bm, count));
            }
            assert(complete == covers(bm, count));
        }
        let ba: BlockAck = ctx.block_ack;
        if complete {
            let mut parts: Vec<Vec<u8>> = Vec::new();
            let mut k: usize = 0;
            let total: usize = ctx.seg_n as usize + 1;
            while k < total
                invariant
                    ctx.wf(),
                    total == ctx.seg_n + 1,
                    k <= total,
                    parts@.len() == k,
                    forall|j: int| 0 <= j < k
                        ==> #[trigger] parts@[j]@ == ctx.segments@[j]->Some_0@,
                    forall|i: int| 0 <= i <= ctx.seg_n ==> ctx.block_ack.is_acked(i),
                decreases total - k,
            {
                match &ctx.segments[k] {
                    Some(part) => {
                        let mut copy: Vec<u8> = Vec::new();
                        crate::crypto::push_all(&mut copy, part.as_slice());
                        parts.push(copy);
                    }
                    None => {
                        proof {
                            assert(ctx.block_ack.is_acked(k as int));
                            assert(false);
                        }
                    }
                }
                k = k + 1;
            }
            let payload: Vec<u8> = reassemble(&parts);
            proof {
                assert(parts@.map_values(|v: Vec<u8>| v@) =~= Seq::new(
                    ctx.segments@.len(),
                    |i: int| ctx.segments@[i]->Some_0@,
                ));
                assert(payload@ == assembled(ctx.segments@));
            }
            Ok((Some(payload), ba, true))
        } else {
            let ack_due: bool = ctx.last_ack_at == 0 || (now >= ctx.last_ack_at && now
                - ctx.last_ack_at >= ACK_SUPPRESSION_MS);
            if ack_due {
                ctx.last_ack_at = now;
            }
            self.contexts.push(ctx);
            proof {
                assert(self.wf());
            }
            Ok((None, ba, ack_due))
        }
    }

    /// Drop every context idle past the incomplete timeout, silently;
    /// the others are kept unchanged, in order.
    pub fn expire(&mut self, now: u64)
        requires
            old(self).wf(),
        ensures
            final(self).wf(),
            final(self).contexts@ == live_contexts(old(self).contexts@, now),
    {
        let mut kept: Vec<ReassemblyContext> = Vec::new();
        let ghost pre = *self;
        proof {
            assert(kept@ + live_contexts(self.contexts@, now)
                =~= live_contexts(pre.contexts@, now));
        }
        while self.contexts.len() > 0
            invariant
                self.wf(),
                pre.wf(),
                kept@.len() + self.contexts@.len() <= pre.contexts@.len(),
                forall|i: int| 0 <= i < kept@.len() ==> (#[trigger] kept@[i]).wf(),
                kept@ + live_contexts(self.contexts@, now)
                    == live_contexts(pre.contexts@, now),
            decreases self.contexts@.len(),
        {
            let ghost before = self.contexts@;
            let ctx = self.contexts.remove(0);
            proof {
                assert(self.contexts@ =~= before.drop_first());
            }
            let idle: bool = now >= ctx.last_segment_at && now - ctx.last_segment_at
                >= INCOMPLETE_TIMEOUT_MS;
            proof {
                assert(idle == context_idle(ctx, now));
            }
            if !idle {
                kept.push(ctx);
                proof {
                    assert(kept@ + live_contexts(self.contexts@, now)
                        =~= live_contexts(pre.contexts@, now));
                }
            } else {
                proof {
                    assert(kept@ + live_contexts(self.contexts@, now)
                        =~= live_contexts(pre.contexts@, now));
                }
            }
        }
        self.contexts = kept;
        proof {
            assert(live_contexts(Seq::<ReassemblyContext>::empty(), now)
                =~= Seq::<ReassemblyContext>::empty());
            assert(self.contexts@ =~= live_contexts(pre.contexts@, now));
            lemma_live_contexts_len(pre.contexts@, now);
            assert(self.wf());
        }
    }
}

/// An expiry pass never grows the table.
proof fn lemma_live_contexts_len(s: Seq<ReassemblyContext>, now: u64)
    ensures
        live_contexts(s, now).len() <= s.len(),
    decreases s.len(),
{
    if s.len() > 0 {
        lemma_live_contexts_len(s.drop_first(), now);
    }
}

} // verus!

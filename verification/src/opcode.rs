//! Access-layer opcodes: one byte for most SIG messages, two bytes for
//! the extended SIG range, three for vendor opcodes.

use vstd::prelude::*;
use crate::error::{InsufficientBuffer, ParseError};

verus! {

/// A variable-length access opcode.
#[derive(Copy, Clone, Debug, PartialEq, Eq, Structural, Hash)]
pub enum Opcode {
    OneOctet(u8),
    TwoOctet(u8, u8),
    ThreeOctet(u8, u8, u8),
}

impl Opcode {
    /// The encoding ranges: a one-byte opcode has its top bit clear and
    /// is not 0x7f; a two-byte opcode starts with bits 10; a three-byte
    /// (vendor) opcode starts with bits 11.
    pub open spec fn valid(&self) -> bool {
        match *self {
            Opcode::OneOctet(a) => a & 0b10000000 == 0 && a != 0x7f,
            Opcode::TwoOctet(a, b) => a & 0b11000000 == 0b10000000,
            Opcode::ThreeOctet(a, b, c) => a & 0b11000000 == 0b11000000,
        }
    }

    /// The bytes a valid opcode emits.
    pub open spec fn encoded(&self) -> Seq<u8> {
        match *self {
            Opcode::OneOctet(a) => seq![a],
            Opcode::TwoOctet(a, b) => seq![a, b],
            Opcode::ThreeOctet(a, b, c) => seq![a, b, c],
        }
    }

    /// What a byte string starting with an opcode decodes to, and how
    /// many bytes the opcode spans.
    pub open spec fn decoded(data: Seq<u8>) -> Option<(Opcode, int)> {
        if data.len() >= 1 && data[0] & 0b10000000 == 0 && data[0] != 0x7f {
            Some((Opcode::OneOctet(data[0]), 1))
        } else if data.len() >= 2 && data[0] & 0b11000000 == 0b10000000 {
            Some((Opcode::TwoOctet(data[0], data[1]), 2))
        } else if data.len() >= 3 && data[0] & 0b11000000 == 0b11000000 {
            Some((Opcode::ThreeOctet(data[0], data[1], data[2]), 3))
        } else {
            None
        }
    }

    /// The encoded length: 1, 2 or 3 bytes.
    pub fn opcode_len(&self) -> (r: usize)
        ensures
            r == self.encoded().len(),
    {
        match self {
            Opcode::OneOctet(_) => 1,
            Opcode::TwoOctet(_, _) => 2,
            Opcode::ThreeOctet(_, _, _) => 3,
        }
    }

    /// Split an opcode off the front of an access payload.
    pub fn split(data: &[u8]) -> (r: Option<(Opcode, usize)>)
        ensures
            match r {
                Some((op, len)) => {
                    &&& Self::decoded(data@) == Some((op, len as int))
                    &&& op.valid()
                    &&& op.encoded() == data@.subrange(0, len as int)
                    &&& 1 <= len <= 3
                    &&& len <= data@.len()
                },
                None => Self::decoded(data@) is None,
            },
    {
        if data.len() >= 1 && data[0] & 0b10000000 == 0 && data[0] != 0x7f {
            let op = Opcode::OneOctet(data[0]);
            assert(op.encoded() =~= data@.subrange(0, 1));
            Some((op, 1))
        } else if data.len() >= 2 && data[0] & 0b11000000 == 0b10000000 {
            let op = Opcode::TwoOctet(data[0], data[1]);
            assert(op.encoded() =~= data@.subrange(0, 2));
            Some((op, 2))
        } else if data.len() >= 3 && data[0] & 0b11000000 == 0b11000000 {
            let op = Opcode::ThreeOctet(data[0], data[1], data[2]);
            assert(op.encoded() =~= data@.subrange(0, 3));
            Some((op, 3))
        } else {
            None
        }
    }

    /// Append the opcode's bytes.
    pub fn emit(&self, xmit: &mut Vec<u8>) -> (r: Result<(), InsufficientBuffer>)
        ensures
            r is Ok,
            final(xmit)@ == old(xmit)@ + self.encoded(),
    {
        match *self {
            Opcode::OneOctet(a) => {
                xmit.push(a);
            }
            Opcode::TwoOctet(a, b) => {
                xmit.push(a);
                xmit.push(b);
            }
            Opcode::ThreeOctet(a, b, c) => {
                xmit.push(a);
                xmit.push(b);
                xmit.push(c);
            }
        }
        assert(xmit@ =~= old(xmit)@ + self.encoded());
        Ok(())
    }

    /// A vendor opcode for a company: bits 11, the 6-bit opcode, then
    /// the little-endian company identifier.
    pub fn vendor(company: crate::common::CompanyIdentifier, opcode: u8) -> (r: Opcode)
        ensures
            r == Opcode::ThreeOctet(
                (0b11000000u8 | (opcode & 0b00111111u8)) as u8,
                (company.0 & 0xff) as u8,
                ((company.0 >> 8) & 0xff) as u8,
            ),
            r.valid(),
    {
        let first: u8 = 0b11000000u8 | (opcode & 0b00111111u8);
        assert(first & 0b11000000 == 0b11000000) by (bit_vector)
            requires first == 0b11000000u8 | (opcode & 0b00111111u8);
        Opcode::ThreeOctet(first, (company.0 & 0xff) as u8, ((company.0 >> 8) & 0xff) as u8)
    }
}

/// Decoding inverts encoding: for every opcode in the SIG one- and
/// two-byte ranges and the vendor range, splitting the emitted bytes
/// yields the opcode back, and the emitted length is 1, 2 or 3 as the
/// range prescribes.
pub proof fn lemma_opcode_round_trip(op: Opcode, rest: Seq<u8>)
    requires
        op.valid(),
    ensures
        Opcode::decoded(op.encoded() + rest) == Some((op, op.encoded().len() as int)),
        match op {
            Opcode::OneOctet(_) => op.encoded().len() == 1,
            Opcode::TwoOctet(_, _) => op.encoded().len() == 2,
            Opcode::ThreeOctet(_, _, _) => op.encoded().len() == 3,
        },
{
    let data = op.encoded() + rest;
    match op {
        Opcode::OneOctet(a) => {
            assert(data[0] == a);
        }
        Opcode::TwoOctet(a, b) => {
            assert(a & 0b11000000 == 0b10000000 ==> a & 0b10000000 != 0 && a != 0x7f)
                by (bit_vector);
            assert(data[0] == a && data[1] == b);
        }
        Opcode::ThreeOctet(a, b, c) => {
            assert(a & 0b11000000 == 0b11000000 ==> a & 0b10000000 != 0 && a != 0x7f
                && a & 0b11000000 != 0b10000000) by (bit_vector);
            assert(data[0] == a && data[1] == b && data[2] == c);
        }
    }
}

} // verus!

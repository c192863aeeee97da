//! Transport message integrity codes: 32-bit or 64-bit, selected by the
//! SZMIC bit of a segmented access PDU.

use vstd::prelude::*;
use crate::error::InvalidLength;

verus! {

/// The SZMIC bit: whether the upper-transport MIC is 4 or 8 bytes.
#[derive(Copy, Clone, Debug, PartialEq, Eq, Structural)]
pub enum SzMic {
    Bit32,
    Bit64,
}

impl SzMic {
    /// A set bit selects the 8-byte MIC.
    pub fn parse(data: u8) -> (r: Self)
        ensures
            r == (if data != 0 { SzMic::Bit64 } else { SzMic::Bit32 }),
    {
        if data != 0 {
            SzMic::Bit64
        } else {
            SzMic::Bit32
        }
    }

    /// The MIC size this bit selects.
    pub fn size(&self) -> (r: usize)
        ensures
            *self is Bit32 ==> r == 4,
            *self is Bit64 ==> r == 8,
    {
        match self {
            SzMic::Bit32 => 4,
            SzMic::Bit64 => 8,
        }
    }
}

/// An upper-transport MIC: four or eight bytes.
#[derive(Copy, Clone, Debug)]
pub enum TransMic {
    Bit32([u8; 4]),
    Bit64([u8; 8]),
}

impl TransMic {
    /// The MIC bytes.
    pub open spec fn bytes(&self) -> Seq<u8> {
        match *self {
            TransMic::Bit32(b) => b@,
            TransMic::Bit64(b) => b@,
        }
    }

    /// A 4-byte slice parses as a 32-bit MIC, an 8-byte slice as a
    /// 64-bit one; any other length is invalid.
    pub fn parse(data: &[u8]) -> (r: Result<TransMic, InvalidLength>)
        ensures
            data@.len() == 4 || data@.len() == 8 ==> r is Ok && r->Ok_0.bytes() == data@,
            data@.len() != 4 && data@.len() != 8 ==> r is Err,
    {
        if data.len() == 4 {
            let b: [u8; 4] = [data[0], data[1], data[2], data[3]];
            assert(b@ =~= data@);
            Ok(TransMic::Bit32(b))
        } else if data.len() == 8 {
            let b: [u8; 8] = [
                data[0],
                data[1],
                data[2],
                data[3],
                data[4],
                data[5],
                data[6],
                data[7],
            ];
            assert(b@ =~= data@);
            Ok(TransMic::Bit64(b))
        } else {
            Err(InvalidLength)
        }
    }

    /// The SZMIC bit this MIC requires.
    pub fn szmic(&self) -> (r: SzMic)
        ensures
            *self is Bit32 ==> r == SzMic::Bit32,
            *self is Bit64 ==> r == SzMic::Bit64,
    {
        match self {
            TransMic::Bit32(_) => SzMic::Bit32,
            TransMic::Bit64(_) => SzMic::Bit64,
        }
    }

    /// The MIC bytes, for appending to a PDU.
    pub fn to_vec(&self) -> (r: Vec<u8>)
        ensures
            r@ == self.bytes(),
    {
        match self {
            TransMic::Bit32(b) => {
                let mut v: Vec<u8> = Vec::new();
                crate::crypto::push_all(&mut v, b.as_slice());
                assert(v@ =~= self.bytes());
                v
            }
            TransMic::Bit64(b) => {
                let mut v: Vec<u8> = Vec::new();
                crate::crypto::push_all(&mut v, b.as_slice());
                assert(v@ =~= self.bytes());
                v
            }
        }
    }
}

} // verus!

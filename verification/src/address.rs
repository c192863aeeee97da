//! Mesh addresses: unassigned, unicast, virtual (backed by a label
//! UUID whose 14-bit hash is the address) and group.

use vstd::prelude::*;
use crate::error::InvalidAddress;
use crate::crypto::{aes_cmac, aes_cmac_of, s1, s1_of};

verus! {

/// The salt input of the virtual-address derivation: the ASCII bytes of
/// "vtad".
pub open spec fn vtad_bytes() -> Seq<u8> {
    seq![0x76u8, 0x74u8, 0x61u8, 0x64u8]
}

/// The 14-bit hash of a label UUID: the two low bytes of
/// AES-CMAC under the salt s1("vtad"), masked to 14 bits.
pub open spec fn label_hash14(uuid: Seq<u8>) -> u16 {
    let h = aes_cmac_of(s1_of(vtad_bytes()), uuid);
    (((h[14] as u16) << 8 | (h[15] as u16)) & 0x3fff) as u16
}

/// The virtual address a label UUID hashes to: top bits 10, then the
/// 14-bit hash.
pub open spec fn virtual_address_of(uuid: Seq<u8>) -> u16 {
    (0x8000u16 | label_hash14(uuid)) as u16
}

/// A unicast source or destination address: 0x0001 ..= 0x7fff.
#[derive(Copy, Clone, Debug, PartialEq, Eq, Structural, Hash)]
pub struct UnicastAddress(pub u16);

impl UnicastAddress {
    /// Validity of the 16-bit value for this variant.
    pub open spec fn valid(addr: u16) -> bool {
        0 < addr < 0x8000
    }

    pub fn parse(addr: u16) -> (r: Result<Self, InvalidAddress>)
        ensures
            Self::valid(addr) ==> r == Ok::<UnicastAddress, InvalidAddress>(UnicastAddress(addr)),
            !Self::valid(addr) ==> r == Err::<UnicastAddress, InvalidAddress>(InvalidAddress),
    {
        if 0 < addr && addr < 0x8000 {
            Ok(Self(addr))
        } else {
            Err(InvalidAddress)
        }
    }

    pub fn value(&self) -> (r: u16)
        ensures
            r == self.0,
    {
        self.0
    }
}

/// A group destination address: 0xc000 ..= 0xffff.
#[derive(Copy, Clone, Debug, PartialEq, Eq, Structural, Hash)]
pub struct GroupAddress(pub u16);

impl GroupAddress {
    /// Validity of the 16-bit value for this variant.
    pub open spec fn valid(addr: u16) -> bool {
        addr >= 0xc000
    }

    pub fn parse(addr: u16) -> (r: Result<Self, InvalidAddress>)
        ensures
            Self::valid(addr) ==> r == Ok::<GroupAddress, InvalidAddress>(GroupAddress(addr)),
            !Self::valid(addr) ==> r == Err::<GroupAddress, InvalidAddress>(InvalidAddress),
    {
        if addr >= 0xc000 {
            Ok(Self(addr))
        } else {
            Err(InvalidAddress)
        }
    }

    pub fn value(&self) -> (r: u16)
        ensures
            r == self.0,
    {
        self.0
    }
}

/// A virtual destination address: 0x8000 ..= 0xbfff, standing for every
/// label UUID whose 14-bit hash equals its low 14 bits.
#[derive(Copy, Clone, Debug, PartialEq, Eq, Structural, Hash)]
pub struct VirtualAddress(pub u16);

impl VirtualAddress {
    /// Validity of the 16-bit value for this variant.
    pub open spec fn valid(addr: u16) -> bool {
        0x8000 <= addr < 0xc000
    }

    pub fn parse(addr: u16) -> (r: Result<Self, InvalidAddress>)
        ensures
            Self::valid(addr) ==> r == Ok::<VirtualAddress, InvalidAddress>(VirtualAddress(addr)),
            !Self::valid(addr) ==> r == Err::<VirtualAddress, InvalidAddress>(InvalidAddress),
    {
        if 0x8000 <= addr && addr < 0xc000 {
            Ok(Self(addr))
        } else {
            Err(InvalidAddress)
        }
    }

    pub fn value(&self) -> (r: u16)
        ensures
            r == self.0,
    {
        self.0
    }
}

/// Any 16-bit mesh address, classified into its four variants.
#[derive(Copy, Clone, Debug, PartialEq, Eq, Structural, Hash)]
pub enum Address {
    Unassigned,
    Unicast(UnicastAddress),
    Virtual(VirtualAddress),
    Group(GroupAddress),
}

impl Address {
    /// The classification of a raw 16-bit value.
    pub open spec fn of_u16(addr: u16) -> Address {
        if addr == 0 {
            Address::Unassigned
        } else if addr < 0x8000 {
            Address::Unicast(UnicastAddress(addr))
        } else if addr < 0xc000 {
            Address::Virtual(VirtualAddress(addr))
        } else {
            Address::Group(GroupAddress(addr))
        }
    }

    /// The 16-bit value of an address.
    pub open spec fn to_u16(&self) -> u16 {
        match *self {
            Address::Unassigned => 0,
            Address::Unicast(a) => a.0,
            Address::Virtual(a) => a.0,
            Address::Group(a) => a.0,
        }
    }

    /// Every 16-bit value classifies into exactly one variant.
    pub fn parse(addr: u16) -> (r: Address)
        ensures
            r == Address::of_u16(addr),
    {
        if addr == 0 {
            Address::Unassigned
        } else if addr < 0x8000 {
            Address::Unicast(UnicastAddress(addr))
        } else if addr < 0xc000 {
            Address::Virtual(VirtualAddress(addr))
        } else {
            Address::Group(GroupAddress(addr))
        }
    }

    pub fn value(&self) -> (r: u16)
        ensures
            r == self.to_u16(),
    {
        match *self {
            Address::Unassigned => 0,
            Address::Unicast(a) => a.0,
            Address::Virtual(a) => a.0,
            Address::Group(a) => a.0,
        }
    }

    pub fn of_unicast(addr: UnicastAddress) -> (r: Address)
        ensures
            r == Address::Unicast(addr),
    {
        Address::Unicast(addr)
    }
}

/// A 16-byte label UUID together with the virtual address it hashes to.
/// The address field is always the hash of the UUID.
#[derive(Copy, Clone, Debug)]
pub struct LabelUuid {
    pub uuid: [u8; 16],
    pub address: VirtualAddress,
}

impl PartialEq for LabelUuid {
    fn eq(&self, other: &LabelUuid) -> (r: bool) {
        let mut i: usize = 0;
        while i < 16
            invariant
                i <= 16,
                forall|j: int| 0 <= j < i ==> self.uuid@[j] == other.uuid@[j],
            decreases 16 - i,
        {
            if self.uuid[i] != other.uuid[i] {
                return false;
            }
            i = i + 1;
        }
        assert(self.uuid@ =~= other.uuid@);
        self.address.0 == other.address.0
    }
}

impl vstd::std_specs::cmp::PartialEqSpecImpl for LabelUuid {
    open spec fn obeys_eq_spec() -> bool {
        true
    }

    open spec fn eq_spec(&self, other: &LabelUuid) -> bool {
        self.uuid@ == other.uuid@ && self.address == other.address
    }
}

impl Eq for LabelUuid {}

impl LabelUuid {
    /// The binding of the address to the UUID's hash.
    pub open spec fn wf(&self) -> bool {
        self.address.0 == virtual_address_of(self.uuid@)
    }

    /// The label's bytes.
    pub open spec fn uuid_spec(&self) -> Seq<u8> {
        self.uuid@
    }

    /// Compute the virtual address of a label UUID and bind the two.
    pub fn new(uuid: [u8; 16]) -> (r: Self)
        ensures
            r.uuid_spec() == uuid@,
            r.wf(),
    {
        // the ASCII bytes of "vtad"
        let vtad: [u8; 4] = [0x76, 0x74, 0x61, 0x64];
        assert(vtad@ =~= vtad_bytes());
        let salt: [u8; 16] = s1(&vtad);
        let hash: [u8; 16] = aes_cmac(&salt, &uuid);
        let h14: u8 = hash[14];
        let h15: u8 = hash[15];
        let low14: u16 = ((h14 as u16) << 8 | (h15 as u16)) & 0x3fff;
        let addr: u16 = 0x8000u16 | low14;
        assert(0x8000 <= addr < 0xc000) by (bit_vector)
            requires addr == 0x8000u16 | (((h14 as u16) << 8 | (h15 as u16)) & 0x3fff);
        Self { uuid, address: VirtualAddress(addr) }
    }

    pub fn uuid(&self) -> (r: &[u8; 16])
        ensures
            r@ == self.uuid_spec(),
    {
        &self.uuid
    }

    pub fn virtual_address(&self) -> (r: VirtualAddress)
        ensures
            r == self.address,
            self.wf() ==> r.0 == virtual_address_of(self.uuid_spec()),
    {
        self.address
    }
}

} // verus!

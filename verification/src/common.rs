//! Primitive mesh types: IV index, TTL, sequence numbers, identifiers,
//! flags, and the node's composition data.

use vstd::prelude::*;
use crate::error::{InsufficientBuffer, ParseError, SeqRolloverError};

verus! {

/// Big-endian reading of four bytes as a 32-bit value.
pub open spec fn u32_from_be(b0: u8, b1: u8, b2: u8, b3: u8) -> u32 {
    ((b0 as u32) << 24 | (b1 as u32) << 16 | (b2 as u32) << 8 | (b3 as u32)) as u32
}

/// The IV-update flag of a secure network beacon.
#[derive(Copy, Clone, Debug, PartialEq, Eq, Structural, Hash)]
pub enum IvUpdateFlag {
    Normal,
    InProgress,
}

impl IvUpdateFlag {
    /// Zero means normal operation, anything else an update in progress.
    pub fn parse(data: u8) -> (r: Self)
        ensures
            r == (if data == 0 { IvUpdateFlag::Normal } else { IvUpdateFlag::InProgress }),
    {
        if data == 0 {
            Self::Normal
        } else {
            Self::InProgress
        }
    }

    /// Set bit 1 of the flags byte when an update is in progress.
    pub fn emit(&self, data: &mut u8)
        ensures
            *final(data) == (if *self is InProgress { *old(data) | 0b00000010u8 } else { *old(data) }),
    {
        if self == &Self::InProgress {
            *data = *data | 0b00000010;
        }
    }
}

/// The key-refresh flag of a secure network beacon.
#[derive(Copy, Clone, Debug, PartialEq, Eq, Structural, Hash)]
pub struct KeyRefreshFlag(pub bool);

impl KeyRefreshFlag {
    /// Zero means no refresh under way.
    pub fn parse(data: u8) -> (r: Self)
        ensures
            r.0 == (data != 0),
    {
        Self(data != 0)
    }

    /// Set bit 0 of the flags byte when a refresh is under way.
    pub fn emit(&self, data: &mut u8)
        ensures
            *final(data) == (if self.0 { *old(data) | 0b00000001u8 } else { *old(data) }),
    {
        if self.0 {
            *data = *data | 0b00000001;
        }
    }
}

/// The network-wide 32-bit IV index; its parity bit disambiguates frames
/// across an IV update.
#[derive(Copy, Clone, Debug, PartialEq, Eq, Structural, Hash)]
pub struct IvIndex(pub u32);

/// The parity bit of an IV index as carried in a network PDU header.
#[derive(Copy, Clone, Debug, PartialEq, Eq, Structural)]
pub enum Ivi {
    Zero,
    One,
}

impl Ivi {
    /// Only 0 and 1 denote a parity bit.
    pub fn parse(ivi: u8) -> (r: Result<Ivi, ParseError>)
        ensures
            ivi == 0 ==> r == Ok::<Ivi, ParseError>(Ivi::Zero),
            ivi == 1 ==> r == Ok::<Ivi, ParseError>(Ivi::One),
            ivi > 1 ==> r == Err::<Ivi, ParseError>(ParseError::InvalidValue),
    {
        match ivi {
            0 => Ok(Ivi::Zero),
            1 => Ok(Ivi::One),
            _ => Err(ParseError::InvalidValue),
        }
    }
}

impl IvIndex {
    pub fn new(iv_index: u32) -> (r: Self)
        ensures
            r.0 == iv_index,
    {
        Self(iv_index)
    }

    /// Big-endian; exactly four bytes are accepted.
    pub fn parse(iv_index: &[u8]) -> (r: Result<Self, ParseError>)
        ensures
            iv_index@.len() == 4 ==> r == Ok::<IvIndex, ParseError>(IvIndex(
                u32_from_be(iv_index@[0], iv_index@[1], iv_index@[2], iv_index@[3]),
            )),
            iv_index@.len() != 4 ==> r == Err::<IvIndex, ParseError>(ParseError::InvalidLength),
    {
        if iv_index.len() == 4 {
            let b0: u8 = iv_index[0];
            let b1: u8 = iv_index[1];
            let b2: u8 = iv_index[2];
            let b3: u8 = iv_index[3];
            Ok(Self((b0 as u32) << 24 | (b1 as u32) << 16 | (b2 as u32) << 8 | (b3 as u32)))
        } else {
            Err(ParseError::InvalidLength)
        }
    }

    /// Big-endian bytes of the index.
    pub fn to_be_bytes(&self) -> (r: [u8; 4])
        ensures
            r@[0] == ((self.0 >> 24) & 0xff) as u8,
            r@[1] == ((self.0 >> 16) & 0xff) as u8,
            r@[2] == ((self.0 >> 8) & 0xff) as u8,
            r@[3] == (self.0 & 0xff) as u8,
    {
        [
            ((self.0 >> 24) & 0xff) as u8,
            ((self.0 >> 16) & 0xff) as u8,
            ((self.0 >> 8) & 0xff) as u8,
            (self.0 & 0xff) as u8,
        ]
    }

    pub fn value(&self) -> (r: u32)
        ensures
            r == self.0,
    {
        self.0
    }

    /// The parity bit of the index.
    pub fn ivi(&self) -> (r: Ivi)
        ensures
            r == (if self.0 % 2 == 1 { Ivi::One } else { Ivi::Zero }),
    {
        if self.0 % 2 == 1 {
            Ivi::One
        } else {
            Ivi::Zero
        }
    }

    /// The index, decremented by `rhs` unless that would not leave a
    /// positive value, in which case the index is unchanged.
    pub fn subtract(self, rhs: u8) -> (r: Self)
        ensures
            r == self.subtract_spec(rhs),
    {
        if self.0 > rhs as u32 {
            Self(self.0 - rhs as u32)
        } else {
            self
        }
    }

    /// The IV index under which a received frame with parity `ivi` is
    /// processed: the current index if the parity matches, else the
    /// previous one.
    pub fn accepted_iv_index(&self, ivi: Ivi) -> (r: IvIndex)
        ensures
            self.ivi_spec() == ivi ==> r == *self,
            self.ivi_spec() != ivi ==> r == self.subtract_spec(1),
    {
        if self.ivi() == ivi {
            *self
        } else {
            self.subtract(1)
        }
    }

    /// The IV index used for transmission: the previous one while an IV
    /// update is in progress, else the current one.
    pub fn transmission_iv_index(&self, flag: IvUpdateFlag) -> (r: IvIndex)
        ensures
            flag is Normal ==> r == *self,
            flag is InProgress ==> r == self.subtract_spec(1),
    {
        match flag {
            IvUpdateFlag::Normal => *self,
            IvUpdateFlag::InProgress => self.subtract(1),
        }
    }

    /// Parity of the index, at the specification level.
    pub open spec fn ivi_spec(&self) -> Ivi {
        if self.0 % 2 == 1 {
            Ivi::One
        } else {
            Ivi::Zero
        }
    }

    /// Saturating decrement, at the specification level.
    pub open spec fn subtract_spec(&self, rhs: u8) -> IvIndex {
        if self.0 > rhs {
            IvIndex((self.0 - rhs) as u32)
        } else {
            *self
        }
    }
}

/// Time-to-live of a network PDU.
#[derive(Copy, Clone, Debug, PartialEq, Eq, Structural)]
pub struct Ttl(pub u8);

impl Ttl {
    pub fn new(ttl: u8) -> (r: Self)
        ensures
            r.0 == ttl,
    {
        Self(ttl)
    }

    pub fn parse(ttl: u8) -> (r: Result<Self, ParseError>)
        ensures
            r == Ok::<Ttl, ParseError>(Ttl(ttl)),
    {
        Ok(Self(ttl))
    }

    pub fn value(&self) -> (r: u8)
        ensures
            r == self.0,
    {
        self.0
    }
}

/// A 24-bit per-source sequence number, held as 32 bits for arithmetic.
#[derive(Copy, Clone, Debug, PartialEq, Eq, Structural)]
pub struct SequenceNumber(pub u32);

impl SequenceNumber {
    pub fn new(seq: u32) -> (r: Self)
        ensures
            r.0 == seq,
    {
        Self(seq)
    }

    pub fn parse(seq: u32) -> (r: Result<SequenceNumber, ParseError>)
        ensures
            r == Ok::<SequenceNumber, ParseError>(SequenceNumber(seq)),
    {
        Ok(Self(seq))
    }

    /// Big-endian bytes of the sequence value.
    pub fn to_be_bytes(&self) -> (r: [u8; 4])
        ensures
            r@[0] == ((self.0 >> 24) & 0xff) as u8,
            r@[1] == ((self.0 >> 16) & 0xff) as u8,
            r@[2] == ((self.0 >> 8) & 0xff) as u8,
            r@[3] == (self.0 & 0xff) as u8,
    {
        [
            ((self.0 >> 24) & 0xff) as u8,
            ((self.0 >> 16) & 0xff) as u8,
            ((self.0 >> 8) & 0xff) as u8,
            (self.0 & 0xff) as u8,
        ]
    }

    pub fn value(&self) -> (r: u32)
        ensures
            r == self.0,
    {
        self.0
    }

    /// Checked advance within the 24-bit sequence space; a sum past
    /// its last value is a rollover, which is fatal for the node.
    pub fn add(self, rhs: u32) -> (r: Result<SequenceNumber, SeqRolloverError>)
        ensures
            self.0 + rhs <= 0x00ff_ffff ==> r == Ok::<SequenceNumber, SeqRolloverError>(
                SequenceNumber((self.0 + rhs) as u32),
            ),
            self.0 + rhs > 0x00ff_ffff ==> r == Err::<SequenceNumber, SeqRolloverError>(
                SeqRolloverError,
            ),
    {
        match self.0.checked_add(rhs) {
            None => Err(SeqRolloverError),
            Some(val) => {
                if val > 0x00ff_ffff {
                    Err(SeqRolloverError)
                } else {
                    Ok(Self(val))
                }
            }
        }
    }
}

/// The low 13 bits of the sequence number at the start of a segmented
/// transmission; identifies one segmented PDU.
#[derive(Copy, Clone, Debug, PartialEq, Eq, Structural)]
pub struct SeqZero(pub u16);

impl SeqZero {
    pub fn new(seq_zero: u16) -> (r: Self)
        ensures
            r.0 == seq_zero,
    {
        Self(seq_zero)
    }

    /// The identifying low 13 bits of a sequence number.
    pub fn of_seq(seq: SequenceNumber) -> (r: Self)
        ensures
            r.0 == seq.0 & 0x1fff,
    {
        let value: u32 = seq.0;
        let masked: u32 = value & 0x1fff;
        assert(value & 0x1fff <= 0x1fff) by (bit_vector);
        Self(masked as u16)
    }

    pub fn parse(data: u16) -> (r: Result<Self, ParseError>)
        ensures
            r == Ok::<SeqZero, ParseError>(SeqZero(data)),
    {
        Ok(Self(data))
    }

    pub fn value(&self) -> (r: u16)
        ensures
            r == self.0,
    {
        self.0
    }
}

/// Whether a network PDU carries access or control traffic.
#[derive(Copy, Clone, Debug, PartialEq, Eq, Structural)]
pub enum Ctl {
    Access,
    Control,
}

impl Ctl {
    pub fn parse(ctl: u8) -> (r: Result<Ctl, ParseError>)
        ensures
            ctl == 0 ==> r == Ok::<Ctl, ParseError>(Ctl::Access),
            ctl == 1 ==> r == Ok::<Ctl, ParseError>(Ctl::Control),
            ctl > 1 ==> r == Err::<Ctl, ParseError>(ParseError::InvalidValue),
    {
        match ctl {
            0 => Ok(Ctl::Access),
            1 => Ok(Ctl::Control),
            _ => Err(ParseError::InvalidValue),
        }
    }

    /// Network MIC size: 4 bytes for access frames, 8 for control frames.
    pub fn netmic_size(&self) -> (r: usize)
        ensures
            *self is Access ==> r == 4,
            *self is Control ==> r == 8,
    {
        match self {
            Ctl::Access => 4,
            Ctl::Control => 8,
        }
    }
}

/// A 16-byte UUID identifying an unprovisioned device.
#[derive(Copy, Clone, Debug, Hash)]
pub struct Uuid(pub [u8; 16]);

impl PartialEq for Uuid {
    fn eq(&self, other: &Uuid) -> (r: bool) {
        let mut i: usize = 0;
        while i < 16
            invariant
                i <= 16,
                forall|j: int| 0 <= j < i ==> self.0@[j] == other.0@[j],
            decreases 16 - i,
        {
            if self.0[i] != other.0[i] {
                return false;
            }
            i = i + 1;
        }
        assert(self.0@ =~= other.0@);
        true
    }
}

impl vstd::std_specs::cmp::PartialEqSpecImpl for Uuid {
    open spec fn obeys_eq_spec() -> bool {
        true
    }

    open spec fn eq_spec(&self, other: &Uuid) -> bool {
        self.0@ == other.0@
    }
}

impl Eq for Uuid {}

/// Stamp the version-4 and RFC 4122 variant bits into random bytes:
/// byte 6 carries the version in its high nibble, byte 8 the variant
/// in its top two bits, exactly as a random UUID is built.
fn uuid_v4_bytes(bytes: &[u8; 16]) -> (r: [u8; 16])
    ensures
        forall|i: int| 0 <= i < 16 && i != 6 && i != 8 ==> r@[i] == bytes@[i],
        r@[6] == (bytes@[6] & 0x0f) | 0x40,
        r@[8] == (bytes@[8] & 0x3f) | 0x80,
{
    let r: [u8; 16] = [
        bytes[0],
        bytes[1],
        bytes[2],
        bytes[3],
        bytes[4],
        bytes[5],
        (bytes[6] & 0x0f) | 0x40,
        bytes[7],
        (bytes[8] & 0x3f) | 0x80,
        bytes[9],
        bytes[10],
        bytes[11],
        bytes[12],
        bytes[13],
        bytes[14],
        bytes[15],
    ];
    r
}

impl Uuid {
    pub fn new(uuid: [u8; 16]) -> (r: Self)
        ensures
            r.0 == uuid,
    {
        Self(uuid)
    }

    /// A fresh version-4 UUID built from caller-provided random bytes.
    pub fn new_random(random: [u8; 16]) -> (r: Self)
        ensures
            forall|i: int| 0 <= i < 16 && i != 6 && i != 8 ==> r.0@[i] == random@[i],
            r.0@[6] == (random@[6] & 0x0f) | 0x40,
            r.0@[8] == (random@[8] & 0x3f) | 0x80,
    {
        Self(uuid_v4_bytes(&random))
    }

    pub fn as_bytes(&self) -> (r: &[u8; 16])
        ensures
            r == self.0,
    {
        &self.0
    }
}

/// The 8-byte network identifier derived from a network key.
#[derive(Copy, Clone, Debug, Hash)]
pub struct NetworkId(pub [u8; 8]);

impl PartialEq for NetworkId {
    fn eq(&self, other: &NetworkId) -> (r: bool) {
        let mut i: usize = 0;
        while i < 8
            invariant
                i <= 8,
                forall|j: int| 0 <= j < i ==> self.0@[j] == other.0@[j],
            decreases 8 - i,
        {
            if self.0[i] != other.0[i] {
                return false;
            }
            i = i + 1;
        }
        assert(self.0@ =~= other.0@);
        true
    }
}

impl vstd::std_specs::cmp::PartialEqSpecImpl for NetworkId {
    open spec fn obeys_eq_spec() -> bool {
        true
    }

    open spec fn eq_spec(&self, other: &NetworkId) -> bool {
        self.0@ == other.0@
    }
}

impl Eq for NetworkId {}

impl NetworkId {
    pub fn new(network_id: [u8; 8]) -> (r: Self)
        ensures
            r.0 == network_id,
    {
        Self(network_id)
    }

    pub fn as_bytes(&self) -> (r: &[u8; 8])
        ensures
            r == self.0,
    {
        &self.0
    }
}

/// A Bluetooth SIG company identifier.
#[derive(Copy, Clone, Debug, PartialEq, Eq, Structural)]
pub struct CompanyIdentifier(pub u16);

impl CompanyIdentifier {
    /// Little-endian; at least two bytes are required.
    pub fn parse(parameters: &[u8]) -> (r: Result<Self, ParseError>)
        ensures
            parameters@.len() >= 2 ==> r == Ok::<CompanyIdentifier, ParseError>(CompanyIdentifier(
                (parameters@[0] as u16 | (parameters@[1] as u16) << 8) as u16,
            )),
            parameters@.len() < 2 ==> r == Err::<CompanyIdentifier, ParseError>(ParseError::InvalidLength),
    {
        if parameters.len() >= 2 {
            let b0: u8 = parameters[0];
            let b1: u8 = parameters[1];
            Ok(Self(b0 as u16 | (b1 as u16) << 8))
        } else {
            Err(ParseError::InvalidLength)
        }
    }
}

/// A vendor's product identifier.
#[derive(Copy, Clone, Debug, PartialEq, Eq, Structural)]
pub struct ProductIdentifier(pub u16);

/// A vendor's version identifier.
#[derive(Copy, Clone, Debug, PartialEq, Eq, Structural)]
pub struct VersionIdentifier(pub u16);

/// A model identifier: either a SIG-defined 16-bit model or a vendor
/// model qualified by a company identifier.
#[derive(Copy, Clone, Debug, PartialEq, Eq, Structural)]
pub enum ModelIdentifier {
    SIG(u16),
    Vendor(CompanyIdentifier, u16),
}

impl ModelIdentifier {
    /// The little-endian bytes this identifier emits on the wire: two
    /// for a SIG model, four (company first) for a vendor model.
    pub open spec fn emitted(&self) -> vstd::seq::Seq<u8> {
        match *self {
            ModelIdentifier::SIG(model_id) => seq![
                (model_id & 0xff) as u8,
                ((model_id >> 8) & 0xff) as u8,
            ],
            ModelIdentifier::Vendor(company_id, model_id) => seq![
                (company_id.0 & 0xff) as u8,
                ((company_id.0 >> 8) & 0xff) as u8,
                (model_id & 0xff) as u8,
                ((model_id >> 8) & 0xff) as u8,
            ],
        }
    }

    /// Two little-endian bytes parse as a SIG model, four as a vendor
    /// model; any other length is invalid.
    pub fn parse(parameters: &[u8]) -> (r: Result<Self, ParseError>)
        ensures
            parameters@.len() == 2 ==> r == Ok::<ModelIdentifier, ParseError>(ModelIdentifier::SIG(
                (parameters@[0] as u16 | (parameters@[1] as u16) << 8) as u16,
            )),
            parameters@.len() == 4 ==> r == Ok::<ModelIdentifier, ParseError>(ModelIdentifier::Vendor(
                CompanyIdentifier((parameters@[0] as u16 | (parameters@[1] as u16) << 8) as u16),
                (parameters@[2] as u16 | (parameters@[3] as u16) << 8) as u16,
            )),
            parameters@.len() != 2 && parameters@.len() != 4
                ==> r == Err::<ModelIdentifier, ParseError>(ParseError::InvalidLength),
    {
        if parameters.len() == 2 {
            let b0: u8 = parameters[0];
            let b1: u8 = parameters[1];
            Ok(ModelIdentifier::SIG(b0 as u16 | (b1 as u16) << 8))
        } else if parameters.len() == 4 {
            let b2: u8 = parameters[2];
            let b3: u8 = parameters[3];
            match CompanyIdentifier::parse(parameters) {
                Ok(company) => Ok(ModelIdentifier::Vendor(company, b2 as u16 | (b3 as u16) << 8)),
                Err(err) => Err(err),
            }
        } else {
            Err(ParseError::InvalidLength)
        }
    }

    /// Append the identifier's little-endian wire bytes.
    pub fn emit(&self, xmit: &mut Vec<u8>) -> (r: Result<(), InsufficientBuffer>)
        ensures
            r is Ok,
            final(xmit)@ == old(xmit)@ + self.emitted(),
    {
        match *self {
            ModelIdentifier::SIG(model_id) => {
                xmit.push((model_id & 0xff) as u8);
                xmit.push(((model_id >> 8) & 0xff) as u8);
            }
            ModelIdentifier::Vendor(company_id, model_id) => {
                xmit.push((company_id.0 & 0xff) as u8);
                xmit.push(((company_id.0 >> 8) & 0xff) as u8);
                xmit.push((model_id & 0xff) as u8);
                xmit.push(((model_id >> 8) & 0xff) as u8);
            }
        }
        assert(xmit@ =~= old(xmit)@ + self.emitted());
        Ok(())
    }
}

/// A location descriptor tag of an element.
#[derive(Copy, Clone, Debug, PartialEq, Eq, Structural)]
pub struct Location(pub u16);

/// The optional feature bits of a node.
#[derive(Copy, Clone, Debug, PartialEq, Eq, Structural)]
pub struct Features {
    pub relay: bool,
    pub proxy: bool,
    pub friend: bool,
    pub low_power: bool,
}

impl Features {
    /// The low feature byte: relay, proxy, friend and low-power bits in
    /// that order from bit 0.
    pub open spec fn emitted_low(&self) -> u8 {
        (if self.relay { 0b0001u8 } else { 0u8 }
            | if self.proxy { 0b0010u8 } else { 0u8 }
            | if self.friend { 0b0100u8 } else { 0u8 }
            | if self.low_power { 0b1000u8 } else { 0u8 }) as u8
    }

    /// Append the two feature bytes; the high byte is reserved as zero.
    pub fn emit(&self, xmit: &mut Vec<u8>) -> (r: Result<(), InsufficientBuffer>)
        ensures
            r is Ok,
            final(xmit)@ == old(xmit)@ + seq![self.emitted_low(), 0u8],
    {
        let val: u8 = (if self.relay { 0b0001u8 } else { 0u8 }
            | if self.proxy { 0b0010u8 } else { 0u8 }
            | if self.friend { 0b0100u8 } else { 0u8 }
            | if self.low_power { 0b1000u8 } else { 0u8 });
        xmit.push(val);
        xmit.push(0);
        assert(xmit@ =~= old(xmit)@ + seq![self.emitted_low(), 0u8]);
        Ok(())
    }
}

impl Default for Features {
    /// With no optional feature compiled in, every bit is off.
    fn default() -> (r: Self)
        ensures
            !r.relay && !r.proxy && !r.friend && !r.low_power,
    {
        Self { relay: false, proxy: false, friend: false, low_power: false }
    }
}

/// How many elements and models a composition may carry.
pub const COMPOSITION_MAX: usize = 4;

/// One element of the node: a location tag and its ordered models.
#[derive(Clone, Debug)]
pub struct ElementDescriptor {
    pub loc: Location,
    pub models: Vec<ModelIdentifier>,
}

impl ElementDescriptor {
    /// A bounded number of models may be registered.
    pub open spec fn wf(&self) -> bool {
        self.models@.len() <= COMPOSITION_MAX
    }

    pub fn new(loc: Location) -> (r: Self)
        ensures
            r.loc == loc,
            r.models@.len() == 0,
            r.wf(),
    {
        Self { loc, models: Vec::new() }
    }

    /// Register a model; when the table is full the model is dropped,
    /// as the capacity is a static property of the device.
    pub fn add_model(&mut self, model: ModelIdentifier)
        requires
            old(self).wf(),
        ensures
            final(self).wf(),
            final(self).loc == old(self).loc,
            old(self).models@.len() < COMPOSITION_MAX
                ==> final(self).models@ == old(self).models@.push(model),
            old(self).models@.len() == COMPOSITION_MAX
                ==> final(self).models@ == old(self).models@,
    {
        if self.models.len() < COMPOSITION_MAX {
            self.models.push(model);
        }
    }

    pub fn loc(&self) -> (r: Location)
        ensures
            r == self.loc,
    {
        self.loc
    }

    /// The registered models, for iteration by index.
    pub fn models(&self) -> (r: &Vec<ModelIdentifier>)
        ensures
            r == self.models,
    {
        &self.models
    }
}

/// The read-only composition data of the node: identity, capacity of the
/// replay-protection list, features, and the ordered elements.
#[derive(Clone, Debug)]
pub struct Composition {
    pub cid: CompanyIdentifier,
    pub pid: ProductIdentifier,
    pub vid: VersionIdentifier,
    pub crpl: u16,
    pub features: Features,
    pub elements: Vec<ElementDescriptor>,
}

impl Composition {
    /// A bounded number of elements, each well-formed.
    pub open spec fn wf(&self) -> bool {
        &&& self.elements@.len() <= COMPOSITION_MAX
        &&& forall|i: int| 0 <= i < self.elements@.len() ==> self.elements@[i].wf()
    }

    pub fn new(cid: CompanyIdentifier, pid: ProductIdentifier, vid: VersionIdentifier) -> (r: Self)
        ensures
            r.cid == cid && r.pid == pid && r.vid == vid,
            r.crpl == 0,
            r.features == (Features { relay: false, proxy: false, friend: false, low_power: false }),
            r.elements@.len() == 0,
            r.wf(),
    {
        Self {
            cid,
            pid,
            vid,
            crpl: 0,
            features: Features::default(),
            elements: Vec::new(),
        }
    }

    /// Append an element; a full table hands the element back.
    pub fn add_element(&mut self, element: ElementDescriptor) -> (r: Result<(), ElementDescriptor>)
        requires
            old(self).wf(),
            element.wf(),
        ensures
            final(self).wf(),
            old(self).elements@.len() < COMPOSITION_MAX ==> {
                &&& r is Ok
                &&& final(self).elements@ == old(self).elements@.push(element)
            },
            old(self).elements@.len() == COMPOSITION_MAX ==> {
                &&& r == Err::<(), ElementDescriptor>(element)
                &&& final(self).elements@ == old(self).elements@
            },
            final(self).cid == old(self).cid && final(self).pid == old(self).pid
                && final(self).vid == old(self).vid && final(self).crpl == old(self).crpl
                && final(self).features == old(self).features,
    {
        if self.elements.len() < COMPOSITION_MAX {
            self.elements.push(element);
            Ok(())
        } else {
            Err(element)
        }
    }

    pub fn number_of_elements(&self) -> (r: u8)
        requires
            self.wf(),
        ensures
            r == self.elements@.len(),
    {
        self.elements.len() as u8
    }

    pub fn cid(&self) -> (r: CompanyIdentifier)
        ensures
            r == self.cid,
    {
        self.cid
    }

    pub fn pid(&self) -> (r: ProductIdentifier)
        ensures
            r == self.pid,
    {
        self.pid
    }

    pub fn vid(&self) -> (r: VersionIdentifier)
        ensures
            r == self.vid,
    {
        self.vid
    }

    pub fn crpl(&self) -> (r: u16)
        ensures
            r == self.crpl,
    {
        self.crpl
    }

    pub fn features(&self) -> (r: Features)
        ensures
            r == self.features,
    {
        self.features
    }

    /// The elements, for iteration by index.
    pub fn elements(&self) -> (r: &Vec<ElementDescriptor>)
        ensures
            r == self.elements,
    {
        &self.elements
    }
}

} // verus!

//! The stack supervisor's data model: the tri-state current mode, the
//! persisted configuration, and the provisioned stack that binds the
//! layers together. The event loop around it performs I/O and timers;
//! every decision it takes is computed here.

use vstd::prelude::*;
use crate::address::{LabelUuid, UnicastAddress};
use crate::common::{IvIndex, IvUpdateFlag, SequenceNumber, SeqZero, Ttl, Uuid};
use crate::error::{DriverError, ParseError};
use crate::lower::{segment, LowerPDU, Reassembly, SEGMENT_SIZE_ACCESS};
use crate::mic::{SzMic, TransMic};
use crate::opcode::Opcode;
use crate::provisioning::{UnprovisionedStack, BEACON_PERIOD_MS, RETRANSMIT_PERIOD_MS};
use crate::queue::{QueueEntry, TransmitQueue};
use crate::replay::ReplayProtection;
use crate::secrets::Secrets;
use crate::sequence::Sequence;
use crate::upper::{Message, UpperAccessPDU, UpperDriver, UpperMetadata, UpperPDU};

verus! {

/// A provisioned node beacons its network identifier every 10 s.
pub const SECURE_BEACON_PERIOD_MS: u64 = 10000;

/// The retransmission pass cadence of the provisioned transmit queue.
pub const QUEUE_RETRANSMIT_PERIOD_MS: u64 = 200;

/// The sequence value a freshly provisioned node starts at, leaving
/// headroom above the traffic of provisioning itself.
pub const INITIAL_SEQUENCE: u32 = 800;

/// The per-device identity a provisioning session establishes.
#[derive(Copy, Clone, Debug, PartialEq, Eq, Structural)]
pub struct DeviceInfo {
    pub primary_unicast: UnicastAddress,
    pub number_of_elements: u8,
}

impl DeviceInfo {
    pub fn new(primary_unicast: UnicastAddress, number_of_elements: u8) -> (r: Self)
        ensures
            r.primary_unicast == primary_unicast,
            r.number_of_elements == number_of_elements,
    {
        Self { primary_unicast, number_of_elements }
    }

    /// The unicast address of the element at `index`: the primary
    /// address plus the index, for indices within the element count and
    /// the unicast range.
    pub fn local_element_address(&self, index: u8) -> (r: Option<UnicastAddress>)
        ensures
            index < self.number_of_elements && self.primary_unicast.0 + index < 0x8000
                ==> r == Some(UnicastAddress((self.primary_unicast.0 + index) as u16)),
            index >= self.number_of_elements || self.primary_unicast.0 + index >= 0x8000
                ==> r is None,
    {
        if index < self.number_of_elements {
            let addr: u32 = self.primary_unicast.0 as u32 + index as u32;
            if addr < 0x8000 {
                Some(UnicastAddress(addr as u16))
            } else {
                None
            }
        } else {
            None
        }
    }

    /// Whether a unicast address belongs to one of this node's
    /// elements.
    pub fn is_local_unicast(&self, addr: UnicastAddress) -> (r: bool)
        ensures
            r == (self.primary_unicast.0 <= addr.0 < self.primary_unicast.0
                + self.number_of_elements),
    {
        self.primary_unicast.0 <= addr.0
            && (addr.0 as u32) < self.primary_unicast.0 as u32 + self.number_of_elements as u32
    }
}

/// The network-wide state a provisioned node tracks.
#[derive(Copy, Clone, Debug, PartialEq, Eq, Structural)]
pub struct NetworkState {
    pub iv_index: IvIndex,
    pub iv_update: IvUpdateFlag,
}

impl NetworkState {
    pub fn new(iv_index: IvIndex, iv_update: IvUpdateFlag) -> (r: Self)
        ensures
            r.iv_index == iv_index,
            r.iv_update == iv_update,
    {
        Self { iv_index, iv_update }
    }
}

/// The foundation model's configuration state.
#[derive(Copy, Clone, Debug, PartialEq, Eq, Structural)]
pub struct FoundationConfiguration {
    pub default_ttl: Ttl,
}

impl FoundationConfiguration {
    pub fn default_ttl(&self) -> (r: Ttl)
        ensures
            r == self.default_ttl,
    {
        self.default_ttl
    }
}

impl Default for FoundationConfiguration {
    /// Mesh networks commonly default the TTL to 127.
    fn default() -> (r: Self)
        ensures
            r.default_ttl.0 == 127,
    {
        Self { default_ttl: Ttl(127) }
    }
}

/// The foundation models' persisted state.
#[derive(Copy, Clone, Debug, PartialEq, Eq, Structural)]
pub struct Foundation {
    pub configuration: FoundationConfiguration,
}

impl Foundation {
    pub fn configuration(&self) -> (r: &FoundationConfiguration)
        ensures
            r == self.configuration,
    {
        &self.configuration
    }

    pub fn configuration_mut(&mut self) -> (r: &mut FoundationConfiguration)
        ensures
            *r == old(self).configuration,
            final(self).configuration == *final(r),
    {
        &mut self.configuration
    }
}

impl Default for Foundation {
    fn default() -> (r: Self)
        ensures
            r.configuration.default_ttl.0 == 127,
    {
        Self { configuration: FoundationConfiguration { default_ttl: Ttl(127) } }
    }
}

/// The persisted configuration of an unprovisioned node.
#[derive(Copy, Clone, Debug)]
pub struct UnprovisionedConfiguration {
    pub uuid: Uuid,
}

impl UnprovisionedConfiguration {
    pub fn uuid(&self) -> (r: Uuid)
        ensures
            r == self.uuid,
    {
        self.uuid
    }
}

/// The persisted configuration of a provisioned node.
#[derive(Clone, Debug)]
pub struct ProvisionedConfiguration {
    pub network_state: NetworkState,
    pub secrets: Secrets,
    pub device_info: DeviceInfo,
    pub sequence: u32,
    pub foundation: Foundation,
}

impl ProvisionedConfiguration {
    pub fn sequence(&self) -> (r: u32)
        ensures
            r == self.sequence,
    {
        self.sequence
    }

    pub fn device_info(&self) -> (r: DeviceInfo)
        ensures
            r == self.device_info,
    {
        self.device_info
    }

    pub fn foundation(&self) -> (r: &Foundation)
        ensures
            r == self.foundation,
    {
        &self.foundation
    }
}

/// The whole persisted configuration: a tagged union of the two modes.
#[derive(Clone, Debug)]
pub enum Configuration {
    Unprovisioned(UnprovisionedConfiguration),
    Provisioned(ProvisionedConfiguration),
}

/// Field-wise sameness of secret stores.
pub open spec fn same_secrets(a: Secrets, b: Secrets) -> bool {
    &&& a.device_key == b.device_key
    &&& a.network_keys@ == b.network_keys@
    &&& a.application_keys@ == b.application_keys@
}

/// Copy a secret store field by field.
pub fn duplicate_secrets(s: &Secrets) -> (r: Secrets)
    ensures
        same_secrets(r, *s),
        s.wf() ==> r.wf(),
{
    let network_keys = s.network_keys.clone();
    let application_keys = s.application_keys.clone();
    proof {
        assert(network_keys@ =~= s.network_keys@);
        assert(application_keys@ =~= s.application_keys@);
    }
    Secrets { device_key: s.device_key, network_keys, application_keys }
}

/// The provisioned stack: the key material, network state and device
/// identity, with the label table, transmit queue and replay list that
/// the layers keep.
#[derive(Clone, Debug)]
pub struct ProvisionedStack {
    pub secrets: Secrets,
    pub network_state: NetworkState,
    pub device_info: DeviceInfo,
    pub upper: UpperDriver,
    pub transmit_queue: TransmitQueue,
    pub replay: ReplayProtection,
    pub reassembly: Reassembly,
    pub foundation: Foundation,
}

impl ProvisionedStack {
    /// Every layer's invariant.
    pub open spec fn wf(&self) -> bool {
        &&& self.secrets.wf()
        &&& self.upper.wf()
        &&& self.transmit_queue.wf()
        &&& self.replay.wf()
        &&& self.reassembly.wf()
    }

    /// A fresh provisioned stack with empty tables, a default-capacity
    /// replay list, and the given foundation state (preserved across
    /// rehydration from storage).
    pub fn new(device_info: DeviceInfo, secrets: Secrets, network_state: NetworkState,
        foundation: Foundation) -> (r: Self)
        requires
            secrets.wf(),
        ensures
            r.wf(),
            same_secrets(r.secrets, secrets),
            r.device_info == device_info,
            r.network_state == network_state,
            r.foundation == foundation,
    {
        Self {
            secrets: duplicate_secrets(&secrets),
            network_state,
            device_info,
            upper: UpperDriver::new(),
            transmit_queue: TransmitQueue::new(),
            replay: ReplayProtection::new(32),
            reassembly: Reassembly::new(),
            foundation,
        }
    }

    pub fn secrets(&self) -> (r: &Secrets)
        ensures
            r == self.secrets,
    {
        &self.secrets
    }

    pub fn device_info(&self) -> (r: DeviceInfo)
        ensures
            r == self.device_info,
    {
        self.device_info
    }

    pub fn network_state(&self) -> (r: NetworkState)
        ensures
            r == self.network_state,
    {
        self.network_state
    }

    /// Subscribe a label UUID; the table refuses it when full.
    pub fn add_label_uuid(&mut self, label_uuid: LabelUuid) -> (r: Result<(), DriverError>)
        requires
            old(self).wf(),
            label_uuid.wf(),
        ensures
            final(self).wf(),
            r is Ok ==> final(self).upper.holds_label(label_uuid),
            r is Err ==> r == Err::<(), DriverError>(DriverError::InsufficientSpace),
    {
        self.upper.add_label_uuid(label_uuid)
    }

    /// Unsubscribe a label UUID everywhere it occurs.
    pub fn remove_label_uuid(&mut self, label_uuid: LabelUuid)
        requires
            old(self).wf(),
        ensures
            final(self).wf(),
            !final(self).upper.holds_label(label_uuid),
    {
        self.upper.remove_label_uuid(label_uuid)
    }

    /// Decrypt one inbound upper-transport PDU into a message: a
    /// control PDU is surfaced as it stands, an access PDU is decrypted
    /// after the candidate labels of a virtual destination are
    /// attached, and an undecryptable or undecodable one is rejected.
    pub fn process_inbound_upper_pdu(&mut self, pdu: UpperPDU) -> (r: Result<
        Message,
        DriverError,
    >)
        requires
            old(self).wf(),
        ensures
            final(self).wf(),
            *final(self) == *old(self),
            pdu is Control ==> r is Ok && r->Ok_0 is Control,
            pdu is Access && r is Ok ==> ({
                &&& r->Ok_0 is Access
                &&& r->Ok_0->Access_0.src == pdu->Access_0.meta.src
                &&& r->Ok_0->Access_0.dst == pdu->Access_0.meta.dst
                &&& r->Ok_0->Access_0.ttl == pdu->Access_0.meta.ttl
                &&& r->Ok_0->Access_0.iv_index == pdu->Access_0.meta.iv_index
                &&& r->Ok_0->Access_0.opcode.valid()
                &&& Opcode::decoded(r->Ok_0->Access_0.emitted()) == Some((
                    r->Ok_0->Access_0.opcode,
                    r->Ok_0->Access_0.opcode.encoded().len() as int,
                ))
                &&& (pdu->Access_0.meta.akf_aid is Some ==> r->Ok_0->Access_0.key_handle
                    is Application)
                &&& (pdu->Access_0.meta.akf_aid is None ==> r->Ok_0->Access_0.key_handle
                    is Device)
            }),
            pdu is Access && r is Err ==> r == Err::<Message, DriverError>(
                DriverError::InvalidPDU,
            ) || r == Err::<Message, DriverError>(DriverError::ParseError(
                crate::error::ParseError::InvalidPDUFormat,
            )),
            ({
                &&& pdu matches UpperPDU::Access(a)
                &&& !(a.meta.dst is Virtual)
                &&& crate::upper::decryptable(old(self).secrets, a)
                &&& crate::upper::all_witnesses_decode(old(self).secrets, a)
            }) ==> r is Ok,
    {
        crate::upper::process_inbound_upper_pdu(&self.upper, &self.secrets, pdu)
    }

    /// Encrypt one outbound message into an upper-transport PDU,
    /// consuming a sequence number. Success is owed whenever the
    /// sequence space has room and the named key is held; rollover and
    /// an absent key surface their own errors.
    pub fn process_outbound_message(&mut self, sequence: &mut Sequence, message: &Message) -> (r:
        Result<UpperPDU, DriverError>)
        requires
            old(self).wf(),
            old(sequence).wf(),
            old(sequence).current < old(sequence).committed,
            message matches Message::Access(am) && !(am.key_handle is Network)
                && am.emitted().len() <= 379,
        ensures
            final(self).wf(),
            final(sequence).wf(),
            *final(self) == *old(self),
            old(sequence).current <= crate::sequence::SEQ_MAX
                && crate::upper::key_handle_available(
                old(self).secrets,
                message->Access_0.key_handle,
            ) ==> r is Ok,
            old(sequence).current > crate::sequence::SEQ_MAX ==> r == Err::<UpperPDU,
                DriverError>(DriverError::SeqRolloverError) && *final(sequence) == *old(
                sequence,
            ),
            r matches Ok(u) ==> (u matches UpperPDU::Access(pdu)
                && message matches Message::Access(am) && ({
                &&& Sequence::allocates(*old(sequence), *final(sequence), pdu.meta.seq)
                &&& pdu.payload@.len() == am.emitted().len()
                &&& pdu.meta.src == am.src
                &&& pdu.meta.dst == am.dst
                &&& pdu.meta.ttl == am.ttl
                &&& pdu.meta.iv_index == am.iv_index
                &&& pdu.transmic is Bit32
                &&& (am.key_handle is Device ==> pdu.meta.akf_aid is None)
                &&& (am.key_handle matches crate::device::KeyHandle::Application(h)
                    ==> pdu.meta.akf_aid == Some(h.1))
            })),
    {
        crate::upper::process_outbound_message(&self.secrets, sequence, message)
    }

    /// When the next secure network beacon is due.
    pub fn next_beacon_deadline(&self, last_beacon: u64) -> (r: u64)
        requires
            last_beacon <= 0xffff_ffff_ffff_0000u64,
        ensures
            r == last_beacon + SECURE_BEACON_PERIOD_MS,
    {
        last_beacon + SECURE_BEACON_PERIOD_MS
    }

    /// When the next transmit-queue pass is due.
    pub fn next_retransmit(&self, last_pass: u64) -> (r: u64)
        requires
            last_pass <= 0xffff_ffff_ffff_0000u64,
        ensures
            r == last_pass + QUEUE_RETRANSMIT_PERIOD_MS,
    {
        last_pass + QUEUE_RETRANSMIT_PERIOD_MS
    }
}

/// The persisted wire form of a configuration. An unprovisioned node
/// stores a tag octet and its UUID; a provisioned node stores the
/// network state, the raw key material (derived identifiers are
/// recomputed on load), the device info, the sequence high-water mark
/// and the foundation state, all big-endian.
pub open spec fn emitted_configuration(c: Configuration) -> Seq<u8> {
    match c {
        Configuration::Unprovisioned(u) => seq![0x00u8] + u.uuid.0@,
        Configuration::Provisioned(p) => seq![0x01u8] + seq![
            ((p.network_state.iv_index.0 >> 24) & 0xff) as u8,
            ((p.network_state.iv_index.0 >> 16) & 0xff) as u8,
            ((p.network_state.iv_index.0 >> 8) & 0xff) as u8,
            (p.network_state.iv_index.0 & 0xff) as u8,
            (if p.network_state.iv_update is InProgress {
                0x01u8
            } else {
                0x00u8
            }),
        ] + p.secrets.device_key@ + emitted_key_slots(p.secrets.network_keys@)
            + emitted_app_slots(p.secrets.application_keys@) + seq![
            ((p.device_info.primary_unicast.0 >> 8) & 0xff) as u8,
            (p.device_info.primary_unicast.0 & 0xff) as u8,
            p.device_info.number_of_elements,
            ((p.sequence >> 24) & 0xff) as u8,
            ((p.sequence >> 16) & 0xff) as u8,
            ((p.sequence >> 8) & 0xff) as u8,
            (p.sequence & 0xff) as u8,
            p.foundation.configuration.default_ttl.0,
        ],
    }
}

/// The network-key table's wire form: one presence octet and the raw
/// key bytes per slot.
pub open spec fn emitted_key_slots(slots: Seq<Option<crate::secrets::NetworkKey>>) -> Seq<u8>
    decreases slots.len(),
{
    if slots.len() == 0 {
        Seq::empty()
    } else {
        (match slots[0] {
            Some(k) => seq![0x01u8] + k.key@,
            None => seq![0x00u8] + Seq::new(16, |i: int| 0u8),
        }) + emitted_key_slots(slots.drop_first())
    }
}

/// The application-key table's wire form: a presence octet, the raw key
/// bytes and the bound network index per slot.
pub open spec fn emitted_app_slots(slots: Seq<Option<crate::secrets::ApplicationKey>>) -> Seq<u8>
    decreases slots.len(),
{
    if slots.len() == 0 {
        Seq::empty()
    } else {
        (match slots[0] {
            Some(k) => seq![0x01u8] + k.key@ + seq![k.bound_net_index],
            None => seq![0x00u8] + Seq::new(16, |i: int| 0u8) + seq![0u8],
        }) + emitted_app_slots(slots.drop_first())
    }
}

/// Appending one slot extends the table's wire form by that slot's
/// bytes.
proof fn lemma_key_slots_push(s: Seq<Option<crate::secrets::NetworkKey>>, x: Option<
    crate::secrets::NetworkKey>)
    ensures
        emitted_key_slots(s.push(x)) == emitted_key_slots(s) + (match x {
            Some(k) => seq![0x01u8] + k.key@,
            None => seq![0x00u8] + Seq::new(16, |i: int| 0u8),
        }),
    decreases s.len(),
{
    let t = s.push(x);
    if s.len() == 0 {
        assert(t.drop_first() =~= Seq::<Option<crate::secrets::NetworkKey>>::empty());
        assert(emitted_key_slots(t.drop_first()) =~= Seq::<u8>::empty());
        assert(emitted_key_slots(t) =~= emitted_key_slots(s) + (match x {
            Some(k) => seq![0x01u8] + k.key@,
            None => seq![0x00u8] + Seq::new(16, |i: int| 0u8),
        }));
    } else {
        assert(t[0] == s[0]);
        assert(t.drop_first() =~= s.drop_first().push(x));
        lemma_key_slots_push(s.drop_first(), x);
        assert(emitted_key_slots(t) =~= emitted_key_slots(s) + (match x {
            Some(k) => seq![0x01u8] + k.key@,
            None => seq![0x00u8] + Seq::new(16, |i: int| 0u8),
        }));
    }
}

/// As `lemma_key_slots_push`, for the application-key table.
proof fn lemma_app_slots_push(s: Seq<Option<crate::secrets::ApplicationKey>>, x: Option<
    crate::secrets::ApplicationKey>)
    ensures
        emitted_app_slots(s.push(x)) == emitted_app_slots(s) + (match x {
            Some(k) => seq![0x01u8] + k.key@ + seq![k.bound_net_index],
            None => seq![0x00u8] + Seq::new(16, |i: int| 0u8) + seq![0u8],
        }),
    decreases s.len(),
{
    let t = s.push(x);
    if s.len() == 0 {
        assert(t.drop_first() =~= Seq::<Option<crate::secrets::ApplicationKey>>::empty());
        assert(emitted_app_slots(t.drop_first()) =~= Seq::<u8>::empty());
        assert(emitted_app_slots(t) =~= emitted_app_slots(s) + (match x {
            Some(k) => seq![0x01u8] + k.key@ + seq![k.bound_net_index],
            None => seq![0x00u8] + Seq::new(16, |i: int| 0u8) + seq![0u8],
        }));
    } else {
        assert(t[0] == s[0]);
        assert(t.drop_first() =~= s.drop_first().push(x));
        lemma_app_slots_push(s.drop_first(), x);
        assert(emitted_app_slots(t) =~= emitted_app_slots(s) + (match x {
            Some(k) => seq![0x01u8] + k.key@ + seq![k.bound_net_index],
            None => seq![0x00u8] + Seq::new(16, |i: int| 0u8) + seq![0u8],
        }));
    }
}

/// Serialise a configuration into its persisted wire form.
pub fn emit_configuration(c: &Configuration) -> (r: Vec<u8>)
    ensures
        r@ == emitted_configuration(*c),
{
    let mut out: Vec<u8> = Vec::new();
    match c {
        Configuration::Unprovisioned(u) => {
            out.push(0x00);
            crate::crypto::push_all(&mut out, u.uuid.0.as_slice());
            assert(out@ =~= emitted_configuration(*c));
        }
        Configuration::Provisioned(p) => {
            out.push(0x01);
            let iv: u32 = p.network_state.iv_index.0;
            out.push(((iv >> 24) & 0xff) as u8);
            out.push(((iv >> 16) & 0xff) as u8);
            out.push(((iv >> 8) & 0xff) as u8);
            out.push((iv & 0xff) as u8);
            out.push(match p.network_state.iv_update {
                IvUpdateFlag::InProgress => 0x01,
                IvUpdateFlag::Normal => 0x00,
            });
            crate::crypto::push_all(&mut out, p.secrets.device_key.as_slice());
            let ghost head = out@;
            let mut i: usize = 0;
            proof {
                assert(p.secrets.network_keys@.subrange(0, 0)
                    =~= Seq::<Option<crate::secrets::NetworkKey>>::empty());
                assert(emitted_key_slots(p.secrets.network_keys@.subrange(0, 0))
                    =~= Seq::<u8>::empty());
                assert(out@ =~= head + emitted_key_slots(
                    p.secrets.network_keys@.subrange(0, 0)));
            }
            while i < p.secrets.network_keys.len()
                invariant
                    i <= p.secrets.network_keys@.len(),
                    out@ == head + emitted_key_slots(p.secrets.network_keys@.subrange(
                        0,
                        i as int,
                    )),
                decreases p.secrets.network_keys@.len() - i,
            {
                match &p.secrets.network_keys[i] {
                    Some(k) => {
                        out.push(0x01);
                        crate::crypto::push_all(&mut out, k.key.as_slice());
                    }
                    None => {
                        out.push(0x00);
                        let zero: [u8; 16] = [0u8; 16];
                        crate::crypto::push_all(&mut out, zero.as_slice());
                        assert(zero@ =~= Seq::new(16, |j: int| 0u8));
                    }
                }
                proof {
                    let slots = p.secrets.network_keys@;
                    assert(slots.subrange(0, i + 1 as int)
                        =~= slots.subrange(0, i as int).push(slots[i as int]));
                    lemma_key_slots_push(slots.subrange(0, i as int), slots[i as int]);
                    assert(out@ =~= head + emitted_key_slots(slots.subrange(0, i + 1 as int)));
                }
                i = i + 1;
            }
            proof {
                assert(p.secrets.network_keys@.subrange(
                    0,
                    p.secrets.network_keys@.len() as int,
                ) =~= p.secrets.network_keys@);
            }
            let ghost head2 = out@;
            let mut i: usize = 0;
            proof {
                assert(p.secrets.application_keys@.subrange(0, 0)
                    =~= Seq::<Option<crate::secrets::ApplicationKey>>::empty());
                assert(emitted_app_slots(p.secrets.application_keys@.subrange(0, 0))
                    =~= Seq::<u8>::empty());
                assert(out@ =~= head2 + emitted_app_slots(
                    p.secrets.application_keys@.subrange(0, 0)));
            }
            while i < p.secrets.application_keys.len()
                invariant
                    i <= p.secrets.application_keys@.len(),
                    out@ == head2 + emitted_app_slots(p.secrets.application_keys@.subrange(
                        0,
                        i as int,
                    )),
                decreases p.secrets.application_keys@.len() - i,
            {
                match &p.secrets.application_keys[i] {
                    Some(k) => {
                        out.push(0x01);
                        crate::crypto::push_all(&mut out, k.key.as_slice());
                        out.push(k.bound_net_index);
                    }
                    None => {
                        out.push(0x00);
                        let zero: [u8; 16] = [0u8; 16];
                        crate::crypto::push_all(&mut out, zero.as_slice());
                        out.push(0x00);
                        assert(zero@ =~= Seq::new(16, |j: int| 0u8));
                    }
                }
                proof {
                    let slots = p.secrets.application_keys@;
                    assert(slots.subrange(0, i + 1 as int)
                        =~= slots.subrange(0, i as int).push(slots[i as int]));
                    lemma_app_slots_push(slots.subrange(0, i as int), slots[i as int]);
                    assert(out@ =~= head2 + emitted_app_slots(slots.subrange(
                        0,
                        i + 1 as int,
                    )));
                }
                i = i + 1;
            }
            proof {
                assert(p.secrets.application_keys@.subrange(
                    0,
                    p.secrets.application_keys@.len() as int,
                ) =~= p.secrets.application_keys@);
            }
            out.push(((p.device_info.primary_unicast.0 >> 8) & 0xff) as u8);
            out.push((p.device_info.primary_unicast.0 & 0xff) as u8);
            out.push(p.device_info.number_of_elements);
            out.push(((p.sequence >> 24) & 0xff) as u8);
            out.push(((p.sequence >> 16) & 0xff) as u8);
            out.push(((p.sequence >> 8) & 0xff) as u8);
            out.push((p.sequence & 0xff) as u8);
            out.push(p.foundation.configuration.default_ttl.0);
            proof {
                assert(out@ =~= emitted_configuration(*c));
            }
        }
    }
    out
}

/// Read the sixteen bytes at `at` and demand they are all zero, as an
/// absent key slot stores.
fn read_zero_block(data: &[u8], at: usize) -> (r: Result<(), ParseError>)
    requires
        at + 16 <= data@.len(),
    ensures
        r is Ok <==> data@.subrange(at as int, at + 16) == Seq::new(16, |i: int| 0u8),
{
    let n: usize = data.len();
    let mut i: usize = 0;
    while i < 16
        invariant
            at + 16 <= n,
            n == data@.len(),
            i <= 16,
            forall|j: int| 0 <= j < i ==> #[trigger] data@[at + j] == 0u8,
        decreases 16 - i,
    {
        if data[at + i] != 0 {
            proof {
                assert(data@.subrange(at as int, at + 16)[i as int] != 0u8);
                assert(data@.subrange(at as int, at + 16) != Seq::new(16, |j: int| 0u8));
            }
            return Err(ParseError::InvalidValue);
        }
        i = i + 1;
    }
    proof {
        assert forall|j: int| 0 <= j < 16
            implies #[trigger] data@.subrange(at as int, at + 16)[j] == 0u8 by {
            assert(data@[at + j] == 0u8);
        }
        assert(data@.subrange(at as int, at + 16) =~= Seq::new(16, |j: int| 0u8));
    }
    Ok(())
}

/// Read sixteen bytes at `at` into an array.
fn read_key_block(data: &[u8], at: usize) -> (r: [u8; 16])
    requires
        at + 16 <= data@.len(),
    ensures
        r@ == data@.subrange(at as int, at + 16),
{
    let r: [u8; 16] = [
        data[at],
        data[at + 1],
        data[at + 2],
        data[at + 3],
        data[at + 4],
        data[at + 5],
        data[at + 6],
        data[at + 7],
        data[at + 8],
        data[at + 9],
        data[at + 10],
        data[at + 11],
        data[at + 12],
        data[at + 13],
        data[at + 14],
        data[at + 15],
    ];
    assert(r@ =~= data@.subrange(at as int, at + 16));
    r
}

/// Parse a persisted configuration. A parsed configuration reproduces
/// the input exactly (serialising it yields the same bytes), its key
/// tables carry freshly recomputed derivations, and its addresses are
/// range-checked.
pub fn parse_configuration(data: &[u8]) -> (r: Result<Configuration, ParseError>)
    ensures
        r matches Ok(c) ==> emitted_configuration(c) == data@,
        r matches Ok(Configuration::Provisioned(p)) ==> p.secrets.wf(),
{
    if data.len() < 1 {
        return Err(ParseError::InvalidLength);
    }
    if data[0] == 0x00 {
        if data.len() != 17 {
            return Err(ParseError::InvalidLength);
        }
        let uuid: [u8; 16] = read_key_block(data, 1);
        let c = Configuration::Unprovisioned(UnprovisionedConfiguration {
            uuid: Uuid(uuid),
        });
        proof {
            assert(emitted_configuration(c) =~= data@);
        }
        Ok(c)
    } else if data[0] == 0x01 {
        if data.len() != 170 {
            return Err(ParseError::InvalidLength);
        }
        let iv: u32 = (data[1] as u32) << 24 | (data[2] as u32) << 16 | (data[3] as u32) << 8
            | (data[4] as u32);
        let iv_update = match data[5] {
            0x00 => IvUpdateFlag::Normal,
            0x01 => IvUpdateFlag::InProgress,
            _ => {
                return Err(ParseError::InvalidValue);
            }
        };
        let device_key: [u8; 16] = read_key_block(data, 6);

        let mut network_keys: Vec<Option<crate::secrets::NetworkKey>> = Vec::new();
        let mut i: usize = 0;
        proof {
            assert(network_keys@.subrange(0, 0)
                =~= Seq::<Option<crate::secrets::NetworkKey>>::empty());
            assert(emitted_key_slots(network_keys@) =~= data@.subrange(22, 22));
        }
        while i < 4
            invariant
                data@.len() == 170,
                i <= 4,
                network_keys@.len() == i,
                emitted_key_slots(network_keys@) == data@.subrange(22, 22 + 17 * i),
                forall|j: int| 0 <= j < i
                    ==> ((#[trigger] network_keys@[j]) matches Some(k) ==> k.wf()),
            decreases 4 - i,
        {
            let at: usize = 22 + 17 * i;
            let ghost pre = network_keys@;
            let slot: Option<crate::secrets::NetworkKey> = match data[at] {
                0x01 => {
                    let key: [u8; 16] = read_key_block(data, at + 1);
                    Some(crate::secrets::NetworkKey::new(key))
                }
                0x00 => {
                    if read_zero_block(data, at + 1).is_err() {
                        return Err(ParseError::InvalidValue);
                    }
                    None
                }
                _ => {
                    return Err(ParseError::InvalidValue);
                }
            };
            network_keys.push(slot);
            proof {
                lemma_key_slots_push(pre, slot);
                assert(data@.subrange(22, 22 + 17 * (i + 1)) =~= data@.subrange(
                    22,
                    22 + 17 * i as int,
                ) + data@.subrange(at as int, at + 17));
                assert((match slot {
                    Some(k) => seq![0x01u8] + k.key@,
                    None => seq![0x00u8] + Seq::new(16, |j: int| 0u8),
                }) =~= data@.subrange(at as int, at + 17));
            }
            i = i + 1;
        }

        let mut application_keys: Vec<Option<crate::secrets::ApplicationKey>> = Vec::new();
        let mut i: usize = 0;
        proof {
            assert(emitted_app_slots(application_keys@) =~= data@.subrange(90, 90));
        }
        while i < 4
            invariant
                data@.len() == 170,
                i <= 4,
                application_keys@.len() == i,
                emitted_app_slots(application_keys@) == data@.subrange(90, 90 + 18 * i),
                forall|j: int| 0 <= j < i
                    ==> ((#[trigger] application_keys@[j]) matches Some(k) ==> k.wf()),
            decreases 4 - i,
        {
            let at: usize = 90 + 18 * i;
            let ghost pre = application_keys@;
            let slot: Option<crate::secrets::ApplicationKey> = match data[at] {
                0x01 => {
                    let key: [u8; 16] = read_key_block(data, at + 1);
                    Some(crate::secrets::ApplicationKey::new(key, data[at + 17]))
                }
                0x00 => {
                    if read_zero_block(data, at + 1).is_err() {
                        return Err(ParseError::InvalidValue);
                    }
                    if data[at + 17] != 0 {
                        return Err(ParseError::InvalidValue);
                    }
                    None
                }
                _ => {
                    return Err(ParseError::InvalidValue);
                }
            };
            application_keys.push(slot);
            proof {
                lemma_app_slots_push(pre, slot);
                assert(data@.subrange(90, 90 + 18 * (i + 1)) =~= data@.subrange(
                    90,
                    90 + 18 * i as int,
                ) + data@.subrange(at as int, at + 18));
                assert((match slot {
                    Some(k) => seq![0x01u8] + k.key@ + seq![k.bound_net_index],
                    None => seq![0x00u8] + Seq::new(16, |j: int| 0u8) + seq![0u8],
                }) =~= data@.subrange(at as int, at + 18));
            }
            i = i + 1;
        }

        let primary_raw: u16 = (data[162] as u16) << 8 | (data[163] as u16);
        let primary = match UnicastAddress::parse(primary_raw) {
            Ok(a) => a,
            Err(_) => {
                return Err(ParseError::InvalidValue);
            }
        };
        let number_of_elements: u8 = data[164];
        let sequence: u32 = (data[165] as u32) << 24 | (data[166] as u32) << 16 | (data[167]
            as u32) << 8 | (data[168] as u32);
        let default_ttl: u8 = data[169];

        let c = Configuration::Provisioned(ProvisionedConfiguration {
            network_state: NetworkState {
                iv_index: IvIndex(iv),
                iv_update,
            },
            secrets: Secrets { device_key, network_keys, application_keys },
            device_info: DeviceInfo {
                primary_unicast: primary,
                number_of_elements,
            },
            sequence,
            foundation: Foundation {
                configuration: FoundationConfiguration { default_ttl: Ttl(default_ttl) },
            },
        });
        proof {
            let b1: u8 = data@[1];
            let b2: u8 = data@[2];
            let b3: u8 = data@[3];
            let b4: u8 = data@[4];
            let p1: u8 = data@[162];
            let p2: u8 = data@[163];
            let s1b: u8 = data@[165];
            let s2b: u8 = data@[166];
            let s3b: u8 = data@[167];
            let s4b: u8 = data@[168];
            crate::network::lemma_wire_decode(0, 0, 0, 0, 0, 0, 0, 0, p1, p2, primary_raw,
                b1, b2, b3, b4, iv);
            crate::network::lemma_wire_decode(0, 0, 0, 0, 0, 0, 0, 0, p1, p2, primary_raw,
                s1b, s2b, s3b, s4b, sequence);
            assert(emitted_configuration(c) =~= data@);
        }
        Ok(c)
    } else {
        Err(ParseError::InvalidValue)
    }
}

/// A store holding exactly one network key, at the first slot.
pub open spec fn single_network_key(secrets: Secrets) -> bool {
    &&& secrets.network_keys@[0] is Some
    &&& forall|j: int| 1 <= j < crate::secrets::KEY_STORE_MAX
        ==> (#[trigger] secrets.network_keys@[j]) is None
}

/// The IV index a frame with parity `ivi` is processed under.
pub open spec fn accepted_iv(state: NetworkState, ivi: crate::common::Ivi) -> IvIndex {
    if state.iv_index.ivi_spec() == ivi {
        state.iv_index
    } else {
        state.iv_index.subtract_spec(1)
    }
}

/// A wire frame carrying an unsegmented device-key access PDU for this
/// node: it is the network encryption, under the single stored network
/// key and the IV its parity selects, of an unsegmented lower-transport
/// PDU whose upper-transport ciphertext the device key decrypts to a
/// well-formed access payload. Such a frame, when its (iv, seq) pair is
/// fresh, is owed delivery.
pub open spec fn deliverable_device_frame(
    s: ProvisionedStack,
    frame: Seq<u8>,
    w_ivi: crate::common::Ivi,
    w_ttl: Ttl,
    w_seq: SequenceNumber,
    w_src: UnicastAddress,
    w_dst: crate::address::Address,
    upper: Seq<u8>,
    m: Seq<u8>,
) -> bool {
    let key0 = s.secrets.network_keys@[0]->Some_0;
    let iv = accepted_iv(s.network_state, w_ivi);
    let nonce = crate::crypto::nonce_layout(0x02, 0x00, w_seq.0, w_src.0, w_dst.to_u16(), iv.0);
    &&& crate::network::frame_source(key0, iv, frame, w_ivi, crate::common::Ctl::Access, w_ttl,
        w_seq, w_src, w_dst, crate::lower::unseg_access_bytes(None, upper))
    &&& !(w_dst is Virtual)
    &&& upper == crate::crypto::ccm32_of(s.secrets.device_key@, nonce, Seq::empty(), m)
    &&& upper.len() == m.len() + 4
    &&& Opcode::decoded(m) is Some
    &&& (forall|m2: Seq<u8>| upper == crate::crypto::ccm32_of(s.secrets.device_key@, nonce,
        Seq::empty(), m2) ==> Opcode::decoded(m2) is Some)
}

/// What a deliverable frame pins the decrypted network PDU to: under a
/// single stored key, network decryption of such a frame returns
/// exactly the witnessed fields.
proof fn lemma_inbound_pinned(
    s0: ProvisionedStack,
    frame: Seq<u8>,
    ivi_x: crate::common::Ivi,
    iv_x: IvIndex,
    pdu: crate::network::CleartextNetworkPDU,
)
    requires
        s0.wf(),
        single_network_key(s0.secrets),
        exists|w_ivi: crate::common::Ivi, w_ttl: Ttl, w_seq: SequenceNumber,
            w_src: UnicastAddress, w_dst: crate::address::Address, upper: Seq<u8>,
            m: Seq<u8>| #[trigger] deliverable_device_frame(s0, frame, w_ivi, w_ttl, w_seq,
            w_src, w_dst, upper, m),
        frame.len() >= 1,
        ivi_x == (if frame[0] >> 7 == 1 {
            crate::common::Ivi::One
        } else {
            crate::common::Ivi::Zero
        }),
        iv_x == accepted_iv(s0.network_state, ivi_x),
        pdu.network_key_handle.0 < crate::secrets::KEY_STORE_MAX,
        s0.secrets.network_keys@[pdu.network_key_handle.0 as int] is Some,
        forall|w_ivi: crate::common::Ivi, w_ctl: crate::common::Ctl, w_ttl: Ttl,
            w_seq: SequenceNumber, w_src: UnicastAddress, w_dst: crate::address::Address,
            w_tp: Seq<u8>| #[trigger] crate::network::frame_source(
            s0.secrets.network_keys@[pdu.network_key_handle.0 as int]->Some_0,
            iv_x,
            frame,
            w_ivi,
            w_ctl,
            w_ttl,
            w_seq,
            w_src,
            w_dst,
            w_tp,
        ) ==> (pdu.ivi == w_ivi && pdu.ctl == w_ctl && pdu.ttl == w_ttl && pdu.seq == w_seq
            && pdu.src == w_src && pdu.dst == w_dst && pdu.transport_pdu@ == w_tp),
    ensures
        forall|w_ivi: crate::common::Ivi, w_ttl: Ttl, w_seq: SequenceNumber,
            w_src: UnicastAddress, w_dst: crate::address::Address, upper: Seq<u8>,
            m: Seq<u8>| #[trigger] deliverable_device_frame(s0, frame, w_ivi, w_ttl, w_seq,
            w_src, w_dst, upper, m) ==> ({
            &&& pdu.ivi == w_ivi
            &&& pdu.ctl == crate::common::Ctl::Access
            &&& pdu.ttl == w_ttl
            &&& pdu.seq == w_seq
            &&& pdu.src == w_src
            &&& pdu.dst == w_dst
            &&& pdu.transport_pdu@ == crate::lower::unseg_access_bytes(None, upper)
            &&& iv_x == accepted_iv(s0.network_state, w_ivi)
        }),
{
    assert forall|w_ivi: crate::common::Ivi, w_ttl: Ttl, w_seq: SequenceNumber,
        w_src: UnicastAddress, w_dst: crate::address::Address, upper: Seq<u8>, m: Seq<u8>|
        #[trigger] deliverable_device_frame(s0, frame, w_ivi, w_ttl, w_seq, w_src, w_dst,
        upper, m) implies ({
        &&& pdu.ivi == w_ivi
        &&& pdu.ctl == crate::common::Ctl::Access
        &&& pdu.ttl == w_ttl
        &&& pdu.seq == w_seq
        &&& pdu.src == w_src
        &&& pdu.dst == w_dst
        &&& pdu.transport_pdu@ == crate::lower::unseg_access_bytes(None, upper)
        &&& iv_x == accepted_iv(s0.network_state, w_ivi)
    }) by {
        let key0 = s0.secrets.network_keys@[0]->Some_0;
        let iv_w = accepted_iv(s0.network_state, w_ivi);
        crate::network::lemma_frame_decomposition(key0, iv_w, frame, w_ivi,
            crate::common::Ctl::Access, w_ttl, w_seq, w_src, w_dst,
            crate::lower::unseg_access_bytes(None, upper));
        let y: u8 = crate::crypto::k2_t1(key0.key@, seq![0x00u8])[15];
        assert(key0.nid == (y & 0x7fu8));
        crate::network::lemma_wire_encode(key0.nid, 0, 0, 0);
        assert(ivi_x == w_ivi);
        assert(iv_x == iv_w);
        assert(pdu.network_key_handle.0 == 0);
        assert(crate::network::frame_source(
            s0.secrets.network_keys@[pdu.network_key_handle.0 as int]->Some_0,
            iv_x,
            frame,
            w_ivi,
            crate::common::Ctl::Access,
            w_ttl,
            w_seq,
            w_src,
            w_dst,
            crate::lower::unseg_access_bytes(None, upper),
        ));
    }
}

/// Whether `frame` is one wire frame of a retransmission of the
/// access PDU `a` under the stored key and transmission IV: either the
/// whole PDU unsegmented under some fresh sequence number, or one
/// SegO-indexed segment under the PDU's original SeqZero.
pub open spec fn retransmission_frame(
    key0: crate::secrets::NetworkKey,
    tx_iv: IvIndex,
    a: crate::upper::UpperAccessPDU,
    sq: u32,
    so: int,
    frame: Seq<u8>,
) -> bool {
    let ct = a.payload@ + a.transmic.bytes();
    let akf = (match a.meta.akf_aid {
        Some(aid) => Some((aid.0 & 0x3f) as u8),
        None => None::<u8>,
    });
    ||| (ct.len() <= 15 && so == -1 && frame == crate::network::frame_of(
        key0,
        tx_iv,
        tx_iv.ivi_spec(),
        crate::common::Ctl::Access,
        a.meta.ttl,
        SequenceNumber(sq),
        a.meta.src,
        a.meta.dst,
        crate::lower::unseg_access_bytes(akf, ct),
    ))
    ||| ({
        let parts = crate::lower::segments_of(ct, SEGMENT_SIZE_ACCESS as nat);
        &&& ct.len() > 15
        &&& 0 <= so < parts.len()
        &&& frame == crate::network::frame_of(
            key0,
            tx_iv,
            tx_iv.ivi_spec(),
            crate::common::Ctl::Access,
            a.meta.ttl,
            SequenceNumber(sq),
            a.meta.src,
            a.meta.dst,
            crate::lower::seg_access_bytes(
                akf,
                SzMic::Bit32,
                (a.meta.seq.0 & 0x1fff) as u16,
                so as u8,
                (parts.len() - 1) as u8,
                parts[so],
            ),
        )
    })
}

/// Whether `frame` is a retransmission frame of one of the pass's due
/// PDUs.
pub open spec fn is_retransmission_of(
    key0: crate::secrets::NetworkKey,
    tx_iv: IvIndex,
    oldq: Seq<Option<QueueEntry>>,
    frame: Seq<u8>,
) -> bool {
    exists|j: int, sq: u32, so: int| ({
        &&& 0 <= j < crate::queue::yielded_pdus(oldq).len()
        &&& crate::queue::yielded_pdus(oldq)[j] is Access
        &&& #[trigger] retransmission_frame(
            key0,
            tx_iv,
            crate::queue::yielded_pdus(oldq)[j]->Access_0,
            sq,
            so,
            frame,
        )
    })
}

/// What processing one inbound network frame produced: possibly a
/// decrypted message for dispatch, and possibly a block-ack to send
/// back to the segment's source named beside it.
pub struct InboundResult {
    pub message: Option<Message>,
    pub block_ack: Option<(crate::lower::BlockAck, UnicastAddress)>,
}

impl ProvisionedStack {
    /// Process one inbound network frame through every layer: network
    /// decryption under the IV index the frame's parity selects, the
    /// replay check, lower-transport parsing (reassembling segments),
    /// and upper-transport decryption. The replay list is updated only
    /// for a frame the upper layers fully decrypt, so forged frames
    /// cannot poison it; a frame that fails any check is dropped with
    /// a `None` message.
    pub fn process_inbound_network_pdu(&mut self, frame: &[u8], now: u64) -> (r: Result<
        InboundResult,
        DriverError,
    >)
        requires
            old(self).wf(),
            now <= 0xffff_ffff_ffff_0000u64,
        ensures
            final(self).wf(),
            r matches Ok(res) && res.message is None
                ==> final(self).replay == old(self).replay,
            r is Err ==> final(self).replay == old(self).replay,
            ({
                &&& single_network_key(old(self).secrets)
                &&& exists|w_ivi: crate::common::Ivi, w_ttl: Ttl, w_seq: SequenceNumber,
                    w_src: UnicastAddress, w_dst: crate::address::Address, upper: Seq<u8>,
                    m: Seq<u8>| ({
                    &&& #[trigger] deliverable_device_frame(*old(self), frame@, w_ivi, w_ttl,
                        w_seq, w_src, w_dst, upper, m)
                    &&& old(self).replay.accepts(
                        w_src.0,
                        accepted_iv(old(self).network_state, w_ivi).0,
                        w_seq.0,
                    )
                })
            }) ==> (r matches Ok(res) && res.message is Some && exists|
                w_ivi: crate::common::Ivi, w_ttl: Ttl, w_seq: SequenceNumber,
                w_src: UnicastAddress, w_dst: crate::address::Address, upper: Seq<u8>,
                m: Seq<u8>| ({
                &&& #[trigger] deliverable_device_frame(*old(self), frame@, w_ivi, w_ttl,
                    w_seq, w_src, w_dst, upper, m)
                &&& final(self).replay.prior(w_src.0) == Some((
                    accepted_iv(old(self).network_state, w_ivi).0,
                    w_seq.0,
                ))
            })),
            ({
                &&& single_network_key(old(self).secrets)
                &&& exists|w_ivi: crate::common::Ivi, w_ttl: Ttl, w_seq: SequenceNumber,
                    w_src: UnicastAddress, w_dst: crate::address::Address, upper: Seq<u8>,
                    m: Seq<u8>| ({
                    &&& #[trigger] deliverable_device_frame(*old(self), frame@, w_ivi, w_ttl,
                        w_seq, w_src, w_dst, upper, m)
                    &&& !old(self).replay.accepts(
                        w_src.0,
                        accepted_iv(old(self).network_state, w_ivi).0,
                        w_seq.0,
                    )
                })
            }) ==> (r matches Ok(res) && res.message is None && res.block_ack is None
                && *final(self) == *old(self)),
    {
        let ghost hyp_any = single_network_key(old(self).secrets) && (exists|
            w_ivi: crate::common::Ivi, w_ttl: Ttl, w_seq: SequenceNumber,
            w_src: UnicastAddress, w_dst: crate::address::Address, upper: Seq<u8>, m: Seq<u8>|
            #[trigger] deliverable_device_frame(*old(self), frame@, w_ivi, w_ttl, w_seq,
            w_src, w_dst, upper, m));
        if frame.len() < 1 {
            proof {
                if hyp_any {
                    let (w_ivi, w_ttl, w_seq, w_src, w_dst, w_upper, w_m) = choose|
                        w_ivi: crate::common::Ivi, w_ttl: Ttl, w_seq: SequenceNumber,
                        w_src: UnicastAddress, w_dst: crate::address::Address,
                        w_upper: Seq<u8>, w_m: Seq<u8>| #[trigger] deliverable_device_frame(
                        *old(self), frame@, w_ivi, w_ttl, w_seq, w_src, w_dst, w_upper, w_m);
                    assert(false);
                }
            }
            return Err(DriverError::InvalidPDU);
        }
        let ivi = if frame[0] >> 7 == 1 {
            crate::common::Ivi::One
        } else {
            crate::common::Ivi::Zero
        };
        let iv = self.network_state.iv_index.accepted_iv_index(ivi);
        proof {
            assert(iv == accepted_iv(old(self).network_state, ivi));
        }
        let pdu = match crate::network::network_decrypt(&self.secrets, iv, frame) {
            Ok(pdu) => pdu,
            Err(_) => {
                proof {
                    if hyp_any {
                        let (w_ivi, w_ttl, w_seq, w_src, w_dst, w_upper, w_m) = choose|
                            w_ivi: crate::common::Ivi, w_ttl: Ttl, w_seq: SequenceNumber,
                            w_src: UnicastAddress, w_dst: crate::address::Address,
                            w_upper: Seq<u8>, w_m: Seq<u8>| #[trigger]
                            deliverable_device_frame(*old(self), frame@, w_ivi, w_ttl, w_seq,
                            w_src, w_dst, w_upper, w_m);
                        let key0 = old(self).secrets.network_keys@[0]->Some_0;
                        crate::network::lemma_frame_decomposition(
                            key0,
                            accepted_iv(old(self).network_state, w_ivi),
                            frame@,
                            w_ivi,
                            crate::common::Ctl::Access,
                            w_ttl,
                            w_seq,
                            w_src,
                            w_dst,
                            crate::lower::unseg_access_bytes(None, w_upper),
                        );
                        let y: u8 = crate::crypto::k2_t1(key0.key@, seq![0x00u8])[15];
                        assert(key0.nid == (y & 0x7fu8));
                        crate::network::lemma_wire_encode(key0.nid, 0, 0, 0);
                        assert(ivi == w_ivi);
                        assert(iv == accepted_iv(old(self).network_state, w_ivi));
                        assert(crate::network::decryptable_frame(key0, iv, frame@));
                        assert(false);
                    }
                }
                // no stored key authenticates the frame: silent drop
                return Ok(InboundResult { message: None, block_ack: None });
            }
        };
        proof {
            if hyp_any {
                lemma_inbound_pinned(*old(self), frame@, ivi, iv, pdu);
            }
            assert(hyp_any ==> (forall|w_ivi: crate::common::Ivi, w_ttl: Ttl,
                w_seq: SequenceNumber, w_src: UnicastAddress, w_dst: crate::address::Address,
                upper: Seq<u8>, m: Seq<u8>| #[trigger] deliverable_device_frame(*old(self),
                frame@, w_ivi, w_ttl, w_seq, w_src, w_dst, upper, m) ==> ({
                &&& pdu.ivi == w_ivi
                &&& pdu.ctl == crate::common::Ctl::Access
                &&& pdu.ttl == w_ttl
                &&& pdu.seq == w_seq
                &&& pdu.src == w_src
                &&& pdu.dst == w_dst
                &&& pdu.transport_pdu@ == crate::lower::unseg_access_bytes(None, upper)
                &&& iv == accepted_iv(old(self).network_state, w_ivi)
            })));
        }
        let fresh: bool = self.replay.check(pdu.src, iv, pdu.seq);
        if !fresh {
            proof {
                if hyp_any {
                    let (w_ivi, w_ttl, w_seq, w_src, w_dst, w_upper, w_m) = choose|
                        w_ivi: crate::common::Ivi, w_ttl: Ttl, w_seq: SequenceNumber,
                        w_src: UnicastAddress, w_dst: crate::address::Address,
                        w_upper: Seq<u8>, w_m: Seq<u8>| #[trigger] deliverable_device_frame(
                        *old(self), frame@, w_ivi, w_ttl, w_seq, w_src, w_dst, w_upper, w_m);
                    assert(!old(self).replay.accepts(
                        w_src.0,
                        accepted_iv(old(self).network_state, w_ivi).0,
                        w_seq.0,
                    ));
                }
            }
            // stale (iv, seq) pair: drop with no state change
            return Ok(InboundResult { message: None, block_ack: None });
        }
        proof {
            if hyp_any {
                let (w_ivi, w_ttl, w_seq, w_src, w_dst, w_upper, w_m) = choose|
                    w_ivi: crate::common::Ivi, w_ttl: Ttl, w_seq: SequenceNumber,
                    w_src: UnicastAddress, w_dst: crate::address::Address, w_upper: Seq<u8>,
                    w_m: Seq<u8>| #[trigger] deliverable_device_frame(*old(self), frame@,
                    w_ivi, w_ttl, w_seq, w_src, w_dst, w_upper, w_m);
                assert(old(self).replay.accepts(
                    w_src.0,
                    accepted_iv(old(self).network_state, w_ivi).0,
                    w_seq.0,
                ));
            }
        }
        match pdu.ctl {
            crate::common::Ctl::Control => {
                if pdu.transport_pdu.len() < 1 {
                    return Err(DriverError::InvalidPDU);
                }
                let message = Message::Control(crate::upper::ControlMessage {
                    opcode: pdu.transport_pdu[0] & 0x7f,
                    parameters: crate::upper::copy_range(
                        pdu.transport_pdu.as_slice(),
                        1,
                        pdu.transport_pdu.len(),
                    ),
                    src: pdu.src,
                    dst: pdu.dst,
                    ttl: pdu.ttl,
                    iv_index: iv,
                    network_key_handle: pdu.network_key_handle,
                });
                self.replay.update(pdu.src, iv, pdu.seq);
                Ok(InboundResult { message: Some(message), block_ack: None })
            }
            crate::common::Ctl::Access => {
                proof {
                    if hyp_any {
                        let (w_ivi, w_ttl, w_seq, w_src, w_dst, w_upper, w_m) = choose|
                            w_ivi: crate::common::Ivi, w_ttl: Ttl, w_seq: SequenceNumber,
                            w_src: UnicastAddress, w_dst: crate::address::Address,
                            w_upper: Seq<u8>, w_m: Seq<u8>| ({
                            &&& #[trigger] deliverable_device_frame(*old(self), frame@,
                                w_ivi, w_ttl, w_seq, w_src, w_dst, w_upper, w_m)
                            &&& pdu.transport_pdu@ == crate::lower::unseg_access_bytes(
                                None,
                                w_upper,
                            )
                        });
                        let d0: u8 = pdu.transport_pdu@[0];
                        assert(d0 == 0);
                        assert(((0u8 >> 6) & 1u8) != 1 && (0u8 & 0x3fu8) == 0 && (0u8 >> 7)
                            != 1) by (bit_vector);
                    }
                }
                let lower = match LowerPDU::parse_access(pdu.transport_pdu.as_slice()) {
                    Ok(lower) => lower,
                    Err(err) => {
                        return Err(DriverError::ParseError(err));
                    }
                };
                proof {
                    if hyp_any {
                        let (w_ivi, w_ttl, w_seq, w_src, w_dst, w_upper, w_m) = choose|
                            w_ivi: crate::common::Ivi, w_ttl: Ttl, w_seq: SequenceNumber,
                            w_src: UnicastAddress, w_dst: crate::address::Address,
                            w_upper: Seq<u8>, w_m: Seq<u8>| #[trigger]
                            deliverable_device_frame(*old(self), frame@, w_ivi, w_ttl,
                            w_seq, w_src, w_dst, w_upper, w_m);
                        assert(pdu.transport_pdu@ == crate::lower::unseg_access_bytes(
                            None,
                            w_upper,
                        ));
                        match &lower {
                            LowerPDU::UnsegmentedAccess { akf_aid: la, upper: lu } => {
                                if (*la) is Some {
                                    let aa: u8 = (*la)->0;
                                    assert((0x40u8 | (aa & 0x3fu8)) != 0u8) by (bit_vector);
                                    assert(false);
                                }
                                assert(lower.emitted() == seq![0u8] + lu@);
                            }
                            LowerPDU::SegmentedAccess { akf_aid: la, .. } => {
                                let inner: u8 = match *la {
                                    Some(aa) => (0x40u8 | (aa & 0x3fu8)) as u8,
                                    None => 0u8,
                                };
                                assert((0x80u8 | inner) != 0u8) by (bit_vector);
                                assert(false);
                            }
                            LowerPDU::UnsegmentedControl { .. } => {
                                assert(false);
                            }
                        }
                    }
                    assert(hyp_any ==> (lower matches LowerPDU::UnsegmentedAccess {
                        akf_aid: None,
                        upper: lu,
                    } && seq![0u8] + lu@ == pdu.transport_pdu@));
                }
                match lower {
                    LowerPDU::UnsegmentedAccess { akf_aid, upper } => {
                        proof {
                            if hyp_any {
                                let (w_ivi, w_ttl, w_seq, w_src, w_dst, w_upper, w_m) =
                                    choose|w_ivi: crate::common::Ivi, w_ttl: Ttl,
                                    w_seq: SequenceNumber, w_src: UnicastAddress,
                                    w_dst: crate::address::Address, w_upper: Seq<u8>,
                                    w_m: Seq<u8>| #[trigger] deliverable_device_frame(
                                    *old(self), frame@, w_ivi, w_ttl, w_seq, w_src, w_dst,
                                    w_upper, w_m);
                                assert(pdu.transport_pdu@
                                    == crate::lower::unseg_access_bytes(None, w_upper));
                                assert(seq![0u8] + upper@ == seq![0u8] + w_upper);
                                assert(upper@.len() == w_upper.len());
                                assert forall|j: int| 0 <= j < upper@.len()
                                    implies upper@[j] == w_upper[j] by {
                                    assert(upper@[j] == (seq![0u8] + upper@)[j + 1]);
                                    assert(w_upper[j] == (seq![0u8] + w_upper)[j + 1]);
                                }
                                assert(upper@ =~= w_upper);
                                assert(w_m.len() >= 1);
                                assert(upper@.len() >= 5);
                            }
                            assert(hyp_any ==> upper@.len() >= 5);
                        }
                        if upper.len() < 5 {
                            return Err(DriverError::InvalidPDU);
                        }
                        let split: usize = upper.len() - 4;
                        let payload = crate::upper::copy_range(upper.as_slice(), 0, split);
                        let mic = crate::upper::copy_range(upper.as_slice(), split,
                            upper.len());
                        let transmic = match TransMic::parse(mic.as_slice()) {
                            Ok(t) => t,
                            Err(_) => {
                                proof {
                                    assert(false);
                                }
                                return Err(DriverError::InvalidPDU);
                            }
                        };
                        let access = UpperAccessPDU {
                            payload,
                            transmic,
                            meta: UpperMetadata {
                                network_key_handle: pdu.network_key_handle,
                                iv_index: iv,
                                akf_aid: match akf_aid {
                                    Some(aid) => Some(crate::device::Aid(aid)),
                                    None => None,
                                },
                                seq: pdu.seq,
                                src: pdu.src,
                                dst: pdu.dst,
                                ttl: pdu.ttl,
                                label_uuids: Vec::new(),
                            },
                        };
                        proof {
                            if hyp_any {
                                let (w_ivi, w_ttl, w_seq, w_src, w_dst, w_upper, w_m) =
                                    choose|w_ivi: crate::common::Ivi, w_ttl: Ttl,
                                    w_seq: SequenceNumber, w_src: UnicastAddress,
                                    w_dst: crate::address::Address, w_upper: Seq<u8>,
                                    w_m: Seq<u8>| ({
                                    &&& #[trigger] deliverable_device_frame(*old(self),
                                        frame@, w_ivi, w_ttl, w_seq, w_src, w_dst, w_upper,
                                        w_m)
                                    &&& pdu.seq == w_seq
                                    &&& pdu.src == w_src
                                    &&& pdu.dst == w_dst
                                    &&& pdu.transport_pdu@
                                        == crate::lower::unseg_access_bytes(None, w_upper)
                                });
                                assert(seq![0u8] + upper@ == seq![0u8] + w_upper);
                                assert(upper@.len() == w_upper.len());
                                assert forall|j: int| 0 <= j < upper@.len()
                                    implies upper@[j] == w_upper[j] by {
                                    assert(upper@[j] == (seq![0u8] + upper@)[j + 1]);
                                    assert(w_upper[j] == (seq![0u8] + w_upper)[j + 1]);
                                }
                                assert(upper@ =~= w_upper);
                                if access.transmic is Bit64 {
                                    assert(access.transmic.bytes().len() == 8);
                                    assert(false);
                                }
                                assert(access.ciphertext() =~= w_upper);
                                assert(access.nonce_spec(0x02)
                                    == crate::crypto::nonce_layout(0x02, 0x00, w_seq.0,
                                    w_src.0, w_dst.to_u16(), iv.0));
                                assert(crate::upper::device_crypto_witness(
                                    old(self).secrets,
                                    access,
                                    w_m,
                                ));
                                assert(crate::upper::decryptable(old(self).secrets, access));
                                assert forall|m2: Seq<u8>| crate::upper::device_crypto_witness(
                                    old(self).secrets,
                                    access,
                                    m2,
                                ) implies Opcode::decoded(m2) is Some by {
                                    assert(w_upper == crate::crypto::ccm32_of(
                                        old(self).secrets.device_key@,
                                        crate::crypto::nonce_layout(0x02, 0x00, w_seq.0,
                                        w_src.0, w_dst.to_u16(), iv.0),
                                        Seq::empty(),
                                        m2,
                                    ));
                                }
                                assert(crate::upper::all_witnesses_decode(
                                    old(self).secrets,
                                    access,
                                ));
                                assert(!(access.meta.dst is Virtual));
                            }
                        }
                        match self.process_inbound_upper_pdu(UpperPDU::Access(access)) {
                            Ok(message) => {
                                self.replay.update(pdu.src, iv, pdu.seq);
                                Ok(InboundResult { message: Some(message), block_ack: None })
                            }
                            Err(_) => Ok(InboundResult { message: None, block_ack: None }),
                        }
                    }
                    LowerPDU::SegmentedAccess { akf_aid, szmic, seq_zero, seg_o, seg_n,
                        segment } => {
                        let (done, block_ack, ack_due) = self.reassembly.on_segment(
                            pdu.src.0,
                            seq_zero,
                            szmic,
                            seg_o,
                            seg_n,
                            segment,
                            now,
                        )?;
                        let ack = if ack_due {
                            Some((block_ack, pdu.src))
                        } else {
                            None
                        };
                        match done {
                            Some(upper) => {
                                // reconstruct the sequence number that
                                // authenticated the segmented PDU: the
                                // frame's sequence with its low 13 bits
                                // replaced by SeqZero, stepping back one
                                // window when that overshoots
                                let s: u32 = pdu.seq.0;
                                let base: u32 = (s & 0xffffe000u32) | (seq_zero as u32);
                                let seq_auth: u32 = if base > s {
                                    if base >= 0x2000 {
                                        base - 0x2000
                                    } else {
                                        base
                                    }
                                } else {
                                    base
                                };
                                let mic_len: usize = match szmic {
                                    SzMic::Bit32 => 4,
                                    SzMic::Bit64 => 8,
                                };
                                if upper.len() < mic_len + 1 {
                                    return Err(DriverError::InvalidPDU);
                                }
                                let split: usize = upper.len() - mic_len;
                                let payload = crate::upper::copy_range(upper.as_slice(), 0,
                                    split);
                                let mic = crate::upper::copy_range(upper.as_slice(), split,
                                    upper.len());
                                let transmic = match TransMic::parse(mic.as_slice()) {
                                    Ok(t) => t,
                                    Err(_) => {
                                        return Err(DriverError::InvalidPDU);
                                    }
                                };
                                let access = UpperAccessPDU {
                                    payload,
                                    transmic,
                                    meta: UpperMetadata {
                                        network_key_handle: pdu.network_key_handle,
                                        iv_index: iv,
                                        akf_aid: match akf_aid {
                                    Some(aid) => Some(crate::device::Aid(aid)),
                                    None => None,
                                },
                                        seq: SequenceNumber(seq_auth),
                                        src: pdu.src,
                                        dst: pdu.dst,
                                        ttl: pdu.ttl,
                                        label_uuids: Vec::new(),
                                    },
                                };
                                match self.process_inbound_upper_pdu(UpperPDU::Access(access))
                                {
                                    Ok(message) => {
                                        self.replay.update(pdu.src, iv, pdu.seq);
                                        Ok(InboundResult { message: Some(message),
                                            block_ack: ack })
                                    }
                                    Err(_) => Ok(InboundResult { message: None,
                                        block_ack: ack }),
                                }
                            }
                            None => Ok(InboundResult { message: None, block_ack: ack }),
                        }
                    }
                    LowerPDU::UnsegmentedControl { .. } => Err(DriverError::InvalidPDU),
                }
            }
        }
    }
}

impl ProvisionedStack {
    /// Frame a block-acknowledgement for the wire: a segment-ack
    /// control PDU from this node's primary address back to the
    /// segment's source, under a fresh sequence number.
    pub fn ack_frame(&mut self, sequence: &mut Sequence, block_ack: crate::lower::BlockAck,
        dst: UnicastAddress, ttl: Ttl) -> (r: Result<Vec<u8>, DriverError>)
        requires
            old(self).wf(),
            old(sequence).wf(),
            old(sequence).current < old(sequence).committed,
            block_ack.seq_zero.0 < 0x2000,
        ensures
            final(self).wf(),
            final(sequence).wf(),
            *final(self) == *old(self),
            old(sequence).current <= crate::sequence::SEQ_MAX
                && old(self).secrets.network_keys@[0] is Some ==> r is Ok,
            r matches Ok(frame) ==> ({
                let tx_iv = (if old(self).network_state.iv_update is InProgress {
                    old(self).network_state.iv_index.subtract_spec(1)
                } else {
                    old(self).network_state.iv_index
                });
                &&& old(self).secrets.network_keys@[0] is Some
                &&& frame@ == crate::network::frame_of(
                    old(self).secrets.network_keys@[0]->Some_0,
                    tx_iv,
                    tx_iv.ivi_spec(),
                    crate::common::Ctl::Control,
                    ttl,
                    SequenceNumber(old(sequence).current),
                    old(self).device_info.primary_unicast,
                    crate::address::Address::Unicast(dst),
                    seq![0u8] + seq![
                        ((block_ack.seq_zero.0 >> 6) & 0x7f) as u8,
                        ((block_ack.seq_zero.0 & 0x3f) << 2) as u8,
                        ((block_ack.bitmap >> 24) & 0xff) as u8,
                        ((block_ack.bitmap >> 16) & 0xff) as u8,
                        ((block_ack.bitmap >> 8) & 0xff) as u8,
                        (block_ack.bitmap & 0xff) as u8,
                    ],
                )
            }),
    {
        let seq_i = match sequence.next() {
            Ok(v) => v,
            Err(_) => {
                return Err(DriverError::SeqRolloverError);
            }
        };
        let transport: Vec<u8> = crate::lower::segment_ack_transport(block_ack);
        let handle = self.secrets.network_key_by_index(0)?;
        let key = self.secrets.network_key(handle)?;
        let iv: IvIndex = self.network_state.iv_index.transmission_iv_index(
            self.network_state.iv_update,
        );
        let ivi = iv.ivi();
        let frame = crate::network::network_encrypt(
            &key,
            iv,
            ivi,
            crate::common::Ctl::Control,
            ttl,
            seq_i,
            self.device_info.primary_unicast,
            crate::address::Address::Unicast(dst),
            transport.as_slice(),
        )?;
        Ok(frame)
    }

    /// One retransmission pass: take the PDUs the transmit queue has
    /// due, and frame each for the wire again — a non-segmented PDU
    /// whole under a fresh sequence number, a segmented one split again
    /// under its original SeqZero with one fresh sequence number per
    /// segment. The queue undergoes exactly one decay pass; the
    /// returned tokens are exactly the pass's expiring tokens in slot
    /// order; every returned frame is the network encryption of one of
    /// the pass's due PDUs; and with sequence headroom and well-sized
    /// entries at least one frame per due PDU is owed. A PDU that no
    /// longer fits the headroom is skipped for this pass
    /// (retransmission is best effort).
    pub fn retransmit_frames(&mut self, sequence: &mut Sequence) -> (r: Result<
        (Vec<Vec<u8>>, Vec<u32>),
        DriverError,
    >)
        requires
            old(self).wf(),
            old(sequence).wf(),
        ensures
            final(self).wf(),
            final(sequence).wf(),
            r is Ok ==> ({
                &&& final(self).transmit_queue.queue@.len()
                    == old(self).transmit_queue.queue@.len()
                &&& forall|i: int| 0 <= i < old(self).transmit_queue.queue@.len()
                    ==> match old(self).transmit_queue.queue@[i] {
                    Some(QueueEntry::Segmented(e)) => final(self).transmit_queue.queue@[i]
                        == old(self).transmit_queue.queue@[i],
                    Some(QueueEntry::Nonsegmented(e)) => {
                        &&& (e.num_retransmit > 1 ==> ((
                        #[trigger] final(self).transmit_queue.queue@[i]) matches Some(
                            QueueEntry::Nonsegmented(e2))
                            && e2.num_retransmit == e.num_retransmit - 1
                            && crate::upper::same_upper_pdu(e2.upper_pdu, e.upper_pdu)
                            && e2.completion_token == e.completion_token))
                        &&& (e.num_retransmit == 1
                            ==> final(self).transmit_queue.queue@[i] is None)
                    },
                    None => final(self).transmit_queue.queue@[i] is None,
                }
            }),
            r matches Ok(out) ==> out.1@ == crate::queue::fired_tokens(
                old(self).transmit_queue.queue@,
            ),
            r matches Ok(out) ==> ({
                let oldq = old(self).transmit_queue.queue@;
                let tx_iv = (if old(self).network_state.iv_update is InProgress {
                    old(self).network_state.iv_index.subtract_spec(1)
                } else {
                    old(self).network_state.iv_index
                });
                &&& old(self).secrets.network_keys@[0] is Some
                &&& forall|k: int| 0 <= k < out.0@.len() ==> is_retransmission_of(
                    old(self).secrets.network_keys@[0]->Some_0,
                    tx_iv,
                    oldq,
                    (#[trigger] out.0@[k])@,
                )
            }),
            ({
                &&& old(sequence).current + 160 <= old(sequence).committed
                &&& old(sequence).current + 159 <= crate::sequence::SEQ_MAX
                &&& old(self).secrets.network_keys@[0] is Some
                &&& forall|j: int| 0 <= j < crate::queue::yielded_pdus(
                    old(self).transmit_queue.queue@,
                ).len() ==> ({
                    let y = #[trigger] crate::queue::yielded_pdus(
                        old(self).transmit_queue.queue@,
                    )[j];
                    &&& y is Access
                    &&& 5 <= y->Access_0.payload@.len() + y->Access_0.transmic.bytes().len()
                        <= 383
                })
            }) ==> (r matches Ok(out) && out.0@.len() >= crate::queue::yielded_pdus(
                old(self).transmit_queue.queue@,
            ).len()),
    {
        let ghost oldq = self.transmit_queue.queue@;
        let ghost hyp = old(sequence).current + 160 <= old(sequence).committed
            && old(sequence).current + 159 <= crate::sequence::SEQ_MAX
            && old(self).secrets.network_keys@[0] is Some
            && (forall|j: int| 0 <= j < crate::queue::yielded_pdus(oldq).len() ==> ({
            let y = #[trigger] crate::queue::yielded_pdus(oldq)[j];
            &&& y is Access
            &&& 5 <= y->Access_0.payload@.len() + y->Access_0.transmic.bytes().len() <= 383
        }));
        let (pdus, fired) = self.transmit_queue.iter();
        proof {
            crate::queue::lemma_yielded_len(oldq);
        }
        let iv: IvIndex = self.network_state.iv_index.transmission_iv_index(
            self.network_state.iv_update,
        );
        let ivi = iv.ivi();
        let handle = match self.secrets.network_key_by_index(0) {
            Ok(h) => h,
            Err(err) => {
                proof {
                    if hyp {
                        assert(false);
                    }
                }
                return Err(err);
            }
        };
        let key = self.secrets.network_key(handle)?;
        let ghost key0 = old(self).secrets.network_keys@[0]->Some_0;
        let mut frames: Vec<Vec<u8>> = Vec::new();
        let mut i: usize = 0;
        while i < pdus.len()
            invariant
                self.wf(),
                sequence.wf(),
                hyp == (old(sequence).current + 160 <= old(sequence).committed
                    && old(sequence).current + 159 <= crate::sequence::SEQ_MAX
                    && old(self).secrets.network_keys@[0] is Some
                    && (forall|j: int| 0 <= j < crate::queue::yielded_pdus(oldq).len()
                    ==> ({
                    let y = #[trigger] crate::queue::yielded_pdus(oldq)[j];
                    &&& y is Access
                    &&& 5 <= y->Access_0.payload@.len()
                        + y->Access_0.transmic.bytes().len() <= 383
                }))),
                oldq == old(self).transmit_queue.queue@,
                key0 == old(self).secrets.network_keys@[0]->Some_0,
                old(self).secrets.network_keys@[0] is Some,
                key == key0,
                iv == (if old(self).network_state.iv_update is InProgress {
                    old(self).network_state.iv_index.subtract_spec(1)
                } else {
                    old(self).network_state.iv_index
                }),
                ivi == iv.ivi_spec(),
                i <= pdus@.len(),
                pdus@.len() == crate::queue::yielded_pdus(oldq).len(),
                pdus@.len() <= crate::queue::QUEUE_SIZE,
                forall|k: int| 0 <= k < pdus@.len() ==> crate::upper::same_upper_pdu(
                    #[trigger] pdus@[k],
                    crate::queue::yielded_pdus(oldq)[k],
                ),
                old(sequence).wf(),
                sequence.committed == old(sequence).committed,
                hyp ==> sequence.current <= old(sequence).current + 32 * i,
                hyp ==> frames@.len() >= i,
                forall|k: int| 0 <= k < frames@.len() ==> is_retransmission_of(
                    key0,
                    iv,
                    oldq,
                    (#[trigger] frames@[k])@,
                ),
            decreases pdus@.len() - i,
        {
            let ghost frames_pre = frames@;
            let ghost y_i = crate::queue::yielded_pdus(oldq)[i as int];
            match &pdus[i] {
                UpperPDU::Access(access) => {
                    proof {
                        assert(crate::upper::same_upper_pdu(pdus@[i as int], y_i));
                        assert(y_i is Access);
                        assert(crate::upper::same_access_pdu(*access, y_i->Access_0));
                    }
                    let mut ct: Vec<u8> = Vec::new();
                    crate::crypto::push_all(&mut ct, access.payload.as_slice());
                    let micv: Vec<u8> = access.transmic.to_vec();
                    crate::crypto::push_all(&mut ct, micv.as_slice());
                    proof {
                        assert(ct@ =~= y_i->Access_0.payload@
                            + y_i->Access_0.transmic.bytes());
                    }
                    let akf_aid: Option<u8> = match access.meta.akf_aid {
                        Some(aid) => Some(aid.0 & 0x3f),
                        None => None,
                    };
                    proof {
                        let a: u8 = match access.meta.akf_aid {
                            Some(aid) => aid.0,
                            None => 0,
                        };
                        assert(a & 0x3f < 0x40) by (bit_vector);
                    }
                    if ct.len() <= 15 {
                        if sequence.current < sequence.committed {
                            let seq_i = match sequence.next() {
                                Ok(v) => v,
                                Err(_) => {
                                    proof {
                                        if hyp {
                                            assert(false);
                                        }
                                    }
                                    return Err(DriverError::SeqRolloverError);
                                }
                            };
                            let mut transport: Vec<u8> = Vec::new();
                            let ghost ct_view = ct@;
                            let lower = LowerPDU::UnsegmentedAccess { akf_aid, upper: ct };
                            lower.emit(&mut transport);
                            proof {
                                assert(transport@ =~= crate::lower::unseg_access_bytes(
                                    akf_aid,
                                    ct_view,
                                ));
                            }
                            if 1 <= transport.len() && transport.len() <= 65533 {
                                let frame = crate::network::network_encrypt(
                                    &key,
                                    iv,
                                    ivi,
                                    crate::common::Ctl::Access,
                                    access.meta.ttl,
                                    seq_i,
                                    access.meta.src,
                                    access.meta.dst,
                                    transport.as_slice(),
                                )?;
                                frames.push(frame);
                                proof {
                                    assert(retransmission_frame(key0, iv, y_i->Access_0,
                                        seq_i.0, -1, frames@[frames@.len() - 1]@));
                                    assert(is_retransmission_of(key0, iv, oldq,
                                        frames@[frames@.len() - 1]@));
                                }
                            } else {
                                proof {
                                    if hyp {
                                        assert(false);
                                    }
                                }
                            }
                        } else {
                            proof {
                                if hyp {
                                    assert(false);
                                }
                            }
                        }
                    } else {
                        let seq_zero: SeqZero = SeqZero::of_seq(access.meta.seq);
                        proof {
                            let sz: u16 = seq_zero.0;
                            let s0: u32 = access.meta.seq.0;
                            assert(sz < 0x2000) by (bit_vector)
                                requires sz == (s0 & 0x1fff) as u16;
                        }
                        let parts: Vec<Vec<u8>> = segment(ct.as_slice(), SEGMENT_SIZE_ACCESS);
                        proof {
                            crate::lower::lemma_segments_sizes(ct@, SEGMENT_SIZE_ACCESS
                                as nat);
                            crate::lower::lemma_segments_count(ct@, SEGMENT_SIZE_ACCESS
                                as nat);
                            assert forall|k: int| 0 <= k < parts@.len()
                                implies 1 <= (#[trigger] parts@[k]@).len()
                                    <= SEGMENT_SIZE_ACCESS by {
                                assert(parts@[k]@ == parts@.map_values(|v: Vec<u8>| v@)[k]);
                            }
                            if hyp {
                                assert(ct@.len() <= 383);
                                assert(parts@.len() <= 32);
                            }
                        }
                        if parts.len() >= 1 && parts.len() <= 32 {
                            let seg_n: u8 = (parts.len() - 1) as u8;
                            let mut seg_o: usize = 0;
                            while seg_o < parts.len()
                                invariant
                                    self.wf(),
                                    sequence.wf(),
                                    hyp == (old(sequence).current + 160 <= old(
                                        sequence,
                                    ).committed && old(sequence).current + 159
                                        <= crate::sequence::SEQ_MAX
                                        && old(self).secrets.network_keys@[0] is Some
                                        && (forall|j: int| 0 <= j
                                        < crate::queue::yielded_pdus(oldq).len() ==> ({
                                        let y = #[trigger] crate::queue::yielded_pdus(
                                            oldq,
                                        )[j];
                                        &&& y is Access
                                        &&& 5 <= y->Access_0.payload@.len()
                                            + y->Access_0.transmic.bytes().len() <= 383
                                    }))),
                                    oldq == old(self).transmit_queue.queue@,
                                    key0 == old(self).secrets.network_keys@[0]->Some_0,
                                    old(self).secrets.network_keys@[0] is Some,
                                    key == key0,
                                    iv == (if old(self).network_state.iv_update
                                        is InProgress {
                                        old(self).network_state.iv_index.subtract_spec(1)
                                    } else {
                                        old(self).network_state.iv_index
                                    }),
                                    ivi == iv.ivi_spec(),
                                    i < pdus@.len(),
                                    pdus@.len() == crate::queue::yielded_pdus(oldq).len(),
                                    pdus@.len() <= crate::queue::QUEUE_SIZE,
                                    y_i == crate::queue::yielded_pdus(oldq)[i as int],
                                    y_i is Access,
                                    ct@ == y_i->Access_0.payload@
                                        + y_i->Access_0.transmic.bytes(),
                                    ct@.len() > 15,
                                    akf_aid == (match y_i->Access_0.meta.akf_aid {
                                        Some(aid) => Some((aid.0 & 0x3f) as u8),
                                        None => None::<u8>,
                                    }),
                                    match akf_aid {
                                        Some(a) => a < 0x40,
                                        None => true,
                                    },
                                    access.meta.ttl == y_i->Access_0.meta.ttl,
                                    access.meta.src == y_i->Access_0.meta.src,
                                    access.meta.dst == y_i->Access_0.meta.dst,
                                    seq_zero.0 == (y_i->Access_0.meta.seq.0 & 0x1fff) as u16,
                                    seq_zero.0 < 0x2000,
                                    parts@.map_values(|v: Vec<u8>| v@)
                                        == crate::lower::segments_of(
                                        ct@,
                                        SEGMENT_SIZE_ACCESS as nat,
                                    ),
                                    1 <= parts@.len() <= 32,
                                    seg_o <= parts@.len(),
                                    seg_n == parts@.len() - 1,
                                    forall|k: int| 0 <= k < parts@.len()
                                        ==> 1 <= (#[trigger] parts@[k]@).len()
                                            <= SEGMENT_SIZE_ACCESS,
                                    old(sequence).wf(),
                                    sequence.committed == old(sequence).committed,
                                    hyp ==> sequence.current <= old(sequence).current + 32
                                        * i + seg_o,
                                    hyp ==> frames@.len() >= i + (if seg_o > 0 {
                                        1int
                                    } else {
                                        0int
                                    }),
                                    forall|k: int| 0 <= k < frames@.len()
                                        ==> is_retransmission_of(
                                        key0,
                                        iv,
                                        oldq,
                                        (#[trigger] frames@[k])@,
                                    ),
                                decreases parts@.len() - seg_o,
                            {
                                let ghost frames_pre2 = frames@;
                                if sequence.current < sequence.committed {
                                    let seq_i = match sequence.next() {
                                        Ok(v) => v,
                                        Err(_) => {
                                            proof {
                                                if hyp {
                                                    assert(false);
                                                }
                                            }
                                            return Err(DriverError::SeqRolloverError);
                                        }
                                    };
                                    let mut part: Vec<u8> = Vec::new();
                                    crate::crypto::push_all(&mut part,
                                        parts[seg_o].as_slice());
                                    proof {
                                        assert(parts@[seg_o as int]@
                                            == crate::lower::segments_of(
                                            ct@,
                                            SEGMENT_SIZE_ACCESS as nat,
                                        )[seg_o as int]);
                                    }
                                    let mut transport: Vec<u8> = Vec::new();
                                    let lower = LowerPDU::SegmentedAccess {
                                        akf_aid,
                                        szmic: crate::mic::SzMic::Bit32,
                                        seq_zero: seq_zero.0,
                                        seg_o: seg_o as u8,
                                        seg_n,
                                        segment: part,
                                    };
                                    lower.emit(&mut transport);
                                    proof {
                                        assert(transport@
                                            =~= crate::lower::seg_access_bytes(
                                            akf_aid,
                                            SzMic::Bit32,
                                            seq_zero.0,
                                            seg_o as u8,
                                            seg_n,
                                            lower->SegmentedAccess_segment@,
                                        ));
                                    }
                                    if 1 <= transport.len() && transport.len() <= 65533 {
                                        let frame = crate::network::network_encrypt(
                                            &key,
                                            iv,
                                            ivi,
                                            crate::common::Ctl::Access,
                                            access.meta.ttl,
                                            seq_i,
                                            access.meta.src,
                                            access.meta.dst,
                                            transport.as_slice(),
                                        )?;
                                        frames.push(frame);
                                        proof {
                                            assert(retransmission_frame(key0, iv,
                                                y_i->Access_0, seq_i.0, seg_o as int,
                                                frames@[frames@.len() - 1]@));
                                            assert(is_retransmission_of(key0, iv, oldq,
                                                frames@[frames@.len() - 1]@));
                                        }
                                    } else {
                                        proof {
                                            if hyp {
                                                assert(false);
                                            }
                                        }
                                    }
                                } else {
                                    proof {
                                        if hyp {
                                            assert(false);
                                        }
                                    }
                                }
                                seg_o = seg_o + 1;
                            }
                        } else {
                            proof {
                                if hyp {
                                    assert(false);
                                }
                            }
                        }
                    }
                }
                UpperPDU::Control(_) => {
                    // the queue carries access PDUs; a control PDU is
                    // written directly at the network layer
                    proof {
                        if hyp {
                            assert(crate::upper::same_upper_pdu(pdus@[i as int], y_i));
                            assert(false);
                        }
                    }
                }
            }
            i = i + 1;
        }
        Ok((frames, fired))
    }

    /// Encrypt one outbound access message down every layer: one
    /// network frame when the upper-transport PDU fits unsegmented,
    /// else one frame per segment, each under its own sequence number,
    /// with the segmented transmission queued for retransmission until
    /// its block-ack completes. The first allocated sequence number
    /// authenticates the upper-transport encryption and keys the
    /// SeqZero of the segments.
    pub fn process_outbound(&mut self, sequence: &mut Sequence, message: &Message,
        completion_token: Option<u32>) -> (r: Result<Vec<Vec<u8>>, DriverError>)
        requires
            old(self).wf(),
            old(sequence).wf(),
            old(sequence).current < old(sequence).committed,
            message matches Message::Access(am) && !(am.key_handle is Network)
                && am.emitted().len() <= 379 && am.emitted().len() >= 1,
        ensures
            final(self).wf(),
            final(sequence).wf(),
            r matches Ok(frames) ==> frames@.len() >= 1,
            ({
                &&& old(sequence).current + 32 <= old(sequence).committed
                &&& old(sequence).current + 31 <= crate::sequence::SEQ_MAX
                &&& crate::upper::key_handle_available(
                    old(self).secrets,
                    message->Access_0.key_handle,
                )
                &&& old(self).secrets.network_keys@[0] is Some
            }) ==> r is Ok,
            r matches Ok(frames) ==> (message matches Message::Access(am) && ({
                let tx_iv = (if old(self).network_state.iv_update is InProgress {
                    old(self).network_state.iv_index.subtract_spec(1)
                } else {
                    old(self).network_state.iv_index
                });
                let key0 = old(self).secrets.network_keys@[0]->Some_0;
                let first_seq = old(sequence).current;
                let akf = (match am.key_handle {
                    crate::device::KeyHandle::Application(h) => Some((h.1.0 & 0x3f) as u8),
                    _ => None::<u8>,
                });
                &&& old(self).secrets.network_keys@[0] is Some
                &&& exists|upper_bytes: Seq<u8>| ({
                    &&& #[trigger] upper_bytes.len() == am.emitted().len() + 4
                    &&& (upper_bytes.len() <= 15 ==> frames@.len() == 1 && frames@[0]@
                        == crate::network::frame_of(
                        key0,
                        tx_iv,
                        tx_iv.ivi_spec(),
                        crate::common::Ctl::Access,
                        am.ttl,
                        SequenceNumber(first_seq),
                        am.src,
                        am.dst,
                        crate::lower::unseg_access_bytes(akf, upper_bytes),
                    ))
                    &&& (upper_bytes.len() > 15 ==> ({
                        let parts = crate::lower::segments_of(
                            upper_bytes,
                            SEGMENT_SIZE_ACCESS as nat,
                        );
                        &&& frames@.len() == parts.len()
                        &&& forall|k: int| 0 <= k < parts.len() ==> #[trigger] frames@[k]@
                            == crate::network::frame_of(
                            key0,
                            tx_iv,
                            tx_iv.ivi_spec(),
                            crate::common::Ctl::Access,
                            am.ttl,
                            SequenceNumber((first_seq + k) as u32),
                            am.src,
                            am.dst,
                            crate::lower::seg_access_bytes(
                                akf,
                                SzMic::Bit32,
                                (first_seq & 0x1fff) as u16,
                                k as u8,
                                (parts.len() - 1) as u8,
                                parts[k],
                            ),
                        )
                    }))
                })
            })),
    {
        let ghost first_seq: u32 = sequence.current;
        let upper_pdu: UpperPDU = self.process_outbound_message(sequence, message)?;
        let access: &UpperAccessPDU = match &upper_pdu {
            UpperPDU::Access(pdu) => pdu,
            UpperPDU::Control(_) => {
                proof {
                    assert(false);
                }
                return Err(DriverError::InvalidState);
            }
        };
        let mut upper_bytes: Vec<u8> = Vec::new();
        crate::crypto::push_all(&mut upper_bytes, access.payload.as_slice());
        let micv: Vec<u8> = access.transmic.to_vec();
        crate::crypto::push_all(&mut upper_bytes, micv.as_slice());
        proof {
            assert(upper_bytes@.len() == message->Access_0.emitted().len() + 4);
        }

        let iv: IvIndex = self.network_state.iv_index.transmission_iv_index(
            self.network_state.iv_update,
        );
        let ivi = iv.ivi();
        let handle = self.secrets.network_key_by_index(0)?;
        let key = self.secrets.network_key(handle)?;
        let akf_aid: Option<u8> = match access.meta.akf_aid {
            Some(aid) => Some(aid.0 & 0x3f),
            None => None,
        };
        proof {
            let a: u8 = match access.meta.akf_aid {
                Some(aid) => aid.0,
                None => 0,
            };
            assert(a & 0x3f < 0x40) by (bit_vector);
        }
        let seq0: SequenceNumber = access.meta.seq;
        proof {
            assert(seq0.0 == first_seq);
        }
        let mut frames: Vec<Vec<u8>> = Vec::new();

        if upper_bytes.len() <= 15 {
            let mut transport: Vec<u8> = Vec::new();
            let lower = LowerPDU::UnsegmentedAccess { akf_aid, upper: upper_bytes };
            lower.emit(&mut transport);
            proof {
                assert(transport@ =~= crate::lower::unseg_access_bytes(
                    akf_aid,
                    lower->UnsegmentedAccess_upper@,
                ));
            }
            let frame = crate::network::network_encrypt(
                &key,
                iv,
                ivi,
                crate::common::Ctl::Access,
                access.meta.ttl,
                seq0,
                access.meta.src,
                access.meta.dst,
                transport.as_slice(),
            )?;
            frames.push(frame);
            Ok(frames)
        } else {
            let parts: Vec<Vec<u8>> = segment(upper_bytes.as_slice(), SEGMENT_SIZE_ACCESS);
            proof {
                crate::lower::lemma_segments_count(upper_bytes@, SEGMENT_SIZE_ACCESS as nat);
                crate::lower::lemma_segments_sizes(upper_bytes@, SEGMENT_SIZE_ACCESS as nat);
                assert(parts@.len() == crate::lower::segments_of(
                    upper_bytes@,
                    SEGMENT_SIZE_ACCESS as nat,
                ).len());
                assert(1 <= parts@.len() <= 32);
                assert forall|k: int| 0 <= k < parts@.len()
                    implies 1 <= (#[trigger] parts@[k]@).len() <= SEGMENT_SIZE_ACCESS by {
                    assert(parts@[k]@ == parts@.map_values(|v: Vec<u8>| v@)[k]);
                }
            }
            let seg_n: u8 = (parts.len() - 1) as u8;
            let seq_zero: SeqZero = SeqZero::of_seq(seq0);
            proof {
                let sz: u16 = seq_zero.0;
                let s0: u32 = seq0.0;
                assert(sz < 0x2000) by (bit_vector)
                    requires sz == (s0 & 0x1fff) as u16;
            }
            let mut seg_o: usize = 0;
            while seg_o < parts.len()
                invariant
                    self.wf(),
                    sequence.wf(),
                    self.secrets == old(self).secrets,
                    self.network_state == old(self).network_state,
                    key == old(self).secrets.network_keys@[0]->Some_0,
                    iv == (if old(self).network_state.iv_update is InProgress {
                        old(self).network_state.iv_index.subtract_spec(1)
                    } else {
                        old(self).network_state.iv_index
                    }),
                    ivi == iv.ivi_spec(),
                    message matches Message::Access(am2) && access.meta.ttl == am2.ttl
                        && access.meta.src == am2.src && access.meta.dst == am2.dst,
                    akf_aid == (match message->Access_0.key_handle {
                        crate::device::KeyHandle::Application(h) => Some((h.1.0 & 0x3f) as u8),
                        _ => None::<u8>,
                    }),
                    match akf_aid {
                        Some(a) => a < 0x40,
                        None => true,
                    },
                    parts@.map_values(|v: Vec<u8>| v@) == crate::lower::segments_of(
                        upper_bytes@,
                        SEGMENT_SIZE_ACCESS as nat,
                    ),
                    forall|k: int| 0 <= k < parts@.len()
                        ==> 1 <= (#[trigger] parts@[k]@).len() <= SEGMENT_SIZE_ACCESS,
                    1 <= parts@.len() <= 32,
                    seg_o <= parts@.len(),
                    seg_n == parts@.len() - 1,
                    seq0.0 == first_seq,
                    seq_zero.0 == (first_seq & 0x1fff) as u16,
                    seq_zero.0 < 0x2000,
                    sequence.committed == old(sequence).committed,
                    old(sequence).wf(),
                    first_seq == old(sequence).current,
                    first_seq < old(sequence).committed,
                    sequence.current == first_seq + (if seg_o == 0 {
                        1int
                    } else {
                        seg_o as int
                    }),
                    frames@.len() == seg_o,
                    forall|k: int| 0 <= k < seg_o ==> #[trigger] frames@[k]@
                        == crate::network::frame_of(
                        old(self).secrets.network_keys@[0]->Some_0,
                        iv,
                        iv.ivi_spec(),
                        crate::common::Ctl::Access,
                        access.meta.ttl,
                        SequenceNumber((first_seq + k) as u32),
                        access.meta.src,
                        access.meta.dst,
                        crate::lower::seg_access_bytes(
                            akf_aid,
                            SzMic::Bit32,
                            (first_seq & 0x1fff) as u16,
                            k as u8,
                            (parts@.len() - 1) as u8,
                            parts@[k]@,
                        ),
                    ),
                decreases parts@.len() - seg_o,
            {
                let mut part: Vec<u8> = Vec::new();
                crate::crypto::push_all(&mut part, parts[seg_o].as_slice());
                proof {
                    assert(parts@[seg_o as int]@ == crate::lower::segments_of(
                        upper_bytes@,
                        SEGMENT_SIZE_ACCESS as nat,
                    )[seg_o as int]);
                    assert(1 <= part@.len() <= SEGMENT_SIZE_ACCESS);
                }
                let mut transport: Vec<u8> = Vec::new();
                let lower = LowerPDU::SegmentedAccess {
                    akf_aid,
                    szmic: crate::mic::SzMic::Bit32,
                    seq_zero: seq_zero.0,
                    seg_o: seg_o as u8,
                    seg_n,
                    segment: part,
                };
                lower.emit(&mut transport);
                proof {
                    assert(transport@ =~= crate::lower::seg_access_bytes(
                        akf_aid,
                        SzMic::Bit32,
                        seq_zero.0,
                        seg_o as u8,
                        seg_n,
                        lower->SegmentedAccess_segment@,
                    ));
                    assert(1 <= transport@.len() <= 65533);
                }
                let seq_i: SequenceNumber = if seg_o == 0 {
                    seq0
                } else {
                    if !(sequence.current < sequence.committed) {
                        proof {
                            assert(sequence.current >= sequence.committed);
                            assert(seg_o <= 31);
                        }
                        return Err(DriverError::InsufficientSpace);
                    }
                    match sequence.next() {
                        Ok(s) => s,
                        Err(_) => {
                            proof {
                                assert(seg_o <= 31);
                            }
                            return Err(DriverError::SeqRolloverError);
                        }
                    }
                };
                proof {
                    assert(seq_i.0 == first_seq + seg_o);
                }
                let frame = crate::network::network_encrypt(
                    &key,
                    iv,
                    ivi,
                    crate::common::Ctl::Access,
                    access.meta.ttl,
                    seq_i,
                    access.meta.src,
                    access.meta.dst,
                    transport.as_slice(),
                )?;
                frames.push(frame);
                seg_o = seg_o + 1;
            }
            let duplicate = upper_pdu.duplicate();
            let _ = self.transmit_queue.add_segmented(
                duplicate,
                (seg_n + 1) as u8,
                completion_token,
                seq_zero,
            );
            proof {
                let ghost ub = upper_bytes@;
                assert(ub.len() == message->Access_0.emitted().len() + 4);
            }
            Ok(frames)
        }
    }
}

/// The element indices an inbound access message fans out to: the one
/// element owning a unicast destination, and every element for a group
/// or virtual destination (each element's models then filter by
/// opcode); nothing for an unassigned destination.
pub fn dispatch_elements(device_info: &DeviceInfo, dst: crate::address::Address) -> (r: Vec<u8>)
    ensures
        match dst {
            crate::address::Address::Unicast(a) => {
                &&& (device_info.primary_unicast.0 <= a.0 < device_info.primary_unicast.0
                    + device_info.number_of_elements ==> r@ == seq![
                    ((a.0 - device_info.primary_unicast.0) as u8),
                ])
                &&& (!(device_info.primary_unicast.0 <= a.0 < device_info.primary_unicast.0
                    + device_info.number_of_elements) ==> r@.len() == 0)
            },
            crate::address::Address::Group(_) => r@.len() == device_info.number_of_elements
                && forall|i: int| 0 <= i < r@.len() ==> r@[i] == i,
            crate::address::Address::Virtual(_) => r@.len() == device_info.number_of_elements
                && forall|i: int| 0 <= i < r@.len() ==> r@[i] == i,
            crate::address::Address::Unassigned => r@.len() == 0,
        },
{
    let mut r: Vec<u8> = Vec::new();
    match dst {
        crate::address::Address::Unicast(a) => {
            if device_info.is_local_unicast(a) {
                r.push((a.0 - device_info.primary_unicast.0) as u8);
                assert(r@ =~= seq![((a.0 - device_info.primary_unicast.0) as u8)]);
            }
        }
        crate::address::Address::Group(_) | crate::address::Address::Virtual(_) => {
            let mut i: u8 = 0;
            while i < device_info.number_of_elements
                invariant
                    i <= device_info.number_of_elements,
                    r@.len() == i,
                    forall|j: int| 0 <= j < r@.len() ==> r@[j] == j,
                decreases device_info.number_of_elements - i,
            {
                r.push(i);
                i = i + 1;
            }
        }
        crate::address::Address::Unassigned => {}
    }
    r
}

/// What the bearer layer is told about the current mode: which frames
/// to pass up.
#[derive(Copy, Clone, Debug)]
pub enum DeviceState {
    Unprovisioned { uuid: Uuid, in_progress: bool },
    Provisioned,
}

/// The supervisor's current mode.
#[derive(Clone, Debug)]
pub enum Stack {
    Unconfigured,
    Unprovisioned { stack: UnprovisionedStack, uuid: Uuid },
    Provisioned { stack: ProvisionedStack, sequence: Sequence },
}

impl Stack {
    /// What the bearer may deliver: provisioning frames while
    /// unprovisioned, network frames once provisioned, nothing before
    /// a mode exists.
    pub fn device_state(&self) -> (r: Option<DeviceState>)
        ensures
            self is Unconfigured ==> r is None,
            self matches Stack::Unprovisioned { stack, uuid } ==> r == Some(
                DeviceState::Unprovisioned { uuid: *uuid, in_progress: stack.in_progress },
            ),
            self matches Stack::Provisioned { .. } ==> r == Some(DeviceState::Provisioned),
    {
        match self {
            Stack::Unconfigured => None,
            Stack::Unprovisioned { stack, uuid } => Some(DeviceState::Unprovisioned {
                uuid: *uuid,
                in_progress: stack.in_progress(),
            }),
            Stack::Provisioned { .. } => Some(DeviceState::Provisioned),
        }
    }

    /// When the next beacon is due: the unprovisioned device beacon
    /// every 5 s, the secure network beacon every 10 s, none before a
    /// mode exists.
    pub fn next_beacon_deadline(&self, last_beacon: u64) -> (r: Option<u64>)
        requires
            last_beacon <= 0xffff_ffff_ffff_0000u64,
        ensures
            self is Unconfigured ==> r is None,
            self is Unprovisioned ==> r == Some((last_beacon + BEACON_PERIOD_MS) as u64),
            self is Provisioned ==> r == Some((last_beacon + SECURE_BEACON_PERIOD_MS) as u64),
    {
        match self {
            Stack::Unconfigured => None,
            Stack::Unprovisioned { .. } => Some(last_beacon + BEACON_PERIOD_MS),
            Stack::Provisioned { .. } => Some(last_beacon + SECURE_BEACON_PERIOD_MS),
        }
    }

    /// When the next retransmission is due: the provisioning retry
    /// every 500 ms, the transmit-queue pass every 200 ms.
    pub fn next_retransmit(&self, last_pass: u64) -> (r: Option<u64>)
        requires
            last_pass <= 0xffff_ffff_ffff_0000u64,
        ensures
            self is Unconfigured ==> r is None,
            self is Unprovisioned ==> r == Some((last_pass + RETRANSMIT_PERIOD_MS) as u64),
            self is Provisioned ==> r == Some((last_pass + QUEUE_RETRANSMIT_PERIOD_MS) as u64),
    {
        match self {
            Stack::Unconfigured => None,
            Stack::Unprovisioned { .. } => Some(last_pass + RETRANSMIT_PERIOD_MS),
            Stack::Provisioned { .. } => Some(last_pass + QUEUE_RETRANSMIT_PERIOD_MS),
        }
    }

    /// The configuration this mode persists as, if any.
    pub fn configuration(&self) -> (r: Option<Configuration>)
        ensures
            self is Unconfigured ==> r is None,
            self matches Stack::Unprovisioned { uuid, .. } ==> (r matches Some(
                Configuration::Unprovisioned(c)) && c.uuid == *uuid),
            self matches Stack::Provisioned { stack, sequence } ==> (r matches Some(
                Configuration::Provisioned(c)) && c.sequence == sequence.current
                && same_secrets(c.secrets, stack.secrets) && c.device_info == stack.device_info
                && c.network_state == stack.network_state
                && c.foundation == stack.foundation),
    {
        match self {
            Stack::Unconfigured => None,
            Stack::Unprovisioned { uuid, .. } => Some(Configuration::Unprovisioned(
                UnprovisionedConfiguration { uuid: *uuid },
            )),
            Stack::Provisioned { stack, sequence } => Some(Configuration::Provisioned(
                ProvisionedConfiguration {
                    network_state: stack.network_state,
                    secrets: duplicate_secrets(&stack.secrets),
                    device_info: stack.device_info,
                    sequence: sequence.current().0,
                    foundation: stack.foundation,
                },
            )),
        }
    }
}

/// What the supervisor decides to do about its mode after reading the
/// persisted configuration.
#[derive(Clone, Debug)]
pub enum DesiredStack {
    Unchanged,
    Unprovisioned(UnprovisionedConfiguration),
    Provisioned(ProvisionedConfiguration),
}

/// The mode-reconciliation decision of the supervisor loop: swap to the
/// persisted mode whenever the in-memory mode disagrees with it, and
/// leave a matching mode untouched.
pub fn desired_stack(stack: &Stack, config: Configuration) -> (r: DesiredStack)
    ensures
        ({
            &&& stack is Unconfigured || stack is Provisioned
            &&& config matches Configuration::Unprovisioned(c)
        }) ==> (r matches DesiredStack::Unprovisioned(c2)
            && c2.uuid == config->Unprovisioned_0.uuid),
        ({
            &&& stack is Unconfigured || stack is Unprovisioned
            &&& config is Provisioned
        }) ==> r is Provisioned,
        stack is Unprovisioned && config is Unprovisioned ==> r is Unchanged,
        stack is Provisioned && config is Provisioned ==> r is Unchanged,
{
    match (stack, config) {
        (Stack::Unconfigured, Configuration::Unprovisioned(c)) => DesiredStack::Unprovisioned(c),
        (Stack::Provisioned { .. }, Configuration::Unprovisioned(c)) =>
            DesiredStack::Unprovisioned(c),
        (Stack::Unconfigured, Configuration::Provisioned(c)) => DesiredStack::Provisioned(c),
        (Stack::Unprovisioned { .. }, Configuration::Provisioned(c)) =>
            DesiredStack::Provisioned(c),
        _ => DesiredStack::Unchanged,
    }
}

} // verus!

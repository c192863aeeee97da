//! Upper transport: access-message encryption and decryption under the
//! device or an application key, and the label-UUID table that resolves
//! virtual destination addresses.

use vstd::prelude::*;
use crate::address::{Address, LabelUuid, UnicastAddress, VirtualAddress, virtual_address_of};
use crate::common::{IvIndex, SequenceNumber, Ttl};
use crate::crypto::{
    application_nonce, ccm32_decrypt, ccm32_encrypt, ccm32_of, ccm64_decrypt, ccm64_of,
    device_nonce, nonce_layout, push_all, szmic_flags,
};
use crate::device::{Aid, ApplicationKeyHandle, KeyHandle, NetworkKeyHandle};
use crate::error::{DriverError, ParseError};
use crate::mic::{SzMic, TransMic};
use crate::opcode::Opcode;
use crate::secrets::{Secrets, KEY_STORE_MAX};
use crate::sequence::Sequence;

verus! {

/// How many label UUIDs the subscription table holds at most.
pub const LABEL_TABLE_MAX: usize = 20;

/// What accompanies an upper-transport PDU through the stack.
#[derive(Clone, Debug)]
pub struct UpperMetadata {
    pub network_key_handle: NetworkKeyHandle,
    pub iv_index: IvIndex,
    pub akf_aid: Option<Aid>,
    pub seq: SequenceNumber,
    pub src: UnicastAddress,
    pub dst: Address,
    pub ttl: Ttl,
    pub label_uuids: Vec<LabelUuid>,
}

/// An encrypted upper-transport access PDU: the ciphertext and its
/// transport MIC.
#[derive(Clone, Debug)]
pub struct UpperAccessPDU {
    pub payload: Vec<u8>,
    pub transmic: TransMic,
    pub meta: UpperMetadata,
}

impl UpperAccessPDU {
    /// The ciphertext with the MIC appended, as the CCM primitives see
    /// it.
    pub open spec fn ciphertext(&self) -> Seq<u8> {
        self.payload@ + self.transmic.bytes()
    }

    /// The nonce this PDU is decrypted under, given a nonce type octet.
    pub open spec fn nonce_spec(&self, ntype: u8) -> Seq<u8> {
        nonce_layout(
            ntype,
            szmic_flags(if self.transmic is Bit64 { SzMic::Bit64 } else { SzMic::Bit32 }),
            self.meta.seq.0,
            self.meta.src.0,
            self.meta.dst.to_u16(),
            self.meta.iv_index.0,
        )
    }
}

/// An upper-transport control PDU: opcode and parameters, protected by
/// the network MIC alone.
#[derive(Clone, Debug)]
pub struct UpperControlPDU {
    pub opcode: u8,
    pub parameters: Vec<u8>,
    pub meta: UpperMetadata,
}

/// An upper-transport PDU of either kind.
#[derive(Clone, Debug)]
pub enum UpperPDU {
    Access(UpperAccessPDU),
    Control(UpperControlPDU),
}

impl UpperPDU {
    /// The metadata of either kind.
    pub open spec fn meta_spec(&self) -> UpperMetadata {
        match self {
            UpperPDU::Access(pdu) => pdu.meta,
            UpperPDU::Control(pdu) => pdu.meta,
        }
    }
}

/// A decrypted access message with everything its handlers need.
#[derive(Clone, Debug)]
pub struct AccessMessage {
    pub opcode: Opcode,
    pub parameters: Vec<u8>,
    pub src: UnicastAddress,
    pub dst: Address,
    pub ttl: Ttl,
    pub iv_index: IvIndex,
    pub network_key_handle: NetworkKeyHandle,
    pub key_handle: KeyHandle,
    pub label_uuid: Option<LabelUuid>,
}

impl AccessMessage {
    /// The access payload: the opcode's bytes followed by the
    /// parameters.
    pub open spec fn emitted(&self) -> Seq<u8> {
        self.opcode.encoded() + self.parameters@
    }

    /// Build an outbound access message from what a model hands down:
    /// the payload, the sending element's address, and the outbound
    /// metadata, with the node's default TTL where the metadata names
    /// none.
    pub fn new_outbound(
        opcode: Opcode,
        parameters: Vec<u8>,
        element_address: UnicastAddress,
        meta: crate::device::OutboundMetadata,
        default_ttl: Ttl,
    ) -> (r: AccessMessage)
        ensures
            r.opcode == opcode,
            r.parameters@ == parameters@,
            r.src == element_address,
            r.dst == meta.dst,
            r.ttl == (match meta.ttl {
                Some(t) => t,
                None => default_ttl,
            }),
            r.iv_index == meta.iv_index,
            r.network_key_handle == meta.network_key_handle,
            r.key_handle == meta.key_handle,
            r.label_uuid == meta.label_uuid,
    {
        let ttl: Ttl = match meta.ttl {
            Some(t) => t,
            None => default_ttl,
        };
        AccessMessage {
            opcode,
            parameters,
            src: element_address,
            dst: meta.dst,
            ttl,
            iv_index: meta.iv_index,
            network_key_handle: meta.network_key_handle,
            key_handle: meta.key_handle,
            label_uuid: meta.label_uuid,
        }
    }

    /// The metadata handed to a model handler with this message.
    pub fn inbound_metadata(&self) -> (r: crate::device::InboundMetadata)
        requires
            self.key_handle is Device || self.key_handle is Application,
        ensures
            r.src == self.src,
            r.dst == self.dst,
            r.ttl == self.ttl,
            r.network_key_handle == self.network_key_handle,
            r.iv_index == self.iv_index,
            r.key_handle == self.key_handle,
            r.label_uuid == self.label_uuid,
    {
        crate::device::InboundMetadata::new(
            self.src,
            self.dst,
            self.ttl,
            self.network_key_handle,
            self.iv_index,
            self.key_handle,
            self.label_uuid,
        )
    }

    /// Append the opcode and parameters.
    pub fn emit(&self, xmit: &mut Vec<u8>)
        ensures
            final(xmit)@ == old(xmit)@ + self.emitted(),
    {
        let _ = self.opcode.emit(xmit);
        push_all(xmit, self.parameters.as_slice());
        assert(xmit@ =~= old(xmit)@ + self.emitted());
    }
}

/// A control message surfaced to the stack's internal handlers.
#[derive(Clone, Debug)]
pub struct ControlMessage {
    pub opcode: u8,
    pub parameters: Vec<u8>,
    pub src: UnicastAddress,
    pub dst: Address,
    pub ttl: Ttl,
    pub iv_index: IvIndex,
    pub network_key_handle: NetworkKeyHandle,
}

/// A decrypted upper-transport message of either kind.
#[derive(Clone, Debug)]
pub enum Message {
    Access(AccessMessage),
    Control(ControlMessage),
}

/// The upper-transport state: the label-UUID subscription table.
#[derive(Clone, Debug)]
pub struct UpperDriver {
    pub label_uuids: Vec<Option<LabelUuid>>,
}

impl UpperDriver {
    /// A fixed-size table whose present labels carry their own hash.
    pub open spec fn wf(&self) -> bool {
        &&& self.label_uuids@.len() == LABEL_TABLE_MAX
        &&& forall|i: int| 0 <= i < self.label_uuids@.len()
            ==> ((#[trigger] self.label_uuids@[i]) matches Some(l) ==> l.wf())
    }

    /// Whether the table holds this label.
    pub open spec fn holds_label(&self, label: LabelUuid) -> bool {
        exists|i: int| 0 <= i < self.label_uuids@.len()
            && self.label_uuids@[i] == Some(label)
    }

    pub fn new() -> (r: Self)
        ensures
            r.wf(),
            forall|l: LabelUuid| !r.holds_label(l),
    {
        let mut label_uuids: Vec<Option<LabelUuid>> = Vec::new();
        let mut i: usize = 0;
        while i < LABEL_TABLE_MAX
            invariant
                i <= LABEL_TABLE_MAX,
                label_uuids@.len() == i,
                forall|j: int| 0 <= j < i ==> label_uuids@[j] is None,
            decreases LABEL_TABLE_MAX - i,
        {
            label_uuids.push(None);
            i = i + 1;
        }
        Self { label_uuids }
    }

    /// Subscribe a label: it goes into the first free slot, and a full
    /// table refuses it.
    pub fn add_label_uuid(&mut self, label_uuid: LabelUuid) -> (r: Result<(), DriverError>)
        requires
            old(self).wf(),
            label_uuid.wf(),
        ensures
            final(self).wf(),
            r is Ok ==> final(self).holds_label(label_uuid),
            r is Ok ==> forall|l: LabelUuid| l != label_uuid
                ==> final(self).holds_label(l) == old(self).holds_label(l),
            r is Err ==> r == Err::<(), DriverError>(DriverError::InsufficientSpace)
                && *final(self) == *old(self),
            (forall|i: int| 0 <= i < old(self).label_uuids@.len()
                ==> old(self).label_uuids@[i] is Some) ==> r is Err,
            (exists|i: int| 0 <= i < old(self).label_uuids@.len()
                && old(self).label_uuids@[i] is None) ==> r is Ok,
    {
        let ghost pre = *self;
        let mut i: usize = 0;
        while i < LABEL_TABLE_MAX
            invariant
                old(self).wf(),
                *self == *old(self),
                pre == *old(self),
                label_uuid.wf(),
                i <= LABEL_TABLE_MAX,
                forall|j: int| 0 <= j < i ==> self.label_uuids@[j] is Some,
            decreases LABEL_TABLE_MAX - i,
        {
            let slot_free: bool = match &self.label_uuids[i] {
                None => true,
                Some(_) => false,
            };
            if slot_free {
                proof {
                    assert(pre.label_uuids@[i as int] is None);
                }
                self.label_uuids.set(i, Some(label_uuid));
                proof {
                    assert(self.label_uuids@[i as int] == Some(label_uuid));
                    assert forall|j: int| 0 <= j < self.label_uuids@.len()
                        && (#[trigger] self.label_uuids@[j]) is Some
                        implies self.label_uuids@[j]->Some_0.wf() by {
                        if j != i {
                            assert(self.label_uuids@[j] == pre.label_uuids@[j]);
                            assert(pre.wf());
                            assert((pre.label_uuids@[j] matches Some(k) ==> k.wf()));
                        } else {
                            assert(self.label_uuids@[j]->Some_0 == label_uuid);
                        }
                    }
                    assert(self.wf());
                    assert forall|l: LabelUuid| l != label_uuid
                        implies self.holds_label(l) == pre.holds_label(l) by {
                        if pre.holds_label(l) {
                            let w = choose|k: int| 0 <= k < pre.label_uuids@.len()
                                && pre.label_uuids@[k] == Some(l);
                            assert(w != i);
                            assert(self.label_uuids@[w] == Some(l));
                        }
                        if self.holds_label(l) {
                            let w = choose|k: int| 0 <= k < self.label_uuids@.len()
                                && self.label_uuids@[k] == Some(l);
                            assert(w != i);
                            assert(pre.label_uuids@[w] == Some(l));
                        }
                    }
                }
                return Ok(());
            }
            i = i + 1;
        }
        Err(DriverError::InsufficientSpace)
    }

    /// Unsubscribe a label: every slot holding it is cleared.
    pub fn remove_label_uuid(&mut self, label_uuid: LabelUuid)
        requires
            old(self).wf(),
        ensures
            final(self).wf(),
            !final(self).holds_label(label_uuid),
            forall|l: LabelUuid| l != label_uuid
                ==> final(self).holds_label(l) == old(self).holds_label(l),
    {
        let ghost pre = *self;
        let mut i: usize = 0;
        while i < LABEL_TABLE_MAX
            invariant
                old(self).wf(),
                self.wf(),
                pre == *old(self),
                i <= LABEL_TABLE_MAX,
                forall|j: int| 0 <= j < i ==> self.label_uuids@[j] != Some(label_uuid),
                forall|j: int| i <= j < LABEL_TABLE_MAX
                    ==> self.label_uuids@[j] == pre.label_uuids@[j],
                forall|j: int| 0 <= j < i ==> self.label_uuids@[j] == pre.label_uuids@[j]
                    || (pre.label_uuids@[j] == Some(label_uuid) && self.label_uuids@[j] is None),
            decreases LABEL_TABLE_MAX - i,
        {
            let matches_label: bool = match &self.label_uuids[i] {
                Some(inner) => *inner == label_uuid,
                None => false,
            };
            proof {
                if matches_label {
                    let l0 = self.label_uuids@[i as int]->Some_0;
                    assert(l0.uuid@ == label_uuid.uuid@ && l0.address == label_uuid.address);
                    assert(l0.uuid =~= label_uuid.uuid);
                    assert(l0 == label_uuid);
                    assert(self.label_uuids@[i as int] == Some(label_uuid));
                }
            }
            if matches_label {
                self.label_uuids.set(i, None);
            }
            i = i + 1;
        }
        proof {
            assert forall|l: LabelUuid| l != label_uuid
                implies self.holds_label(l) == pre.holds_label(l) by {
                if pre.holds_label(l) {
                    let w = choose|k: int| 0 <= k < pre.label_uuids@.len()
                        && pre.label_uuids@[k] == Some(l);
                    assert(self.label_uuids@[w] == Some(l));
                }
                if self.holds_label(l) {
                    let w = choose|k: int| 0 <= k < self.label_uuids@.len()
                        && self.label_uuids@[k] == Some(l);
                    assert(pre.label_uuids@[w] == Some(l));
                }
            }
        }
    }

    /// The subscribed labels that hash to a virtual address: the trial
    /// candidates for decrypting a message addressed to it.
    pub fn candidates_for(&self, dst: VirtualAddress) -> (r: Vec<LabelUuid>)
        requires
            self.wf(),
        ensures
            forall|k: int| 0 <= k < r@.len() ==> {
                &&& self.holds_label(#[trigger] r@[k])
                &&& r@[k].address == dst
                &&& r@[k].wf()
            },
            forall|l: LabelUuid| self.holds_label(l) && l.address == dst
                ==> exists|k: int| 0 <= k < r@.len() && r@[k] == l,
    {
        let mut r: Vec<LabelUuid> = Vec::new();
        let mut i: usize = 0;
        while i < LABEL_TABLE_MAX
            invariant
                self.wf(),
                i <= LABEL_TABLE_MAX,
                forall|k: int| 0 <= k < r@.len() ==> {
                    &&& self.holds_label(#[trigger] r@[k])
                    &&& r@[k].address == dst
                    &&& r@[k].wf()
                },
                forall|j: int| (0 <= j < i
                    && (#[trigger] self.label_uuids@[j]) is Some
                    && self.label_uuids@[j]->Some_0.address == dst)
                    ==> exists|k: int| 0 <= k < r@.len() && r@[k] == self.label_uuids@[j]->Some_0,
            decreases LABEL_TABLE_MAX - i,
        {
            let ghost pre = r@;
            match &self.label_uuids[i] {
                Some(l) => {
                    if l.address.0 == dst.0 {
                        let picked: LabelUuid = *l;
                        r.push(picked);
                        proof {
                            assert(self.label_uuids@[i as int] == Some(picked));
                            assert(self.holds_label(picked));
                            assert(r@[r@.len() - 1] == picked);
                        }
                    }
                }
                None => {}
            }
            proof {
                assert forall|j: int| (0 <= j < i + 1
                    && (#[trigger] self.label_uuids@[j]) is Some
                    && self.label_uuids@[j]->Some_0.address == dst)
                    implies exists|k: int| 0 <= k < r@.len()
                        && r@[k] == self.label_uuids@[j]->Some_0 by {
                    if j < i {
                        let lw = self.label_uuids@[j]->Some_0;
                        let k = choose|k: int| 0 <= k < pre.len() && pre[k] == lw;
                        assert(r@[k] == lw);
                    } else {
                        assert(r@[r@.len() - 1] == self.label_uuids@[j]->Some_0);
                    }
                }
            }
            i = i + 1;
        }
        proof {
            assert forall|l: LabelUuid| self.holds_label(l) && l.address == dst
                implies exists|k: int| 0 <= k < r@.len() && r@[k] == l by {
                let j = choose|j: int| 0 <= j < self.label_uuids@.len()
                    && self.label_uuids@[j] == Some(l);
            }
        }
        r
    }

    /// Attach the candidate labels of a virtual destination to the
    /// metadata of an inbound PDU; other destinations carry none.
    pub fn apply_label_uuids(&self, meta: &mut UpperMetadata) -> (r: Result<(), DriverError>)
        requires
            self.wf(),
        ensures
            r is Ok,
            final(meta).network_key_handle == old(meta).network_key_handle,
            final(meta).iv_index == old(meta).iv_index,
            final(meta).akf_aid == old(meta).akf_aid,
            final(meta).seq == old(meta).seq,
            final(meta).src == old(meta).src,
            final(meta).dst == old(meta).dst,
            final(meta).ttl == old(meta).ttl,
            match old(meta).dst {
                Address::Virtual(va) => {
                    &&& forall|k: int| 0 <= k < final(meta).label_uuids@.len() ==> {
                        &&& self.holds_label(#[trigger] final(meta).label_uuids@[k])
                        &&& final(meta).label_uuids@[k].address == va
                        &&& final(meta).label_uuids@[k].wf()
                    }
                    &&& forall|l: LabelUuid| self.holds_label(l) && l.address == va
                        ==> exists|k: int| 0 <= k < final(meta).label_uuids@.len()
                            && final(meta).label_uuids@[k] == l
                },
                _ => final(meta).label_uuids == old(meta).label_uuids,
            },
    {
        let dst: Address = meta.dst;
        match dst {
            Address::Virtual(va) => {
                let candidates: Vec<LabelUuid> = self.candidates_for(va);
                let ghost cv = candidates@;
                meta.label_uuids = candidates;
                proof {
                    assert(meta.label_uuids@ == cv);
                    assert forall|l: LabelUuid| self.holds_label(l) && l.address == va
                        implies exists|k: int| 0 <= k < meta.label_uuids@.len()
                            && meta.label_uuids@[k] == l by {
                        let k = choose|k: int| 0 <= k < cv.len() && cv[k] == l;
                        assert(meta.label_uuids@[k] == l);
                    }
                }
            }
            _ => {}
        }
        Ok(())
    }
}

/// The associated data an access encryption binds: the label UUID when
/// the destination is virtual, nothing otherwise.
pub open spec fn aad_of(label: Option<LabelUuid>) -> Seq<u8> {
    match label {
        Some(l) => l.uuid@,
        None => Seq::empty(),
    }
}

/// The CCM function the SZMIC bit selects.
pub open spec fn ccm_of_szmic(szmic: SzMic, key: Seq<u8>, nonce: Seq<u8>, aad: Seq<u8>, m: Seq<u8>)
    -> Seq<u8> {
    if szmic is Bit64 {
        ccm64_of(key, nonce, aad, m)
    } else {
        ccm32_of(key, nonce, aad, m)
    }
}

/// The bytes of a slice between two positions, as a fresh vector.
pub fn copy_range(src: &[u8], from: usize, to: usize) -> (r: Vec<u8>)
    requires
        from <= to <= src@.len(),
    ensures
        r@ == src@.subrange(from as int, to as int),
{
    let mut r: Vec<u8> = Vec::new();
    let mut i: usize = from;
    while i < to
        invariant
            from <= i <= to <= src@.len(),
            r@ == src@.subrange(from as int, i as int),
        decreases to - i,
    {
        r.push(src[i]);
        assert(r@ =~= src@.subrange(from as int, i + 1 as int));
        i = i + 1;
    }
    r
}

/// AES-CCM decryption with the tag size the SZMIC bit selects: it
/// recovers exactly the plaintexts whose encryption under the same key,
/// nonce and associated data is the ciphertext.
pub fn ccm_decrypt_szmic(szmic: SzMic, key: &[u8; 16], nonce: &[u8; 13], aad: &[u8], ct: &[u8])
    -> (r: Result<Vec<u8>, DriverError>)
    ensures
        r matches Ok(m) ==> ct@ == ccm_of_szmic(szmic, key@, nonce@, aad@, m@)
            && m@.len() <= 65535,
        forall|m: Seq<u8>| m.len() <= 65535 && ct@ == ccm_of_szmic(szmic, key@, nonce@, aad@, m)
            ==> (r is Ok && r->Ok_0@ == m),
{
    match szmic {
        SzMic::Bit32 => ccm32_decrypt(key, nonce, aad, ct),
        SzMic::Bit64 => ccm64_decrypt(key, nonce, aad, ct),
    }
}

/// Encrypt an access payload under the device key: a 32-bit transport
/// MIC and no associated data.
pub fn encrypt_device_key(device_key: &[u8; 16], nonce: &[u8; 13], payload: &[u8]) -> (r: Result<
    Vec<u8>,
    DriverError,
>)
    ensures
        payload@.len() <= 65535 ==> r is Ok,
        r matches Ok(ct) ==> ct@ == ccm32_of(device_key@, nonce@, Seq::empty(), payload@),
        r matches Ok(ct) ==> ct@.len() == payload@.len() + 4,
{
    let empty: [u8; 0] = [];
    assert(empty@ =~= Seq::<u8>::empty());
    ccm32_encrypt(device_key, nonce, empty.as_slice(), payload)
}

/// Decrypt an access payload under the device key: succeeds exactly on
/// ciphertexts that device-key encryption under the same nonce produces,
/// and returns that plaintext.
pub fn try_decrypt_device_key(device_key: &[u8; 16], nonce: &[u8; 13], data: &[u8]) -> (r: Result<
    Vec<u8>,
    DriverError,
>)
    ensures
        r matches Ok(m) ==> data@ == ccm32_of(device_key@, nonce@, Seq::empty(), m@)
            && m@.len() <= 65535,
        forall|m: Seq<u8>| m.len() <= 65535 && data@ == ccm32_of(device_key@, nonce@,
            Seq::empty(), m) ==> (r is Ok && r->Ok_0@ == m),
{
    let empty: [u8; 0] = [];
    assert(empty@ =~= Seq::<u8>::empty());
    ccm32_decrypt(device_key, nonce, empty.as_slice(), data)
}

/// Encrypt an access payload under an application key, binding the label
/// UUID of a virtual destination into the associated data.
pub fn encrypt_application_key(application_key: &[u8; 16], nonce: &[u8; 13], payload: &[u8], label:
    Option<LabelUuid>) -> (r: Result<Vec<u8>, DriverError>)
    ensures
        payload@.len() <= 65535 ==> r is Ok,
        r matches Ok(ct) ==> ct@ == ccm32_of(application_key@, nonce@, aad_of(label), payload@),
        r matches Ok(ct) ==> ct@.len() == payload@.len() + 4,
{
    match label {
        Some(l) => ccm32_encrypt(application_key, nonce, l.uuid.as_slice(), payload),
        None => {
            let empty: [u8; 0] = [];
            assert(empty@ =~= Seq::<u8>::empty());
            ccm32_encrypt(application_key, nonce, empty.as_slice(), payload)
        }
    }
}

/// Decrypt an access payload under an application key: succeeds exactly
/// on ciphertexts that application-key encryption under the same nonce
/// and label produces, and returns that plaintext.
pub fn try_decrypt_application_key(application_key: &[u8; 16], nonce: &[u8; 13], data: &[u8], label:
    Option<LabelUuid>) -> (r: Result<Vec<u8>, DriverError>)
    ensures
        r matches Ok(m) ==> data@ == ccm32_of(application_key@, nonce@, aad_of(label), m@)
            && m@.len() <= 65535,
        forall|m: Seq<u8>| m.len() <= 65535 && data@ == ccm32_of(application_key@, nonce@,
            aad_of(label), m) ==> (r is Ok && r->Ok_0@ == m),
{
    match label {
        Some(l) => ccm32_decrypt(application_key, nonce, l.uuid.as_slice(), data),
        None => {
            let empty: [u8; 0] = [];
            assert(empty@ =~= Seq::<u8>::empty());
            ccm32_decrypt(application_key, nonce, empty.as_slice(), data)
        }
    }
}

/// Encrypt an outbound access message into an upper-transport PDU,
/// consuming one sequence number. The ciphertext and 32-bit MIC are the
/// AES-CCM encryption of the emitted message under the key the handle
/// names, with the nonce built from the allocated sequence number; a
/// rollover of the sequence space surfaces before anything is produced.
/// Whether the key handle an outbound message names is one the store
/// can encrypt under: the device key is always at hand, an application
/// key must be stored, and network keys never protect the upper layer.
pub open spec fn key_handle_available(secrets: Secrets, key_handle: KeyHandle) -> bool {
    match key_handle {
        KeyHandle::Device => true,
        KeyHandle::Application(h) => h.0 < KEY_STORE_MAX && secrets.application_keys@[h.0 as int]
            is Some,
        KeyHandle::Network(_) => false,
    }
}

pub fn encrypt_access(secrets: &Secrets, sequence: &mut Sequence, message: &AccessMessage) -> (r:
    Result<UpperAccessPDU, DriverError>)
    requires
        secrets.wf(),
        old(sequence).wf(),
        old(sequence).current < old(sequence).committed,
        !(message.key_handle is Network),
        message.emitted().len() <= 379,
    ensures
        final(sequence).wf(),
        old(sequence).current <= crate::sequence::SEQ_MAX && key_handle_available(
            *secrets,
            message.key_handle,
        ) ==> r is Ok,
        old(sequence).current > crate::sequence::SEQ_MAX ==> r == Err::<UpperAccessPDU,
            DriverError>(DriverError::SeqRolloverError) && *final(sequence) == *old(sequence),
        ({
            &&& old(sequence).current <= crate::sequence::SEQ_MAX
            &&& message.key_handle matches KeyHandle::Application(h)
            &&& (h.0 >= KEY_STORE_MAX || secrets.application_keys@[h.0 as int] is None)
        }) ==> r == Err::<UpperAccessPDU, DriverError>(DriverError::InvalidKeyHandle),
        r matches Ok(pdu) ==> ({
            &&& Sequence::allocates(*old(sequence), *final(sequence), pdu.meta.seq)
            &&& pdu.meta.src == message.src
            &&& pdu.meta.dst == message.dst
            &&& pdu.meta.ttl == message.ttl
            &&& pdu.meta.iv_index == message.iv_index
            &&& pdu.meta.network_key_handle == message.network_key_handle
            &&& pdu.transmic is Bit32
            &&& pdu.payload@.len() == message.emitted().len()
            &&& match message.key_handle {
                KeyHandle::Device => pdu.meta.akf_aid is None && pdu.ciphertext() == ccm32_of(
                    secrets.device_key@,
                    pdu.nonce_spec(0x02),
                    Seq::empty(),
                    message.emitted(),
                ),
                KeyHandle::Application(h) => pdu.meta.akf_aid == Some(h.1)
                    && secrets.application_keys@[h.0 as int] is Some
                    && pdu.ciphertext() == ccm32_of(
                    secrets.application_keys@[h.0 as int]->Some_0.key@,
                    pdu.nonce_spec(0x01),
                    aad_of(message.label_uuid),
                    message.emitted(),
                ),
                KeyHandle::Network(_) => false,
            }
        }),
{
    let seq: crate::common::SequenceNumber = match sequence.next() {
        Ok(s) => s,
        Err(_) => {
            return Err(DriverError::SeqRolloverError);
        }
    };
    let mut payload: Vec<u8> = Vec::new();
    message.emit(&mut payload);

    match message.key_handle {
        KeyHandle::Device => {
            let nonce: [u8; 13] = device_nonce(
                SzMic::Bit32,
                seq,
                message.src,
                message.dst,
                message.iv_index,
            );
            let ct: Vec<u8> = match encrypt_device_key(&secrets.device_key, &nonce, payload.as_slice()) {
                Ok(ct) => ct,
                Err(err) => {
                    proof {
                        assert(false);
                    }
                    return Err(err);
                }
            };
            let n: usize = ct.len();
            let body: Vec<u8> = copy_range(ct.as_slice(), 0, n - 4);
            let mic: [u8; 4] = [ct[n - 4], ct[n - 3], ct[n - 2], ct[n - 1]];
            let transmic = TransMic::Bit32(mic);
            let pdu = UpperAccessPDU {
                payload: body,
                transmic,
                meta: UpperMetadata {
                    network_key_handle: message.network_key_handle,
                    iv_index: message.iv_index,
                    akf_aid: None,
                    seq,
                    src: message.src,
                    dst: message.dst,
                    ttl: message.ttl,
                    label_uuids: Vec::new(),
                },
            };
            proof {
                assert(pdu.ciphertext() =~= ct@);
                assert(pdu.nonce_spec(0x02) == nonce@);
            }
            Ok(pdu)
        }
        KeyHandle::Network(_) => {
            proof {
                assert(false);
            }
            Err(DriverError::InvalidKeyHandle)
        }
        KeyHandle::Application(handle) => {
            let application_key: [u8; 16] = match secrets.application_key(handle) {
                Ok(k) => k,
                Err(err) => {
                    return Err(err);
                }
            };
            let nonce: [u8; 13] = application_nonce(
                SzMic::Bit32,
                seq,
                message.src,
                message.dst,
                message.iv_index,
            );
            let ct: Vec<u8> = match encrypt_application_key(
                &application_key,
                &nonce,
                payload.as_slice(),
                message.label_uuid,
            ) {
                Ok(ct) => ct,
                Err(err) => {
                    proof {
                        assert(false);
                    }
                    return Err(err);
                }
            };
            let n: usize = ct.len();
            let body: Vec<u8> = copy_range(ct.as_slice(), 0, n - 4);
            let mic: [u8; 4] = [ct[n - 4], ct[n - 3], ct[n - 2], ct[n - 1]];
            let transmic = TransMic::Bit32(mic);
            let pdu = UpperAccessPDU {
                payload: body,
                transmic,
                meta: UpperMetadata {
                    network_key_handle: message.network_key_handle,
                    iv_index: message.iv_index,
                    akf_aid: Some(handle.1),
                    seq,
                    src: message.src,
                    dst: message.dst,
                    ttl: message.ttl,
                    label_uuids: Vec::new(),
                },
            };
            proof {
                assert(pdu.ciphertext() =~= ct@);
                assert(pdu.nonce_spec(0x01) == nonce@);
            }
            Ok(pdu)
        }
    }
}

/// The SZMIC bit an inbound PDU's MIC implies.
pub open spec fn szmic_of(pdu: UpperAccessPDU) -> SzMic {
    if pdu.transmic is Bit64 {
        SzMic::Bit64
    } else {
        SzMic::Bit32
    }
}

/// A plaintext `m` witnesses that an inbound PDU with AKF set decrypts
/// under the stored application key at `i` (whose AID is `aid`), with
/// the candidate label at `l` bound as associated data when the
/// destination is virtual (`l` is -1 when there are no candidates).
pub open spec fn app_crypto_witness(
    secrets: Secrets,
    pdu: UpperAccessPDU,
    aid: u8,
    i: int,
    l: int,
    m: Seq<u8>,
) -> bool {
    &&& 0 <= i < KEY_STORE_MAX
    &&& secrets.application_keys@[i] is Some
    &&& secrets.application_keys@[i]->Some_0.aid == aid
    &&& m.len() <= 65535
    &&& if pdu.meta.label_uuids@.len() == 0 {
        &&& !(pdu.meta.dst is Virtual)
        &&& l == -1
        &&& pdu.ciphertext() == ccm_of_szmic(
            szmic_of(pdu),
            secrets.application_keys@[i]->Some_0.key@,
            pdu.nonce_spec(0x01),
            Seq::empty(),
            m,
        )
    } else {
        &&& 0 <= l < pdu.meta.label_uuids@.len()
        &&& pdu.ciphertext() == ccm_of_szmic(
            szmic_of(pdu),
            secrets.application_keys@[i]->Some_0.key@,
            pdu.nonce_spec(0x01),
            pdu.meta.label_uuids@[l].uuid@,
            m,
        )
    }
}

/// A plaintext `m` witnesses that an inbound PDU without AKF decrypts
/// under the device key.
pub open spec fn device_crypto_witness(secrets: Secrets, pdu: UpperAccessPDU, m: Seq<u8>) -> bool {
    &&& m.len() <= 65535
    &&& pdu.ciphertext() == ccm_of_szmic(
        szmic_of(pdu),
        secrets.device_key@,
        pdu.nonce_spec(0x02),
        Seq::empty(),
        m,
    )
}

/// Whether any held key (and candidate label) decrypts the PDU.
pub open spec fn decryptable(secrets: Secrets, pdu: UpperAccessPDU) -> bool {
    match pdu.meta.akf_aid {
        Some(aid) => exists|i: int, l: int, m: Seq<u8>|
            app_crypto_witness(secrets, pdu, aid.0, i, l, m),
        None => exists|m: Seq<u8>| device_crypto_witness(secrets, pdu, m),
    }
}

/// Whether every plaintext any held key (and candidate label) decrypts
/// the PDU to starts with a well-formed opcode. With a single matching
/// key the witness is unique, so this is simply "the plaintext
/// decodes".
pub open spec fn all_witnesses_decode(secrets: Secrets, pdu: UpperAccessPDU) -> bool {
    match pdu.meta.akf_aid {
        Some(aid) => forall|i: int, l: int, m: Seq<u8>|
            app_crypto_witness(secrets, pdu, aid.0, i, l, m) ==> Opcode::decoded(m) is Some,
        None => forall|m: Seq<u8>| device_crypto_witness(secrets, pdu, m)
            ==> Opcode::decoded(m) is Some,
    }
}

/// Build the access message of a decrypted plaintext: the opcode split
/// off the front, the rest as parameters.
fn build_access_message(
    m: &Vec<u8>,
    pdu: &UpperAccessPDU,
    key_handle: KeyHandle,
    label_uuid: Option<LabelUuid>,
) -> (r: Result<AccessMessage, DriverError>)
    ensures
        r matches Ok(msg) ==> ({
            &&& msg.emitted() == m@
            &&& msg.opcode.valid()
            &&& Opcode::decoded(m@) == Some((msg.opcode, msg.opcode.encoded().len() as int))
            &&& msg.src == pdu.meta.src
            &&& msg.dst == pdu.meta.dst
            &&& msg.ttl == pdu.meta.ttl
            &&& msg.iv_index == pdu.meta.iv_index
            &&& msg.network_key_handle == pdu.meta.network_key_handle
            &&& msg.key_handle == key_handle
            &&& msg.label_uuid == label_uuid
        }),
        r is Err ==> r == Err::<AccessMessage, DriverError>(DriverError::ParseError(
            ParseError::InvalidPDUFormat,
        )),
        r is Err <==> Opcode::decoded(m@) is None,
{
    match Opcode::split(m.as_slice()) {
        Some((opcode, n)) => {
            let params: Vec<u8> = copy_range(m.as_slice(), n, m.len());
            let msg = AccessMessage {
                opcode,
                parameters: params,
                src: pdu.meta.src,
                dst: pdu.meta.dst,
                ttl: pdu.meta.ttl,
                iv_index: pdu.meta.iv_index,
                network_key_handle: pdu.meta.network_key_handle,
                key_handle,
                label_uuid,
            };
            proof {
                assert(msg.emitted() =~= m@);
            }
            Ok(msg)
        }
        None => Err(DriverError::ParseError(ParseError::InvalidPDUFormat)),
    }
}

/// Try one application key against a ciphertext: without candidate
/// labels a single trial with no associated data — but never for a
/// virtual destination, which demands a label — else one trial per
/// candidate label, in order.
fn try_one_application_key(
    szmic: SzMic,
    application_key: &[u8; 16],
    nonce: &[u8; 13],
    ct: &[u8],
    labels: &Vec<LabelUuid>,
    dst_is_virtual: bool,
) -> (r: Option<(Vec<u8>, Option<usize>)>)
    ensures
        r matches Some((m, li)) ==> ({
            &&& m@.len() <= 65535
            &&& (labels@.len() == 0 ==> !dst_is_virtual && li is None && ct@ == ccm_of_szmic(
                szmic,
                application_key@,
                nonce@,
                Seq::empty(),
                m@,
            ))
            &&& (labels@.len() > 0 ==> (li matches Some(idx) && idx < labels@.len()
                && ct@ == ccm_of_szmic(
                szmic,
                application_key@,
                nonce@,
                labels@[idx as int].uuid@,
                m@,
            )))
        }),
        r is None && labels@.len() == 0 && !dst_is_virtual ==> (forall|m: Seq<u8>| m.len()
            <= 65535 ==> ct@ != ccm_of_szmic(
            szmic,
            application_key@,
            nonce@,
            Seq::empty(),
            m,
        )),
        r is None && labels@.len() > 0 ==> (forall|l: int, m: Seq<u8>| 0 <= l < labels@.len()
            && m.len() <= 65535 ==> ct@ != #[trigger] ccm_of_szmic(
            szmic,
            application_key@,
            nonce@,
            labels@[l].uuid@,
            m,
        )),
{
    if labels.len() == 0 {
        if dst_is_virtual {
            // a virtual destination with no subscribed label hashing to
            // it is never accepted
            return None;
        }
        let empty: [u8; 0] = [];
        assert(empty@ =~= Seq::<u8>::empty());
        match ccm_decrypt_szmic(szmic, application_key, nonce, empty.as_slice(), ct) {
            Ok(m) => Some((m, None)),
            Err(_) => {
                proof {
                    assert forall|m: Seq<u8>| m.len() <= 65535 implies ct@ != ccm_of_szmic(
                        szmic,
                        application_key@,
                        nonce@,
                        Seq::empty(),
                        m,
                    ) by {
                        if ct@ == ccm_of_szmic(szmic, application_key@, nonce@, Seq::empty(),
                            m) {
                            assert(false);
                        }
                    }
                }
                None
            }
        }
    } else {
        let mut li: usize = 0;
        while li < labels.len()
            invariant
                li <= labels@.len(),
                forall|l: int, m: Seq<u8>| 0 <= l < li && m.len() <= 65535
                    ==> ct@ != #[trigger] ccm_of_szmic(
                    szmic,
                    application_key@,
                    nonce@,
                    labels@[l].uuid@,
                    m,
                ),
            decreases labels@.len() - li,
        {
            let label: LabelUuid = labels[li];
            match ccm_decrypt_szmic(szmic, application_key, nonce, label.uuid.as_slice(), ct) {
                Ok(m) => {
                    return Some((m, Some(li)));
                }
                Err(_) => {
                    proof {
                        assert forall|m: Seq<u8>| m.len() <= 65535 implies ct@
                            != ccm_of_szmic(szmic, application_key@, nonce@, label.uuid@, m)
                            by {
                            if ct@ == ccm_of_szmic(szmic, application_key@, nonce@,
                                label.uuid@, m) {
                                assert(false);
                            }
                        }
                    }
                }
            }
            li = li + 1;
        }
        None
    }
}

/// Decrypt an inbound upper-transport access PDU. With AKF set, every
/// stored application key with the matching AID is tried, and for a
/// virtual destination every candidate label UUID with each of them;
/// without AKF the device key is tried. The PDU is rejected as invalid
/// exactly when no held key decrypts it; when one does, the returned
/// message is the decrypted plaintext, split into opcode and
/// parameters, tagged with the matching key handle and label.
pub fn decrypt_access(secrets: &Secrets, pdu: &UpperAccessPDU) -> (r: Result<
    AccessMessage,
    DriverError,
>)
    requires
        secrets.wf(),
    ensures
        r == Err::<AccessMessage, DriverError>(DriverError::InvalidPDU) <==> !decryptable(
            *secrets,
            *pdu,
        ),
        decryptable(*secrets, *pdu) && all_witnesses_decode(*secrets, *pdu) ==> r is Ok,
        r is Err ==> r == Err::<AccessMessage, DriverError>(DriverError::InvalidPDU)
            || r == Err::<AccessMessage, DriverError>(DriverError::ParseError(
            ParseError::InvalidPDUFormat,
        )),
        r == Err::<AccessMessage, DriverError>(DriverError::ParseError(
            ParseError::InvalidPDUFormat,
        )) ==> !all_witnesses_decode(*secrets, *pdu),
        r matches Ok(msg) ==> ({
            &&& msg.src == pdu.meta.src
            &&& msg.dst == pdu.meta.dst
            &&& msg.ttl == pdu.meta.ttl
            &&& msg.iv_index == pdu.meta.iv_index
            &&& msg.network_key_handle == pdu.meta.network_key_handle
            &&& msg.opcode.valid()
            &&& Opcode::decoded(msg.emitted()) == Some((
                msg.opcode,
                msg.opcode.encoded().len() as int,
            ))
            &&& match pdu.meta.akf_aid {
                Some(aid) => ({
                    &&& msg.key_handle is Application
                    &&& msg.key_handle->Application_0.1 == aid
                    &&& exists|l: int| ({
                        &&& app_crypto_witness(*secrets, *pdu, aid.0,
                            msg.key_handle->Application_0.0 as int, l, msg.emitted())
                        &&& (pdu.meta.label_uuids@.len() == 0 ==> msg.label_uuid is None)
                        &&& (pdu.meta.label_uuids@.len() > 0 ==> 0 <= l
                            < pdu.meta.label_uuids@.len() && msg.label_uuid == Some(
                            pdu.meta.label_uuids@[l],
                        ))
                    })
                }),
                None => msg.key_handle is Device && msg.label_uuid is None
                    && device_crypto_witness(*secrets, *pdu, msg.emitted()),
            }
        }),
{
    let mut ct: Vec<u8> = Vec::new();
    push_all(&mut ct, pdu.payload.as_slice());
    let micv: Vec<u8> = pdu.transmic.to_vec();
    push_all(&mut ct, micv.as_slice());
    proof {
        assert(ct@ =~= pdu.ciphertext());
    }
    let szmic: SzMic = pdu.transmic.szmic();
    let empty: [u8; 0] = [];
    proof {
        assert(szmic == szmic_of(*pdu));
        assert(empty@ =~= Seq::<u8>::empty());
    }

    match pdu.meta.akf_aid {
        Some(aid) => decrypt_access_application(secrets, pdu, aid, &ct, szmic),
        None => {
            let nonce: [u8; 13] = device_nonce(
                szmic,
                pdu.meta.seq,
                pdu.meta.src,
                pdu.meta.dst,
                pdu.meta.iv_index,
            );
            proof {
                assert(nonce@ == pdu.nonce_spec(0x02));
            }
            match ccm_decrypt_szmic(
                szmic,
                &secrets.device_key,
                &nonce,
                empty.as_slice(),
                ct.as_slice(),
            ) {
                Ok(m) => {
                    proof {
                        assert(device_crypto_witness(*secrets, *pdu, m@));
                    }
                    let r = build_access_message(&m, pdu, KeyHandle::Device, None);
                    proof {
                        if r is Ok {
                            let msg = r->Ok_0;
                            assert(device_crypto_witness(*secrets, *pdu, msg.emitted()));
                        }
                        assert(decryptable(*secrets, *pdu));
                    }
                    r
                }
                Err(_) => {
                    proof {
                        assert forall|m: Seq<u8>| !device_crypto_witness(*secrets, *pdu, m)
                            by {
                            if device_crypto_witness(*secrets, *pdu, m) {
                                assert(ct@ == ccm_of_szmic(szmic, secrets.device_key@,
                                    nonce@, Seq::empty(), m));
                            }
                        }
                        assert(!decryptable(*secrets, *pdu));
                    }
                    Err(DriverError::InvalidPDU)
                }
            }
        }
    }
}

/// The AKF arm of access decryption: iterate the stored application
/// keys whose AID matches, trying each candidate label.
fn decrypt_access_application(
    secrets: &Secrets,
    pdu: &UpperAccessPDU,
    aid: Aid,
    ct: &Vec<u8>,
    szmic: SzMic,
) -> (r: Result<AccessMessage, DriverError>)
    requires
        secrets.wf(),
        pdu.meta.akf_aid == Some(aid),
        ct@ == pdu.ciphertext(),
        szmic == szmic_of(*pdu),
    ensures
        r == Err::<AccessMessage, DriverError>(DriverError::InvalidPDU) <==> !decryptable(
            *secrets,
            *pdu,
        ),
        decryptable(*secrets, *pdu) && all_witnesses_decode(*secrets, *pdu) ==> r is Ok,
        r is Err ==> r == Err::<AccessMessage, DriverError>(DriverError::InvalidPDU)
            || r == Err::<AccessMessage, DriverError>(DriverError::ParseError(
            ParseError::InvalidPDUFormat,
        )),
        r == Err::<AccessMessage, DriverError>(DriverError::ParseError(
            ParseError::InvalidPDUFormat,
        )) ==> !all_witnesses_decode(*secrets, *pdu),
        r matches Ok(msg) ==> ({
            &&& msg.src == pdu.meta.src
            &&& msg.dst == pdu.meta.dst
            &&& msg.ttl == pdu.meta.ttl
            &&& msg.iv_index == pdu.meta.iv_index
            &&& msg.network_key_handle == pdu.meta.network_key_handle
            &&& msg.opcode.valid()
            &&& Opcode::decoded(msg.emitted()) == Some((
                msg.opcode,
                msg.opcode.encoded().len() as int,
            ))
            &&& msg.key_handle is Application
            &&& msg.key_handle->Application_0.1 == aid
            &&& exists|l: int| ({
                &&& app_crypto_witness(*secrets, *pdu, aid.0,
                    msg.key_handle->Application_0.0 as int, l, msg.emitted())
                &&& (pdu.meta.label_uuids@.len() == 0 ==> msg.label_uuid is None)
                &&& (pdu.meta.label_uuids@.len() > 0 ==> 0 <= l < pdu.meta.label_uuids@.len()
                    && msg.label_uuid == Some(pdu.meta.label_uuids@[l]))
            })
        }),
{
    let nonce: [u8; 13] = application_nonce(
        szmic,
        pdu.meta.seq,
        pdu.meta.src,
        pdu.meta.dst,
        pdu.meta.iv_index,
    );
    proof {
        assert(nonce@ == pdu.nonce_spec(0x01));
    }
    let candidates: Vec<ApplicationKeyHandle> = secrets.application_keys_by_aid(aid);
    let mut ki: usize = 0;
    while ki < candidates.len()
        invariant
            secrets.wf(),
            pdu.meta.akf_aid == Some(aid),
            ct@ == pdu.ciphertext(),
            nonce@ == pdu.nonce_spec(0x01),
            szmic == szmic_of(*pdu),
            ki <= candidates@.len(),
            forall|k: int| 0 <= k < candidates@.len() ==> {
                &&& (#[trigger] candidates@[k]).0 < KEY_STORE_MAX
                &&& secrets.application_keys@[candidates@[k].0 as int] is Some
                &&& secrets.application_keys@[candidates@[k].0 as int]->Some_0.aid == aid.0
                &&& candidates@[k].1 == aid
            },
            forall|i: int| (0 <= i < KEY_STORE_MAX
                && ((#[trigger] secrets.application_keys@[i]) matches Some(e)
                && e.aid == aid.0))
                ==> exists|k: int| 0 <= k < candidates@.len() && candidates@[k].0 == i,
            forall|k: int| 0 <= k < ki ==> (forall|l: int, m: Seq<u8>|
                !app_crypto_witness(*secrets, *pdu, aid.0,
                    (#[trigger] candidates@[k]).0 as int, l, m)),
        decreases candidates@.len() - ki,
    {
        let handle: ApplicationKeyHandle = candidates[ki];
        let application_key: [u8; 16] = match secrets.application_key(handle) {
            Ok(k) => k,
            Err(_) => {
                proof {
                    assert(false);
                }
                return Err(DriverError::InvalidKeyHandle);
            }
        };
        proof {
            assert(application_key == secrets.application_keys@[handle.0 as int]->Some_0.key);
        }
        let dst_is_virtual: bool = match pdu.meta.dst {
            Address::Virtual(_) => true,
            _ => false,
        };
        match try_one_application_key(szmic, &application_key, &nonce, ct.as_slice(),
            &pdu.meta.label_uuids, dst_is_virtual) {
            Some((m, label_index)) => {
                let label_picked: Option<LabelUuid> = match label_index {
                    Some(idx) => Some(pdu.meta.label_uuids[idx]),
                    None => None,
                };
                let ghost wl: int = match label_index {
                    Some(idx) => idx as int,
                    None => -1,
                };
                proof {
                    assert(app_crypto_witness(*secrets, *pdu, aid.0, handle.0 as int, wl, m@));
                }
                let r = build_access_message(&m, pdu, KeyHandle::Application(handle),
                    label_picked);
                proof {
                    if r is Ok {
                        let msg = r->Ok_0;
                        assert(msg.key_handle == KeyHandle::Application(handle));
                        assert(handle.1 == aid);
                        assert(msg.src == pdu.meta.src);
                        assert(msg.dst == pdu.meta.dst);
                        assert(msg.ttl == pdu.meta.ttl);
                        assert(msg.iv_index == pdu.meta.iv_index);
                        assert(msg.network_key_handle == pdu.meta.network_key_handle);
                        assert(msg.label_uuid == label_picked);
                        assert(app_crypto_witness(*secrets, *pdu, aid.0, handle.0 as int, wl,
                            msg.emitted()));
                        assert(app_crypto_witness(*secrets, *pdu, aid.0,
                            msg.key_handle->Application_0.0 as int, wl, msg.emitted()));
                        assert(exists|l: int| ({
                            &&& app_crypto_witness(*secrets, *pdu, aid.0,
                                msg.key_handle->Application_0.0 as int, l, msg.emitted())
                            &&& (pdu.meta.label_uuids@.len() == 0 ==> msg.label_uuid is None)
                            &&& (pdu.meta.label_uuids@.len() > 0 ==> 0 <= l
                                < pdu.meta.label_uuids@.len() && msg.label_uuid == Some(
                                pdu.meta.label_uuids@[l]))
                        }));
                    }
                    assert(aid == pdu.meta.akf_aid->Some_0);
                    assert(exists|i: int, l: int, m2: Seq<u8>| app_crypto_witness(*secrets,
                        *pdu, pdu.meta.akf_aid->Some_0.0, i, l, m2));
                    assert(decryptable(*secrets, *pdu));
                }
                return r;
            }
            None => {
                proof {
                    assert forall|l: int, m: Seq<u8>| !app_crypto_witness(*secrets, *pdu,
                        aid.0, handle.0 as int, l, m) by {
                        if app_crypto_witness(*secrets, *pdu, aid.0, handle.0 as int, l, m) {
                            if pdu.meta.label_uuids@.len() == 0 {
                                assert(ct@ == ccm_of_szmic(szmic, application_key@, nonce@,
                                    Seq::empty(), m));
                            } else {
                                assert(0 <= l < pdu.meta.label_uuids@.len());
                                assert(ct@ == ccm_of_szmic(szmic, application_key@, nonce@,
                                    pdu.meta.label_uuids@[l].uuid@, m));
                            }
                        }
                    }
                }
            }
        }
        proof {
            assert(candidates@[ki as int] == handle);
        }
        ki = ki + 1;
    }
    proof {
        assert forall|i: int, l: int, m: Seq<u8>| !app_crypto_witness(*secrets, *pdu, aid.0, i,
            l, m) by {
            if app_crypto_witness(*secrets, *pdu, aid.0, i, l, m) {
                assert(secrets.application_keys@[i] is Some
                    && secrets.application_keys@[i]->Some_0.aid == aid.0);
                let k = choose|k: int| 0 <= k < candidates@.len() && candidates@[k].0 == i;
                assert(!app_crypto_witness(*secrets, *pdu, aid.0, candidates@[k].0 as int, l,
                    m));
            }
        }
        assert(!decryptable(*secrets, *pdu));
    }
    Err(DriverError::InvalidPDU)
}

/// Virtual-address acceptance, first direction: when a message
/// addressed to a virtual address decrypts under one of the attached
/// candidate labels, the receiver holds a label UUID whose 14-bit hash
/// is exactly that address.
pub proof fn lemma_virtual_acceptance_requires_label(
    upper: UpperDriver,
    secrets: Secrets,
    pdu: UpperAccessPDU,
    va: VirtualAddress,
    aid: Aid,
)
    requires
        upper.wf(),
        pdu.meta.akf_aid == Some(aid),
        pdu.meta.dst == Address::Virtual(va),
        forall|k: int| 0 <= k < pdu.meta.label_uuids@.len() ==> {
            &&& upper.holds_label(#[trigger] pdu.meta.label_uuids@[k])
            &&& pdu.meta.label_uuids@[k].address == va
            &&& pdu.meta.label_uuids@[k].wf()
        },
        pdu.meta.label_uuids@.len() > 0,
        decryptable(secrets, pdu),
    ensures
        exists|l: LabelUuid| upper.holds_label(l) && l.address == va
            && va.0 == virtual_address_of(l.uuid_spec()),
{
    let (i, l, m) = choose|i: int, l: int, m: Seq<u8>|
        app_crypto_witness(secrets, pdu, aid.0, i, l, m);
    assert(0 <= l < pdu.meta.label_uuids@.len());
    let label = pdu.meta.label_uuids@[l];
    assert(upper.holds_label(label) && label.address == va
        && va.0 == virtual_address_of(label.uuid_spec()));
}

/// Virtual-address acceptance, second direction: acceptance is owed.
/// When the receiver holds a label hashing to the destination address
/// and a stored application key with the frame's AID decrypts the
/// ciphertext under that label, the PDU is decryptable.
pub proof fn lemma_virtual_acceptance_owed(
    upper: UpperDriver,
    secrets: Secrets,
    pdu: UpperAccessPDU,
    va: VirtualAddress,
    aid: Aid,
    label: LabelUuid,
    i: int,
    m: Seq<u8>,
)
    requires
        upper.wf(),
        pdu.meta.akf_aid == Some(aid),
        pdu.meta.dst == Address::Virtual(va),
        forall|l: LabelUuid| upper.holds_label(l) && l.address == va
            ==> exists|k: int| 0 <= k < pdu.meta.label_uuids@.len()
                && pdu.meta.label_uuids@[k] == l,
        upper.holds_label(label),
        label.address == va,
        0 <= i < KEY_STORE_MAX,
        secrets.application_keys@[i] is Some,
        secrets.application_keys@[i]->Some_0.aid == aid.0,
        m.len() <= 65535,
        pdu.ciphertext() == ccm_of_szmic(
            szmic_of(pdu),
            secrets.application_keys@[i]->Some_0.key@,
            pdu.nonce_spec(0x01),
            label.uuid_spec(),
            m,
        ),
    ensures
        decryptable(secrets, pdu),
{
    let k = choose|k: int| 0 <= k < pdu.meta.label_uuids@.len()
        && pdu.meta.label_uuids@[k] == label;
    assert(app_crypto_witness(secrets, pdu, aid.0, i, k, m));
    assert(aid == pdu.meta.akf_aid->Some_0);
    assert(exists|i2: int, l2: int, m2: Seq<u8>| app_crypto_witness(secrets, pdu,
        pdu.meta.akf_aid->Some_0.0, i2, l2, m2));
}

/// Process one inbound upper-transport PDU: attach the candidate labels
/// of a virtual destination, then decrypt an access PDU or surface a
/// control PDU as it stands.
pub fn process_inbound_upper_pdu(upper: &UpperDriver, secrets: &Secrets, pdu: UpperPDU) -> (r:
    Result<Message, DriverError>)
    requires
        upper.wf(),
        secrets.wf(),
    ensures
        pdu is Control ==> ({
            &&& r is Ok
            &&& r->Ok_0 is Control
            &&& r->Ok_0->Control_0.opcode == pdu->Control_0.opcode
            &&& r->Ok_0->Control_0.parameters@ == pdu->Control_0.parameters@
            &&& r->Ok_0->Control_0.src == pdu->Control_0.meta.src
            &&& r->Ok_0->Control_0.dst == pdu->Control_0.meta.dst
            &&& r->Ok_0->Control_0.ttl == pdu->Control_0.meta.ttl
            &&& r->Ok_0->Control_0.iv_index == pdu->Control_0.meta.iv_index
            &&& r->Ok_0->Control_0.network_key_handle == pdu->Control_0.meta.network_key_handle
        }),
        pdu is Access && r is Ok ==> ({
            &&& r->Ok_0 is Access
            &&& r->Ok_0->Access_0.src == pdu->Access_0.meta.src
            &&& r->Ok_0->Access_0.dst == pdu->Access_0.meta.dst
            &&& r->Ok_0->Access_0.ttl == pdu->Access_0.meta.ttl
            &&& r->Ok_0->Access_0.iv_index == pdu->Access_0.meta.iv_index
            &&& r->Ok_0->Access_0.network_key_handle == pdu->Access_0.meta.network_key_handle
            &&& r->Ok_0->Access_0.opcode.valid()
            &&& Opcode::decoded(r->Ok_0->Access_0.emitted()) == Some((
                r->Ok_0->Access_0.opcode,
                r->Ok_0->Access_0.opcode.encoded().len() as int,
            ))
            &&& (pdu->Access_0.meta.akf_aid is Some ==> r->Ok_0->Access_0.key_handle
                is Application)
            &&& (pdu->Access_0.meta.akf_aid is None ==> r->Ok_0->Access_0.key_handle is Device)
        }),
        pdu is Access && r is Err ==> r == Err::<Message, DriverError>(DriverError::InvalidPDU)
            || r == Err::<Message, DriverError>(DriverError::ParseError(
            ParseError::InvalidPDUFormat,
        )),
        ({
            &&& pdu matches UpperPDU::Access(a)
            &&& !(a.meta.dst is Virtual)
            &&& decryptable(*secrets, a)
            &&& all_witnesses_decode(*secrets, a)
        }) ==> r is Ok,
{
    match pdu {
        UpperPDU::Access(access) => {
            let ghost original = access;
            let mut access = access;
            let ghost pre_meta = access.meta;
            let _ = upper.apply_label_uuids(&mut access.meta);
            proof {
                if !(original.meta.dst is Virtual) {
                    assert(access.meta == original.meta);
                    assert(access == original);
                }
            }
            let msg = decrypt_access(secrets, &access)?;
            proof {
                if access.meta.akf_aid is Some {
                    assert(msg.key_handle is Application);
                }
            }
            Ok(Message::Access(msg))
        }
        UpperPDU::Control(control) => {
            Ok(Message::Control(ControlMessage {
                opcode: control.opcode,
                parameters: control.parameters,
                src: control.meta.src,
                dst: control.meta.dst,
                ttl: control.meta.ttl,
                iv_index: control.meta.iv_index,
                network_key_handle: control.meta.network_key_handle,
            }))
        }
    }
}

/// Encrypt one outbound message into an upper-transport PDU. Only
/// access messages go out this way; the control plane writes its PDUs
/// at the network layer.
pub fn process_outbound_message(secrets: &Secrets, sequence: &mut Sequence, message: &Message)
    -> (r: Result<UpperPDU, DriverError>)
    requires
        secrets.wf(),
        old(sequence).wf(),
        old(sequence).current < old(sequence).committed,
        message matches Message::Access(am) && !(am.key_handle is Network)
            && am.emitted().len() <= 379,
    ensures
        final(sequence).wf(),
        old(sequence).current <= crate::sequence::SEQ_MAX && key_handle_available(
            *secrets,
            message->Access_0.key_handle,
        ) ==> r is Ok,
        old(sequence).current > crate::sequence::SEQ_MAX ==> r == Err::<UpperPDU, DriverError>(
            DriverError::SeqRolloverError,
        ) && *final(sequence) == *old(sequence),
        ({
            &&& old(sequence).current <= crate::sequence::SEQ_MAX
            &&& message->Access_0.key_handle matches KeyHandle::Application(h)
            &&& (h.0 >= KEY_STORE_MAX || secrets.application_keys@[h.0 as int] is None)
        }) ==> r == Err::<UpperPDU, DriverError>(DriverError::InvalidKeyHandle),
        r matches Ok(u) ==> (u matches UpperPDU::Access(pdu)
            && message matches Message::Access(am) && ({
            &&& Sequence::allocates(*old(sequence), *final(sequence), pdu.meta.seq)
            &&& pdu.payload@.len() == am.emitted().len()
            &&& pdu.meta.src == am.src
            &&& pdu.meta.dst == am.dst
            &&& pdu.meta.ttl == am.ttl
            &&& pdu.meta.iv_index == am.iv_index
            &&& pdu.meta.network_key_handle == am.network_key_handle
            &&& pdu.transmic is Bit32
            &&& match am.key_handle {
                KeyHandle::Device => pdu.meta.akf_aid is None && pdu.ciphertext() == ccm32_of(
                    secrets.device_key@,
                    pdu.nonce_spec(0x02),
                    Seq::empty(),
                    am.emitted(),
                ),
                KeyHandle::Application(h) => pdu.meta.akf_aid == Some(h.1)
                    && secrets.application_keys@[h.0 as int] is Some
                    && pdu.ciphertext() == ccm32_of(
                    secrets.application_keys@[h.0 as int]->Some_0.key@,
                    pdu.nonce_spec(0x01),
                    aad_of(am.label_uuid),
                    am.emitted(),
                ),
                KeyHandle::Network(_) => false,
            }
        })),
{
    match message {
        Message::Access(access) => {
            let pdu = encrypt_access(secrets, sequence, access)?;
            Ok(UpperPDU::Access(pdu))
        }
        Message::Control(_) => {
            proof {
                assert(false);
            }
            Err(DriverError::InvalidState)
        }
    }
}

/// Field-wise sameness of upper-transport metadata: every scalar field
/// equal and the candidate labels equal as sequences.
pub open spec fn same_meta(a: UpperMetadata, b: UpperMetadata) -> bool {
    &&& a.network_key_handle == b.network_key_handle
    &&& a.iv_index == b.iv_index
    &&& a.akf_aid == b.akf_aid
    &&& a.seq == b.seq
    &&& a.src == b.src
    &&& a.dst == b.dst
    &&& a.ttl == b.ttl
    &&& a.label_uuids@ == b.label_uuids@
}

/// Field-wise sameness of access PDUs.
pub open spec fn same_access_pdu(a: UpperAccessPDU, b: UpperAccessPDU) -> bool {
    &&& a.payload@ == b.payload@
    &&& a.transmic == b.transmic
    &&& same_meta(a.meta, b.meta)
}

/// Field-wise sameness of control PDUs.
pub open spec fn same_control_pdu(a: UpperControlPDU, b: UpperControlPDU) -> bool {
    &&& a.opcode == b.opcode
    &&& a.parameters@ == b.parameters@
    &&& same_meta(a.meta, b.meta)
}

/// Field-wise sameness of upper-transport PDUs.
pub open spec fn same_upper_pdu(a: UpperPDU, b: UpperPDU) -> bool {
    match (a, b) {
        (UpperPDU::Access(x), UpperPDU::Access(y)) => same_access_pdu(x, y),
        (UpperPDU::Control(x), UpperPDU::Control(y)) => same_control_pdu(x, y),
        _ => false,
    }
}

/// Copy a label list element by element.
fn copy_labels(src: &Vec<LabelUuid>) -> (r: Vec<LabelUuid>)
    ensures
        r@ == src@,
{
    let mut r: Vec<LabelUuid> = Vec::new();
    let mut i: usize = 0;
    while i < src.len()
        invariant
            i <= src@.len(),
            r@ == src@.subrange(0, i as int),
        decreases src@.len() - i,
    {
        r.push(src[i]);
        assert(r@ =~= src@.subrange(0, i + 1 as int));
        i = i + 1;
    }
    proof {
        assert(r@ =~= src@);
    }
    r
}

impl UpperMetadata {
    /// A field-wise copy.
    pub fn duplicate(&self) -> (r: UpperMetadata)
        ensures
            same_meta(r, *self),
    {
        UpperMetadata {
            network_key_handle: self.network_key_handle,
            iv_index: self.iv_index,
            akf_aid: self.akf_aid,
            seq: self.seq,
            src: self.src,
            dst: self.dst,
            ttl: self.ttl,
            label_uuids: copy_labels(&self.label_uuids),
        }
    }
}

impl UpperPDU {
    /// A field-wise copy, for retransmission.
    pub fn duplicate(&self) -> (r: UpperPDU)
        ensures
            same_upper_pdu(r, *self),
    {
        match self {
            UpperPDU::Access(pdu) => {
                let mut payload: Vec<u8> = Vec::new();
                push_all(&mut payload, pdu.payload.as_slice());
                assert(payload@ =~= pdu.payload@);
                UpperPDU::Access(UpperAccessPDU {
                    payload,
                    transmic: pdu.transmic,
                    meta: pdu.meta.duplicate(),
                })
            }
            UpperPDU::Control(pdu) => {
                let mut parameters: Vec<u8> = Vec::new();
                push_all(&mut parameters, pdu.parameters.as_slice());
                assert(parameters@ =~= pdu.parameters@);
                UpperPDU::Control(UpperControlPDU {
                    opcode: pdu.opcode,
                    parameters,
                    meta: pdu.meta.duplicate(),
                })
            }
        }
    }
}

} // verus!

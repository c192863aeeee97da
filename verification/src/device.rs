//! What the stack hands to element and model handlers: key handles and
//! the metadata of inbound and outbound access messages.

use vstd::prelude::*;
use crate::address::{Address, LabelUuid, UnicastAddress};
use crate::common::{IvIndex, ModelIdentifier, Ttl};
use crate::opcode::Opcode;

verus! {

/// The 7-bit network key identifier derived from a network key by k2.
#[derive(Copy, Clone, Debug, PartialEq, Eq, Structural, Hash)]
pub struct Nid(pub u8);

/// The 6-bit application key identifier derived from an application key
/// by k4.
#[derive(Copy, Clone, Debug, PartialEq, Eq, Structural, Hash)]
pub struct Aid(pub u8);

/// A handle naming one stored network key, with its NID.
#[derive(Copy, Clone, Debug, PartialEq, Eq, Structural)]
pub struct NetworkKeyHandle(pub u8, pub Nid);

impl NetworkKeyHandle {
    pub fn nid(&self) -> (r: Nid)
        ensures
            r == self.1,
    {
        self.1
    }
}

/// A handle naming one stored application key, with its AID.
#[derive(Copy, Clone, Debug, PartialEq, Eq, Structural)]
pub struct ApplicationKeyHandle(pub u8, pub Aid);

impl ApplicationKeyHandle {
    pub fn aid(&self) -> (r: Aid)
        ensures
            r == self.1,
    {
        self.1
    }
}

/// Which key protects an upper-transport PDU.
#[derive(Copy, Clone, Debug, PartialEq, Eq, Structural)]
pub enum KeyHandle {
    Device,
    Network(NetworkKeyHandle),
    Application(ApplicationKeyHandle),
}

/// What accompanies a decrypted access message up to a model handler.
#[derive(Copy, Clone, Debug)]
pub struct InboundMetadata {
    pub src: UnicastAddress,
    pub dst: Address,
    pub ttl: Ttl,
    pub network_key_handle: NetworkKeyHandle,
    pub iv_index: IvIndex,
    pub key_handle: KeyHandle,
    pub label_uuid: Option<LabelUuid>,
}

impl InboundMetadata {
    pub fn new(
        src: UnicastAddress,
        dst: Address,
        ttl: Ttl,
        network_key_handle: NetworkKeyHandle,
        iv_index: IvIndex,
        key_handle: KeyHandle,
        label_uuid: Option<LabelUuid>,
    ) -> (r: Self)
        ensures
            r.src == src && r.dst == dst && r.ttl == ttl,
            r.network_key_handle == network_key_handle,
            r.iv_index == iv_index,
            r.key_handle == key_handle,
            r.label_uuid == label_uuid,
    {
        Self { src, dst, ttl, network_key_handle, iv_index, key_handle, label_uuid }
    }

    pub fn src(&self) -> (r: UnicastAddress)
        ensures
            r == self.src,
    {
        self.src
    }

    pub fn dst(&self) -> (r: Address)
        ensures
            r == self.dst,
    {
        self.dst
    }

    pub fn ttl(&self) -> (r: Ttl)
        ensures
            r == self.ttl,
    {
        self.ttl
    }

    /// Metadata for answering this message: back to its source, with
    /// the same keys and IV, and the TTL left for the stack to choose.
    pub fn reply(&self) -> (r: OutboundMetadata)
        ensures
            r.dst == Address::Unicast(self.src),
            r.network_key_handle == self.network_key_handle,
            r.iv_index == self.iv_index,
            r.key_handle == self.key_handle,
            r.label_uuid == self.label_uuid,
            r.ttl is None,
    {
        OutboundMetadata {
            dst: Address::Unicast(self.src),
            network_key_handle: self.network_key_handle,
            iv_index: self.iv_index,
            key_handle: self.key_handle,
            label_uuid: self.label_uuid,
            ttl: None,
        }
    }
}

/// What accompanies an access message a model hands down for
/// transmission.
#[derive(Copy, Clone, Debug)]
pub struct OutboundMetadata {
    pub dst: Address,
    pub network_key_handle: NetworkKeyHandle,
    pub iv_index: IvIndex,
    pub key_handle: KeyHandle,
    pub label_uuid: Option<LabelUuid>,
    pub ttl: Option<Ttl>,
}

impl OutboundMetadata {
    /// The same metadata with an explicit TTL.
    pub fn with_ttl(self, ttl: Ttl) -> (r: Self)
        ensures
            r.ttl == Some(ttl),
            r.dst == self.dst && r.network_key_handle == self.network_key_handle
                && r.iv_index == self.iv_index && r.key_handle == self.key_handle
                && r.label_uuid == self.label_uuid,
    {
        OutboundMetadata {
            dst: self.dst,
            network_key_handle: self.network_key_handle,
            iv_index: self.iv_index,
            key_handle: self.key_handle,
            label_uuid: self.label_uuid,
            ttl: Some(ttl),
        }
    }

    pub fn dst(&self) -> (r: Address)
        ensures
            r == self.dst,
    {
        self.dst
    }

    pub fn network_key_handle(&self) -> (r: NetworkKeyHandle)
        ensures
            r == self.network_key_handle,
    {
        self.network_key_handle
    }

    pub fn iv_index(&self) -> (r: IvIndex)
        ensures
            r == self.iv_index,
    {
        self.iv_index
    }

    pub fn key_handle(&self) -> (r: KeyHandle)
        ensures
            r == self.key_handle,
    {
        self.key_handle
    }

    pub fn label_uuid(&self) -> (r: Option<LabelUuid>)
        ensures
            r == self.label_uuid,
    {
        self.label_uuid
    }

    pub fn ttl(&self) -> (r: Option<Ttl>)
        ensures
            r == self.ttl,
    {
        self.ttl
    }
}

/// A model handler an application registers on an element. Messages
/// reach it over bounded channels; the contract here is the
/// synchronous step an event loop drives.
pub trait BluetoothMeshModel {
    /// Which model this handler implements.
    fn model_identifier(&self) -> ModelIdentifier;

    /// Handle one inbound access message addressed to this model.
    fn handle(&mut self, opcode: Opcode, parameters: &Vec<u8>, meta: InboundMetadata);
}

/// What the stack offers a model handler: a way to take the next
/// inbound message and to hand an outbound one down.
pub trait BluetoothMeshModelContext {
    /// The next inbound message for this model, if one is pending.
    fn receive(&mut self) -> Option<(Opcode, Vec<u8>, InboundMetadata)>;

    /// Queue one outbound message; a full channel refuses it.
    fn send(&mut self, opcode: Opcode, parameters: Vec<u8>, meta: OutboundMetadata) -> Result<
        (),
        (),
    >;
}

} // verus!

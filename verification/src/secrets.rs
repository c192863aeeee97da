//! The node's key material: the device key, the stored network keys with
//! their k2/k3 derivations, and the application keys with their AIDs.

use vstd::prelude::*;
use crate::crypto::{k2, k2_nid, k2_t2, k2_t3, k3, k3_full, k4, k4_aid};
use crate::common::NetworkId;
use crate::device::{Aid, ApplicationKeyHandle, NetworkKeyHandle, Nid};
use crate::error::DriverError;

verus! {

/// How many network and application keys the store holds at most.
pub const KEY_STORE_MAX: usize = 4;

/// A stored network key with everything k2 and k3 derive from it. The
/// derivations are fixed by the key, so they are computed once at
/// insertion.
#[derive(Copy, Clone, Debug)]
pub struct NetworkKey {
    pub key: [u8; 16],
    pub nid: u8,
    pub encryption_key: [u8; 16],
    pub privacy_key: [u8; 16],
    pub network_id: [u8; 8],
}

impl NetworkKey {
    /// The derived fields agree with the k2 (parameter 0x00) and k3
    /// derivations of the key.
    pub open spec fn wf(&self) -> bool {
        &&& self.nid == k2_nid(self.key@, seq![0x00u8])
        &&& self.encryption_key@ == k2_t2(self.key@, seq![0x00u8])
        &&& self.privacy_key@ == k2_t3(self.key@, seq![0x00u8])
        &&& self.network_id@ == k3_full(self.key@).subrange(8, 16)
    }

    /// Derive the NID, encryption key, privacy key and network
    /// identifier of a fresh network key.
    pub fn new(key: [u8; 16]) -> (r: Self)
        ensures
            r.key == key,
            r.wf(),
    {
        let p: [u8; 1] = [0x00];
        assert(p@ =~= seq![0x00u8]);
        let (nid, encryption_key, privacy_key): (u8, [u8; 16], [u8; 16]) = k2(&key, p.as_slice());
        let network_id: [u8; 8] = k3(&key);
        Self { key, nid, encryption_key, privacy_key, network_id }
    }

    pub fn network_id(&self) -> (r: NetworkId)
        ensures
            r.0 == self.network_id,
    {
        NetworkId(self.network_id)
    }
}

/// A stored application key with its k4-derived AID and the index of
/// the network key it is bound to.
#[derive(Copy, Clone, Debug)]
pub struct ApplicationKey {
    pub key: [u8; 16],
    pub aid: u8,
    pub bound_net_index: u8,
}

impl ApplicationKey {
    /// The AID agrees with the k4 derivation of the key.
    pub open spec fn wf(&self) -> bool {
        self.aid == k4_aid(self.key@)
    }

    /// Derive the AID of a fresh application key.
    pub fn new(key: [u8; 16], bound_net_index: u8) -> (r: Self)
        ensures
            r.key == key,
            r.bound_net_index == bound_net_index,
            r.wf(),
    {
        let aid: u8 = k4(&key);
        Self { key, aid, bound_net_index }
    }
}

/// The secret store: the singleton device key and the two bounded key
/// tables, indexed by handle.
#[derive(Clone, Debug)]
pub struct Secrets {
    pub device_key: [u8; 16],
    pub network_keys: Vec<Option<NetworkKey>>,
    pub application_keys: Vec<Option<ApplicationKey>>,
}

impl Secrets {
    /// Bounded tables whose present entries carry correct derivations.
    pub open spec fn wf(&self) -> bool {
        &&& self.network_keys@.len() == KEY_STORE_MAX
        &&& self.application_keys@.len() == KEY_STORE_MAX
        &&& forall|i: int| 0 <= i < self.network_keys@.len()
            ==> ((#[trigger] self.network_keys@[i]) matches Some(k) ==> k.wf())
        &&& forall|i: int| 0 <= i < self.application_keys@.len()
            ==> ((#[trigger] self.application_keys@[i]) matches Some(k) ==> k.wf())
    }

    /// A store holding the device key and one network key at index 0.
    pub fn new(device_key: [u8; 16], network_key: [u8; 16]) -> (r: Self)
        ensures
            r.wf(),
            r.device_key == device_key,
            (r.network_keys@[0] matches Some(k) && k.key == network_key),
            forall|i: int| 1 <= i < KEY_STORE_MAX ==> r.network_keys@[i] is None,
            forall|i: int| 0 <= i < KEY_STORE_MAX ==> r.application_keys@[i] is None,
    {
        let mut network_keys: Vec<Option<NetworkKey>> = Vec::new();
        network_keys.push(Some(NetworkKey::new(network_key)));
        network_keys.push(None);
        network_keys.push(None);
        network_keys.push(None);
        let mut application_keys: Vec<Option<ApplicationKey>> = Vec::new();
        application_keys.push(None);
        application_keys.push(None);
        application_keys.push(None);
        application_keys.push(None);
        Self { device_key, network_keys, application_keys }
    }

    pub fn device_key(&self) -> (r: [u8; 16])
        ensures
            r == self.device_key,
    {
        self.device_key
    }

    /// The handle of the network key stored at `index`; absent indices
    /// are invalid handles.
    pub fn network_key_by_index(&self, index: usize) -> (r: Result<NetworkKeyHandle, DriverError>)
        requires
            self.wf(),
        ensures
            index < KEY_STORE_MAX && self.network_keys@[index as int] is Some ==> (r matches Ok(h)
                && h.0 == index
                && h.1.0 == self.network_keys@[index as int]->Some_0.nid),
            index >= KEY_STORE_MAX || self.network_keys@[index as int] is None
                ==> r == Err::<NetworkKeyHandle, DriverError>(DriverError::InvalidKeyHandle),
    {
        if index < KEY_STORE_MAX {
            match &self.network_keys[index] {
                Some(k) => Ok(NetworkKeyHandle(index as u8, Nid(k.nid))),
                None => Err(DriverError::InvalidKeyHandle),
            }
        } else {
            Err(DriverError::InvalidKeyHandle)
        }
    }

    /// The stored network key a handle names.
    pub fn network_key(&self, handle: NetworkKeyHandle) -> (r: Result<NetworkKey, DriverError>)
        requires
            self.wf(),
        ensures
            handle.0 < KEY_STORE_MAX && self.network_keys@[handle.0 as int] is Some ==> (r matches Ok(k)
                && k == self.network_keys@[handle.0 as int]->Some_0 && k.wf()),
            handle.0 >= KEY_STORE_MAX || self.network_keys@[handle.0 as int] is None
                ==> r == Err::<NetworkKey, DriverError>(DriverError::InvalidKeyHandle),
    {
        if (handle.0 as usize) < KEY_STORE_MAX {
            match &self.network_keys[handle.0 as usize] {
                Some(k) => Ok(*k),
                None => Err(DriverError::InvalidKeyHandle),
            }
        } else {
            Err(DriverError::InvalidKeyHandle)
        }
    }

    /// The bytes of the application key a handle names.
    pub fn application_key(&self, handle: ApplicationKeyHandle) -> (r: Result<[u8; 16], DriverError>)
        requires
            self.wf(),
        ensures
            handle.0 < KEY_STORE_MAX && self.application_keys@[handle.0 as int] is Some
                ==> (r matches Ok(k) && k == self.application_keys@[handle.0 as int]->Some_0.key),
            handle.0 >= KEY_STORE_MAX || self.application_keys@[handle.0 as int] is None
                ==> r == Err::<[u8; 16], DriverError>(DriverError::InvalidKeyHandle),
    {
        if (handle.0 as usize) < KEY_STORE_MAX {
            match &self.application_keys[handle.0 as usize] {
                Some(k) => Ok(k.key),
                None => Err(DriverError::InvalidKeyHandle),
            }
        } else {
            Err(DriverError::InvalidKeyHandle)
        }
    }

    /// Store an application key in the first free slot; a full table
    /// refuses it.
    pub fn add_application_key(&mut self, key: [u8; 16], bound_net_index: u8) -> (r: Result<
        ApplicationKeyHandle,
        DriverError,
    >)
        requires
            old(self).wf(),
        ensures
            final(self).wf(),
            final(self).device_key == old(self).device_key,
            final(self).network_keys == old(self).network_keys,
            r matches Ok(h) ==> ({
                &&& h.0 < KEY_STORE_MAX
                &&& final(self).application_keys@[h.0 as int] matches Some(k)
                &&& k.key == key
                &&& h.1.0 == k.aid
            }),
            (exists|i: int| 0 <= i < old(self).application_keys@.len()
                && old(self).application_keys@[i] is None) ==> r is Ok,
            r is Err ==> r == Err::<ApplicationKeyHandle, DriverError>(
                DriverError::InsufficientSpace,
            ) && *final(self) == *old(self),
    {
        let mut i: usize = 0;
        while i < KEY_STORE_MAX
            invariant
                old(self).wf(),
                *self == *old(self),
                i <= KEY_STORE_MAX,
                forall|j: int| 0 <= j < i ==> self.application_keys@[j] is Some,
            decreases KEY_STORE_MAX - i,
        {
            if self.application_keys[i].is_none() {
                let entry = ApplicationKey::new(key, bound_net_index);
                let aid: u8 = entry.aid;
                self.application_keys.set(i, Some(entry));
                proof {
                    assert(self.wf());
                }
                return Ok(ApplicationKeyHandle(i as u8, Aid(aid)));
            }
            i = i + 1;
        }
        Err(DriverError::InsufficientSpace)
    }

    /// The handles of every stored application key whose AID matches:
    /// the candidates tried for an inbound PDU with AKF set.
    pub fn application_keys_by_aid(&self, aid: Aid) -> (r: Vec<ApplicationKeyHandle>)
        requires
            self.wf(),
        ensures
            forall|k: int| 0 <= k < r@.len() ==> {
                &&& (#[trigger] r@[k]).0 < KEY_STORE_MAX
                &&& self.application_keys@[r@[k].0 as int] matches Some(e)
                &&& e.aid == aid.0
                &&& r@[k].1 == aid
            },
            forall|i: int| (0 <= i < KEY_STORE_MAX
                && ((#[trigger] self.application_keys@[i]) matches Some(e) && e.aid == aid.0))
                ==> exists|k: int| 0 <= k < r@.len() && r@[k].0 == i,
    {
        let mut r: Vec<ApplicationKeyHandle> = Vec::new();
        let mut i: usize = 0;
        while i < KEY_STORE_MAX
            invariant
                self.wf(),
                i <= KEY_STORE_MAX,
                forall|k: int| 0 <= k < r@.len() ==> {
                    &&& (#[trigger] r@[k]).0 < i
                    &&& self.application_keys@[r@[k].0 as int] matches Some(e)
                    &&& e.aid == aid.0
                    &&& r@[k].1 == aid
                },
                forall|j: int| (0 <= j < i
                    && ((#[trigger] self.application_keys@[j]) matches Some(e) && e.aid == aid.0))
                    ==> exists|k: int| 0 <= k < r@.len() && r@[k].0 == j,
            decreases KEY_STORE_MAX - i,
        {
            let ghost pre = r@;
            let mut matched: bool = false;
            match &self.application_keys[i] {
                Some(e) => {
                    if e.aid == aid.0 {
                        r.push(ApplicationKeyHandle(i as u8, aid));
                        matched = true;
                        assert(r@[r@.len() - 1].0 == i);
                    }
                }
                None => {}
            }
            proof {
                assert forall|j: int| (0 <= j < i + 1
                    && ((#[trigger] self.application_keys@[j]) matches Some(e) && e.aid == aid.0))
                    implies exists|k: int| 0 <= k < r@.len() && r@[k].0 == j by {
                    if j < i {
                        let k = choose|k: int| 0 <= k < pre.len() && pre[k].0 == j;
                        assert(r@[k].0 == j);
                    } else {
                        assert(r@[r@.len() - 1].0 == j);
                    }
                }
            }
            i = i + 1;
        }
        r
    }

    /// The handles of every stored network key whose NID matches: the
    /// candidates tried when deobfuscating an inbound frame.
    pub fn network_keys_by_nid(&self, nid: Nid) -> (r: Vec<NetworkKeyHandle>)
        requires
            self.wf(),
        ensures
            forall|k: int| 0 <= k < r@.len() ==> {
                &&& (#[trigger] r@[k]).0 < KEY_STORE_MAX
                &&& self.network_keys@[r@[k].0 as int] matches Some(e)
                &&& e.nid == nid.0
                &&& r@[k].1 == nid
            },
            forall|i: int| (0 <= i < KEY_STORE_MAX
                && ((#[trigger] self.network_keys@[i]) matches Some(e) && e.nid == nid.0))
                ==> exists|k: int| 0 <= k < r@.len() && r@[k].0 == i,
    {
        let mut r: Vec<NetworkKeyHandle> = Vec::new();
        let mut i: usize = 0;
        while i < KEY_STORE_MAX
            invariant
                self.wf(),
                i <= KEY_STORE_MAX,
                forall|k: int| 0 <= k < r@.len() ==> {
                    &&& (#[trigger] r@[k]).0 < i
                    &&& self.network_keys@[r@[k].0 as int] matches Some(e)
                    &&& e.nid == nid.0
                    &&& r@[k].1 == nid
                },
                forall|j: int| (0 <= j < i
                    && ((#[trigger] self.network_keys@[j]) matches Some(e) && e.nid == nid.0))
                    ==> exists|k: int| 0 <= k < r@.len() && r@[k].0 == j,
            decreases KEY_STORE_MAX - i,
        {
            let ghost pre = r@;
            match &self.network_keys[i] {
                Some(e) => {
                    if e.nid == nid.0 {
                        r.push(NetworkKeyHandle(i as u8, nid));
                        assert(r@[r@.len() - 1].0 == i);
                    }
                }
                None => {}
            }
            proof {
                assert forall|j: int| (0 <= j < i + 1
                    && ((#[trigger] self.network_keys@[j]) matches Some(e) && e.nid == nid.0))
                    implies exists|k: int| 0 <= k < r@.len() && r@[k].0 == j by {
                    if j < i {
                        let k = choose|k: int| 0 <= k < pre.len() && pre[k].0 == j;
                        assert(r@[k].0 == j);
                    } else {
                        assert(r@[r@.len() - 1].0 == j);
                    }
                }
            }
            i = i + 1;
        }
        r
    }
}

} // verus!

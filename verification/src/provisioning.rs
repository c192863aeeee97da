//! The provisioning state machine of an unprovisioned device: from
//! beaconing through Invite, Capabilities, Start, PublicKey,
//! Confirmation and Random up to the encrypted ProvisioningData and the
//! Complete handshake. Elliptic-curve key agreement happens outside the
//! stack; its results (the device's public key and the shared secret)
//! are handed in as plain values.

use vstd::prelude::*;
use crate::address::UnicastAddress;
use crate::common::{IvIndex, KeyRefreshFlag, IvUpdateFlag};
use crate::crypto::{aes_cmac, aes_cmac_of, ccm64_decrypt, ccm64_of, k1, k1_of, push_all, s1, s1_of};
use crate::error::DriverError;

verus! {

/// An unprovisioned-device beacon is due every 5 s.
pub const BEACON_PERIOD_MS: u64 = 5000;

/// The last outbound PDU is retransmitted every 500 ms.
pub const RETRANSMIT_PERIOD_MS: u64 = 500;

/// A provisioning attempt times out after 30 s without progress.
pub const PROVISIONING_TIMEOUT_MS: u64 = 30000;

/// The capabilities the provisionee reports in its Capabilities PDU.
#[derive(Copy, Clone, Debug, PartialEq, Eq, Structural)]
pub struct Capabilities {
    pub number_of_elements: u8,
}

/// The provisioning PDUs this state machine exchanges, carrying the
/// fields the transitions read. Key agreement values are plain byte
/// arrays.
#[derive(Clone, Debug)]
pub enum ProvisioningPDU {
    Invite { attention_duration: u8 },
    Capabilities { number_of_elements: u8 },
    Start { algorithm: u8, public_key_used: u8, auth_method: u8 },
    PublicKey { xy: Vec<u8> },
    Confirmation { confirmation: [u8; 16] },
    Random { random: [u8; 16] },
    Data { encrypted_and_mic: Vec<u8> },
    Complete,
    Failed { reason: u8 },
}

/// What the provisioner wrote into the session: decrypted
/// ProvisioningData.
#[derive(Clone, Debug)]
pub struct ProvisioningData {
    pub network_key: [u8; 16],
    pub key_index: u16,
    pub key_refresh: KeyRefreshFlag,
    pub iv_update: IvUpdateFlag,
    pub iv_index: IvIndex,
    pub unicast_address: UnicastAddress,
}

/// The key agreement results the stack is handed from outside: its own
/// public key (to echo to the provisioner) and the shared secret.
#[derive(Clone, Debug)]
pub struct KeyAgreement {
    pub public_key: Vec<u8>,
    pub shared_secret: [u8; 32],
}

/// The states of the provisionee.
#[derive(Copy, Clone, Debug, PartialEq, Eq, Structural)]
pub enum ProvisioningState {
    Beaconing,
    Invited,
    Capabilitied,
    Started,
    KeyExchanged,
    Confirmed,
    Randomized,
    Complete,
    Failed,
}

/// What the state machine asks its driver to do after one inbound PDU.
#[derive(Clone, Debug)]
pub enum ProvisioningAction {
    /// Nothing to transmit; wait for the next inbound PDU.
    Continue,
    /// Transmit a response and keep going.
    Respond(ProvisioningPDU),
    /// Provisioning finished: adopt the data, derive the device key,
    /// and transmit Complete a few times.
    Provisioned(ProvisioningData, [u8; 16]),
    /// Provisioning failed; a fresh beaconing stack takes over.
    Fail,
}

/// The ASCII bytes of "prck", the confirmation-key k1 parameter.
pub open spec fn prck_bytes() -> Seq<u8> {
    seq![0x70u8, 0x72u8, 0x63u8, 0x6bu8]
}

/// The ASCII bytes of "prsk", the session-key k1 parameter.
pub open spec fn prsk_bytes() -> Seq<u8> {
    seq![0x70u8, 0x72u8, 0x73u8, 0x6bu8]
}

/// The ASCII bytes of "prsn", the session-nonce k1 parameter.
pub open spec fn prsn_bytes() -> Seq<u8> {
    seq![0x70u8, 0x72u8, 0x73u8, 0x6eu8]
}

/// The ASCII bytes of "prdk", the device-key k1 parameter.
pub open spec fn prdk_bytes() -> Seq<u8> {
    seq![0x70u8, 0x72u8, 0x64u8, 0x6bu8]
}

/// The bytes a provisioning PDU contributes to the ConfirmationInputs
/// transcript: the fields of Invite, Capabilities and Start, then both
/// public keys.
pub open spec fn transcript_bytes(pdu: ProvisioningPDU) -> Seq<u8> {
    match pdu {
        ProvisioningPDU::Invite { attention_duration } => seq![attention_duration],
        ProvisioningPDU::Capabilities { number_of_elements } => seq![number_of_elements],
        ProvisioningPDU::Start { algorithm, public_key_used, auth_method } => seq![
            algorithm,
            public_key_used,
            auth_method,
        ],
        ProvisioningPDU::PublicKey { xy } => xy@,
        _ => Seq::empty(),
    }
}

/// The provisionee's confirmation value over the transcript:
/// AES-CMAC under k1(secret, s1(transcript), "prck") of
/// (random || auth value), with a zero auth value for no-OOB.
pub open spec fn confirmation_of(
    secret: Seq<u8>,
    transcript: Seq<u8>,
    random: Seq<u8>,
) -> Seq<u8> {
    aes_cmac_of(
        k1_of(secret, s1_of(transcript), prck_bytes()),
        random + Seq::new(16, |i: int| 0u8),
    )
}

/// The provisioning salt of a session in its Randomized state.
pub open spec fn session_salt(stack: UnprovisionedStack) -> Seq<u8> {
    provisioning_salt_of(stack.transcript@, stack.peer_random->Some_0@, stack.device_random@)
}

/// Whether a ProvisioningData ciphertext decrypts to `m` under the
/// session keys this session derives.
pub open spec fn data_decryptable(
    stack: UnprovisionedStack,
    secret: Seq<u8>,
    ct: Seq<u8>,
    m: Seq<u8>,
) -> bool {
    ct == ccm64_of(
        k1_of(secret, session_salt(stack), prsk_bytes()),
        k1_of(secret, session_salt(stack), prsn_bytes()).subrange(3, 16),
        Seq::empty(),
        m,
    )
}

/// Whether a decrypted ProvisioningData plaintext is well-formed: 25
/// bytes with a unicast address in range.
pub open spec fn data_plaintext_ok(m: Seq<u8>) -> bool {
    &&& m.len() == 25
    &&& crate::address::UnicastAddress::valid((((m[23] as u16) << 8) | (m[24] as u16)) as u16)
}

/// The provisioning state machine.
#[derive(Clone, Debug)]
pub struct UnprovisionedStack {
    pub state: ProvisioningState,
    pub capabilities: Capabilities,
    pub transcript: Vec<u8>,
    pub device_random: [u8; 16],
    pub peer_confirmation: Option<[u8; 16]>,
    pub peer_random: Option<[u8; 16]>,
    pub last_transmit: Option<ProvisioningPDU>,
    pub in_progress: bool,
}

impl UnprovisionedStack {
    /// A fresh stack, beaconing.
    pub fn new(capabilities: Capabilities) -> (r: Self)
        ensures
            r.state == ProvisioningState::Beaconing,
            r.capabilities == capabilities,
            r.transcript@.len() == 0,
            !r.in_progress,
    {
        Self {
            state: ProvisioningState::Beaconing,
            capabilities,
            transcript: Vec::new(),
            device_random: [0u8; 16],
            peer_confirmation: None,
            peer_random: None,
            last_transmit: None,
            in_progress: false,
        }
    }

    /// Whether a provisioning exchange is under way, which stops the
    /// unprovisioned beacon.
    pub fn in_progress(&self) -> (r: bool)
        ensures
            r == self.in_progress,
    {
        self.in_progress
    }

    /// One step of the provisionee: consume an inbound PDU in the
    /// current state, extend the transcript, and say what to transmit.
    /// A PDU that does not belong to the current state fails the
    /// attempt; after Random, the provisioner's confirmation is checked
    /// against the transcript and the exchanged randoms, and a mismatch
    /// fails the attempt.
    pub fn process(
        &mut self,
        pdu: &ProvisioningPDU,
        random: [u8; 16],
        keys: &KeyAgreement,
    ) -> (r: Result<ProvisioningAction, DriverError>)
        ensures
            old(self).state == ProvisioningState::Beaconing && pdu is Invite ==> ({
                &&& final(self).state == ProvisioningState::Invited
                &&& final(self).in_progress
                &&& r matches Ok(ProvisioningAction::Respond(
                    ProvisioningPDU::Capabilities { number_of_elements }))
                    && number_of_elements == old(self).capabilities.number_of_elements
                &&& final(self).transcript@ == old(self).transcript@ + transcript_bytes(*pdu)
                    + seq![old(self).capabilities.number_of_elements]
            }),
            old(self).state == ProvisioningState::Invited && pdu is Start ==> ({
                &&& final(self).state == ProvisioningState::Started
                &&& r == Ok::<ProvisioningAction, DriverError>(ProvisioningAction::Continue)
                &&& final(self).transcript@ == old(self).transcript@ + transcript_bytes(*pdu)
            }),
            old(self).state == ProvisioningState::Started && pdu is PublicKey ==> ({
                &&& final(self).state == ProvisioningState::KeyExchanged
                &&& r matches Ok(ProvisioningAction::Respond(ProvisioningPDU::PublicKey { xy }))
                    && xy@ == keys.public_key@
                &&& final(self).transcript@ == old(self).transcript@ + transcript_bytes(*pdu)
                    + keys.public_key@
                &&& final(self).device_random == random
            }),
            old(self).state == ProvisioningState::KeyExchanged && pdu is Confirmation ==> ({
                &&& final(self).state == ProvisioningState::Confirmed
                &&& final(self).peer_confirmation == Some(pdu->Confirmation_confirmation)
                &&& r matches Ok(ProvisioningAction::Respond(
                    ProvisioningPDU::Confirmation { confirmation }))
                    && confirmation@ == confirmation_of(
                    keys.shared_secret@,
                    old(self).transcript@,
                    old(self).device_random@,
                )
                &&& final(self).transcript@ == old(self).transcript@
                &&& final(self).device_random == old(self).device_random
            }),
            ({
                &&& old(self).state == ProvisioningState::Confirmed
                &&& pdu matches ProvisioningPDU::Random { random: peer_random }
                &&& old(self).peer_confirmation matches Some(stored)
                &&& confirmation_of(keys.shared_secret@, old(self).transcript@, peer_random@)
                    == stored@
            }) ==> ({
                &&& final(self).state == ProvisioningState::Randomized
                &&& final(self).peer_random == Some(pdu->Random_random)
                &&& r matches Ok(ProvisioningAction::Respond(
                    ProvisioningPDU::Random { random: own }))
                    && own == old(self).device_random
            }),
            ({
                &&& old(self).state == ProvisioningState::Confirmed
                &&& pdu matches ProvisioningPDU::Random { random: peer_random }
                &&& old(self).peer_confirmation matches Some(stored)
                &&& confirmation_of(keys.shared_secret@, old(self).transcript@, peer_random@)
                    != stored@
            }) ==> ({
                &&& final(self).state == ProvisioningState::Failed
                &&& r == Ok::<ProvisioningAction, DriverError>(ProvisioningAction::Fail)
            }),
            r matches Ok(ProvisioningAction::Fail) ==> final(self).state
                == ProvisioningState::Failed,
            ({
                &&& old(self).state == ProvisioningState::Randomized
                &&& old(self).peer_random is Some
                &&& pdu matches ProvisioningPDU::Data { encrypted_and_mic }
                &&& exists|m: Seq<u8>| #[trigger] data_decryptable(*old(self),
                    keys.shared_secret@, encrypted_and_mic@, m) && data_plaintext_ok(m)
            }) ==> (r matches Ok(ProvisioningAction::Provisioned(d, dk))
                && final(self).state == ProvisioningState::Complete
                && dk@ == k1_of(keys.shared_secret@, session_salt(*old(self)), prdk_bytes())
                && exists|m: Seq<u8>| ({
                    &&& #[trigger] data_decryptable(*old(self), keys.shared_secret@,
                        pdu->Data_encrypted_and_mic@, m)
                    &&& data_plaintext_ok(m)
                    &&& d.network_key@ == m.subrange(0, 16)
                    &&& d.unicast_address.0 == (((m[23] as u16) << 8) | (m[24] as u16)) as u16
                    &&& d.iv_index.0 == crate::common::u32_from_be(m[19], m[20], m[21], m[22])
                })),
            r matches Ok(ProvisioningAction::Provisioned(d, k)) ==> ({
                &&& old(self).state == ProvisioningState::Randomized
                &&& final(self).state == ProvisioningState::Complete
            }),
    {
        let state: ProvisioningState = self.state;
        match (state, pdu) {
            (ProvisioningState::Beaconing, ProvisioningPDU::Invite { attention_duration }) => {
                self.transcript.push(*attention_duration);
                self.transcript.push(self.capabilities.number_of_elements);
                self.state = ProvisioningState::Invited;
                self.in_progress = true;
                let response = ProvisioningPDU::Capabilities {
                    number_of_elements: self.capabilities.number_of_elements,
                };
                proof {
                    assert(self.transcript@ =~= old(self).transcript@
                        + transcript_bytes(*pdu)
                        + seq![old(self).capabilities.number_of_elements]);
                }
                Ok(ProvisioningAction::Respond(response))
            }
            (ProvisioningState::Invited, ProvisioningPDU::Start {
                algorithm,
                public_key_used,
                auth_method,
            }) => {
                self.transcript.push(*algorithm);
                self.transcript.push(*public_key_used);
                self.transcript.push(*auth_method);
                self.state = ProvisioningState::Started;
                proof {
                    assert(self.transcript@ =~= old(self).transcript@
                        + transcript_bytes(*pdu));
                }
                Ok(ProvisioningAction::Continue)
            }
            (ProvisioningState::Started, ProvisioningPDU::PublicKey { xy }) => {
                push_all(&mut self.transcript, xy.as_slice());
                push_all(&mut self.transcript, keys.public_key.as_slice());
                self.state = ProvisioningState::KeyExchanged;
                self.device_random = random;
                let mut own_key: Vec<u8> = Vec::new();
                push_all(&mut own_key, keys.public_key.as_slice());
                proof {
                    assert(self.transcript@ =~= old(self).transcript@
                        + transcript_bytes(*pdu) + keys.public_key@);
                    assert(own_key@ =~= keys.public_key@);
                }
                Ok(ProvisioningAction::Respond(ProvisioningPDU::PublicKey { xy: own_key }))
            }
            (ProvisioningState::KeyExchanged, ProvisioningPDU::Confirmation { confirmation }) => {
                self.peer_confirmation = Some(*confirmation);
                self.state = ProvisioningState::Confirmed;
                let device_random: [u8; 16] = self.device_random;
                let own: [u8; 16] = self.confirmation_value(&device_random, keys);
                Ok(ProvisioningAction::Respond(ProvisioningPDU::Confirmation {
                    confirmation: own,
                }))
            }
            (ProvisioningState::Confirmed, ProvisioningPDU::Random { random: peer_random }) => {
                let expected: [u8; 16] = self.confirmation_value(peer_random, keys);
                let has_stored: bool = self.peer_confirmation.is_some();
                let stored: [u8; 16] = match self.peer_confirmation {
                    Some(c) => c,
                    None => [0u8; 16],
                };
                let mut matches_stored: bool = true;
                let mut i: usize = 0;
                while i < 16
                    invariant
                        i <= 16,
                        matches_stored == (forall|j: int| 0 <= j < i
                            ==> expected@[j] == stored@[j]),
                    decreases 16 - i,
                {
                    if expected[i] != stored[i] {
                        matches_stored = false;
                    }
                    i = i + 1;
                }
                proof {
                    if matches_stored {
                        assert(expected@ =~= stored@);
                    } else {
                        assert(expected@ != stored@);
                    }
                }
                if matches_stored && has_stored {
                    self.peer_random = Some(*peer_random);
                    self.state = ProvisioningState::Randomized;
                    Ok(ProvisioningAction::Respond(ProvisioningPDU::Random {
                        random: self.device_random,
                    }))
                } else {
                    self.state = ProvisioningState::Failed;
                    Ok(ProvisioningAction::Fail)
                }
            }
            (ProvisioningState::Randomized, ProvisioningPDU::Data { encrypted_and_mic }) => {
                match self.decrypt_data(encrypted_and_mic.as_slice(), keys) {
                    Ok((data, device_key)) => {
                        self.state = ProvisioningState::Complete;
                        Ok(ProvisioningAction::Provisioned(data, device_key))
                    }
                    Err(_) => {
                        self.state = ProvisioningState::Failed;
                        Ok(ProvisioningAction::Fail)
                    }
                }
            }
            _ => {
                self.state = ProvisioningState::Failed;
                Ok(ProvisioningAction::Fail)
            }
        }
    }

    /// The confirmation value over the current transcript for one of
    /// the exchanged random values, with a zero no-OOB auth value.
    pub fn confirmation_value(&self, random: &[u8; 16], keys: &KeyAgreement) -> (r: [u8; 16])
        ensures
            r@ == confirmation_of(keys.shared_secret@, self.transcript@, random@),
    {
        let confirmation_salt: [u8; 16] = s1(self.transcript.as_slice());
        // the ASCII bytes of "prck"
        let prck: [u8; 4] = [0x70, 0x72, 0x63, 0x6b];
        assert(prck@ =~= prck_bytes());
        let confirmation_key: [u8; 16] = k1(
            keys.shared_secret.as_slice(),
            &confirmation_salt,
            prck.as_slice(),
        );
        let mut message: Vec<u8> = Vec::new();
        push_all(&mut message, random.as_slice());
        let auth_value: [u8; 16] = [0u8; 16];
        push_all(&mut message, auth_value.as_slice());
        proof {
            assert(auth_value@ =~= Seq::new(16, |i: int| 0u8));
            assert(message@ =~= random@ + Seq::new(16, |i: int| 0u8));
        }
        aes_cmac(&confirmation_key, message.as_slice())
    }

    /// Decrypt the ProvisioningData PDU with the session key derived
    /// from the shared secret and the provisioning salt, and derive the
    /// device key. The 25-byte plaintext carries the network key, key
    /// index, flags, IV index and unicast address; an unverifiable or
    /// malformed PDU fails.
    fn decrypt_data(&self, encrypted_and_mic: &[u8], keys: &KeyAgreement) -> (r: Result<
        (ProvisioningData, [u8; 16]),
        DriverError,
    >)
        ensures
            (self.peer_random is Some && exists|m: Seq<u8>| #[trigger] data_decryptable(
                *self,
                keys.shared_secret@,
                encrypted_and_mic@,
                m,
            ) && data_plaintext_ok(m)) ==> r is Ok,
            r matches Ok((data, device_key)) ==> ({
                &&& device_key@ == k1_of(keys.shared_secret@, session_salt(*self),
                    prdk_bytes())
                &&& exists|m: Seq<u8>| ({
                    &&& #[trigger] data_decryptable(*self, keys.shared_secret@,
                        encrypted_and_mic@, m)
                    &&& data_plaintext_ok(m)
                    &&& data.network_key@ == m.subrange(0, 16)
                    &&& data.key_index == (((m[16] as u16) << 8) | (m[17] as u16)) as u16
                    &&& data.iv_index.0 == crate::common::u32_from_be(m[19], m[20], m[21],
                        m[22])
                    &&& data.unicast_address.0 == (((m[23] as u16) << 8) | (m[24] as u16))
                        as u16
                })
            }),
    {
        let peer_random: [u8; 16] = match self.peer_random {
            Some(x) => x,
            None => {
                return Err(DriverError::InvalidState);
            }
        };
        let confirmation_salt: [u8; 16] = s1(self.transcript.as_slice());
        let mut salt_input: Vec<u8> = Vec::new();
        push_all(&mut salt_input, confirmation_salt.as_slice());
        push_all(&mut salt_input, peer_random.as_slice());
        push_all(&mut salt_input, self.device_random.as_slice());
        let provisioning_salt: [u8; 16] = s1(salt_input.as_slice());
        // the ASCII bytes of "prsk", "prsn" and "prdk"
        let prsk: [u8; 4] = [0x70, 0x72, 0x73, 0x6b];
        let prsn: [u8; 4] = [0x70, 0x72, 0x73, 0x6e];
        let prdk: [u8; 4] = [0x70, 0x72, 0x64, 0x6b];
        let session_key: [u8; 16] = k1(
            keys.shared_secret.as_slice(),
            &provisioning_salt,
            prsk.as_slice(),
        );
        let nonce_full: [u8; 16] = k1(
            keys.shared_secret.as_slice(),
            &provisioning_salt,
            prsn.as_slice(),
        );
        let session_nonce: [u8; 13] = [
            nonce_full[3],
            nonce_full[4],
            nonce_full[5],
            nonce_full[6],
            nonce_full[7],
            nonce_full[8],
            nonce_full[9],
            nonce_full[10],
            nonce_full[11],
            nonce_full[12],
            nonce_full[13],
            nonce_full[14],
            nonce_full[15],
        ];
        let empty: [u8; 0] = [];
        proof {
            assert(empty@ =~= Seq::<u8>::empty());
            assert(salt_input@ =~= s1_of(self.transcript@) + peer_random@
                + self.device_random@);
            assert(prsk@ =~= prsk_bytes());
            assert(prsn@ =~= prsn_bytes());
            assert(prdk@ =~= prdk_bytes());
            assert(session_key@ == k1_of(keys.shared_secret@, session_salt(*self),
                prsk_bytes()));
            assert(session_nonce@ =~= k1_of(keys.shared_secret@, session_salt(*self),
                prsn_bytes()).subrange(3, 16));
        }
        let plaintext: Vec<u8> = match ccm64_decrypt(
            &session_key,
            &session_nonce,
            empty.as_slice(),
            encrypted_and_mic,
        ) {
            Ok(p) => p,
            Err(err) => {
                proof {
                    if exists|m: Seq<u8>| #[trigger] data_decryptable(*self,
                        keys.shared_secret@, encrypted_and_mic@, m) && data_plaintext_ok(m) {
                        let m = choose|m: Seq<u8>| #[trigger] data_decryptable(*self,
                            keys.shared_secret@, encrypted_and_mic@, m)
                            && data_plaintext_ok(m);
                        assert(encrypted_and_mic@ == ccm64_of(session_key@, session_nonce@,
                            Seq::empty(), m));
                        assert(false);
                    }
                }
                return Err(err);
            }
        };
        proof {
            if exists|m: Seq<u8>| #[trigger] data_decryptable(*self, keys.shared_secret@,
                encrypted_and_mic@, m) && data_plaintext_ok(m) {
                let m = choose|m: Seq<u8>| #[trigger] data_decryptable(*self,
                    keys.shared_secret@, encrypted_and_mic@, m) && data_plaintext_ok(m);
                assert(encrypted_and_mic@ == ccm64_of(session_key@, session_nonce@,
                    Seq::empty(), m));
                assert(plaintext@ == m);
            }
        }
        if plaintext.len() != 25 {
            proof {
                assert(!(exists|m: Seq<u8>| #[trigger] data_decryptable(*self,
                    keys.shared_secret@, encrypted_and_mic@, m) && data_plaintext_ok(m)));
            }
            return Err(DriverError::InvalidPDU);
        }
        let network_key: [u8; 16] = [
            plaintext[0],
            plaintext[1],
            plaintext[2],
            plaintext[3],
            plaintext[4],
            plaintext[5],
            plaintext[6],
            plaintext[7],
            plaintext[8],
            plaintext[9],
            plaintext[10],
            plaintext[11],
            plaintext[12],
            plaintext[13],
            plaintext[14],
            plaintext[15],
        ];
        let key_index: u16 = (plaintext[16] as u16) << 8 | (plaintext[17] as u16);
        let flags: u8 = plaintext[18];
        let key_refresh = KeyRefreshFlag::parse(flags & 0b00000001);
        let iv_update = IvUpdateFlag::parse(flags & 0b00000010);
        let iv_index = IvIndex::new(
            (plaintext[19] as u32) << 24 | (plaintext[20] as u32) << 16
                | (plaintext[21] as u32) << 8 | (plaintext[22] as u32),
        );
        let addr_raw: u16 = (plaintext[23] as u16) << 8 | (plaintext[24] as u16);
        let unicast_address: UnicastAddress = match UnicastAddress::parse(addr_raw) {
            Ok(a) => a,
            Err(_) => {
                proof {
                    if exists|m: Seq<u8>| #[trigger] data_decryptable(*self,
                        keys.shared_secret@, encrypted_and_mic@, m) && data_plaintext_ok(m) {
                        let m = choose|m: Seq<u8>| #[trigger] data_decryptable(*self,
                            keys.shared_secret@, encrypted_and_mic@, m)
                            && data_plaintext_ok(m);
                        assert(plaintext@ == m);
                        assert(false);
                    }
                }
                return Err(DriverError::InvalidAddress);
            }
        };
        let device_key: [u8; 16] = k1(
            keys.shared_secret.as_slice(),
            &provisioning_salt,
            prdk.as_slice(),
        );
        proof {
            assert(network_key@ =~= plaintext@.subrange(0, 16));
            assert(encrypted_and_mic@ == ccm64_of(session_key@, session_nonce@, Seq::empty(),
                plaintext@));
            assert(data_decryptable(*self, keys.shared_secret@, encrypted_and_mic@,
                plaintext@));
            assert(device_key@ == k1_of(keys.shared_secret@, session_salt(*self),
                prdk_bytes()));
        }
        Ok((
            ProvisioningData {
                network_key,
                key_index,
                key_refresh,
                iv_update,
                iv_index,
                unicast_address,
            },
            device_key,
        ))
    }

    /// The PDU to retransmit while waiting, if any.
    pub fn retransmit(&self) -> (r: &Option<ProvisioningPDU>)
        ensures
            r == self.last_transmit,
    {
        &self.last_transmit
    }
}

/// Encrypt a 25-byte ProvisioningData plaintext for the provisionee:
/// the provisioner's side of the session, used to exercise the
/// handshake end to end.
pub fn encrypt_provisioning_data(session_key: &[u8; 16], session_nonce: &[u8; 13], plaintext:
    &[u8]) -> (r: Result<Vec<u8>, DriverError>)
    ensures
        plaintext@.len() <= 65535 ==> r is Ok,
        r matches Ok(ct) ==> ct@ == ccm64_of(session_key@, session_nonce@, Seq::empty(),
            plaintext@),
{
    let empty: [u8; 0] = [];
    assert(empty@ =~= Seq::<u8>::empty());
    crate::crypto::ccm64_encrypt(session_key, session_nonce, empty.as_slice(), plaintext)
}

/// The provisioning salt: s1 over the confirmation salt and the two
/// exchanged randoms.
pub open spec fn provisioning_salt_of(
    transcript: Seq<u8>,
    provisioner_random: Seq<u8>,
    device_random: Seq<u8>,
) -> Seq<u8> {
    s1_of(s1_of(transcript) + provisioner_random + device_random)
}

/// The session key, session nonce and device key of a provisioning
/// session, derived from the shared secret and the three exchanged
/// random inputs. Public so that both ends of a session can be written
/// against it.
pub fn session_keys(shared_secret: &[u8; 32], transcript: &[u8], provisioner_random: &[u8; 16],
    device_random: &[u8; 16]) -> (r: ([u8; 16], [u8; 13], [u8; 16]))
    ensures
        r.0@ == k1_of(
            shared_secret@,
            provisioning_salt_of(transcript@, provisioner_random@, device_random@),
            prsk_bytes(),
        ),
        r.1@ == k1_of(
            shared_secret@,
            provisioning_salt_of(transcript@, provisioner_random@, device_random@),
            prsn_bytes(),
        ).subrange(3, 16),
        r.2@ == k1_of(
            shared_secret@,
            provisioning_salt_of(transcript@, provisioner_random@, device_random@),
            prdk_bytes(),
        ),
{
    let confirmation_salt: [u8; 16] = s1(transcript);
    let mut salt_input: Vec<u8> = Vec::new();
    push_all(&mut salt_input, confirmation_salt.as_slice());
    push_all(&mut salt_input, provisioner_random.as_slice());
    push_all(&mut salt_input, device_random.as_slice());
    let provisioning_salt: [u8; 16] = s1(salt_input.as_slice());
    let prsk: [u8; 4] = [0x70, 0x72, 0x73, 0x6b];
    let prsn: [u8; 4] = [0x70, 0x72, 0x73, 0x6e];
    let prdk: [u8; 4] = [0x70, 0x72, 0x64, 0x6b];
    proof {
        assert(prsk@ =~= prsk_bytes());
        assert(prsn@ =~= prsn_bytes());
        assert(prdk@ =~= prdk_bytes());
        assert(salt_input@ =~= s1_of(transcript@) + provisioner_random@ + device_random@);
    }
    let session_key: [u8; 16] = k1(shared_secret.as_slice(), &provisioning_salt, prsk.as_slice());
    let nonce_full: [u8; 16] = k1(shared_secret.as_slice(), &provisioning_salt, prsn.as_slice());
    let session_nonce: [u8; 13] = [
        nonce_full[3],
        nonce_full[4],
        nonce_full[5],
        nonce_full[6],
        nonce_full[7],
        nonce_full[8],
        nonce_full[9],
        nonce_full[10],
        nonce_full[11],
        nonce_full[12],
        nonce_full[13],
        nonce_full[14],
        nonce_full[15],
    ];
    let device_key: [u8; 16] = k1(shared_secret.as_slice(), &provisioning_salt, prdk.as_slice());
    proof {
        assert(session_nonce@ =~= nonce_full@.subrange(3, 16));
    }
    (session_key, session_nonce, device_key)
}

} // verus!

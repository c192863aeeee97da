//! The network layer: header obfuscation, frame-level encryption and
//! authentication, NID filtering, and the relay decision.

use vstd::prelude::*;
use crate::address::{Address, UnicastAddress};
use crate::common::{Ctl, IvIndex, Ivi, SequenceNumber, Ttl};
use crate::crypto::{
    aes_ecb, aes_ecb_of, ccm32_decrypt, ccm32_encrypt, ccm32_of, ccm64_decrypt, ccm64_encrypt,
    ccm64_of, ctl_ttl_flags, network_nonce, nonce_layout, push_all,
};
use crate::device::{NetworkKeyHandle, Nid};
use crate::error::DriverError;
use crate::secrets::{NetworkKey, Secrets, KEY_STORE_MAX};
use crate::upper::copy_range;

verus! {

/// A decrypted, deobfuscated network PDU.
#[derive(Clone, Debug)]
pub struct CleartextNetworkPDU {
    pub network_key_handle: NetworkKeyHandle,
    pub ivi: Ivi,
    pub nid: u8,
    pub ctl: Ctl,
    pub ttl: Ttl,
    pub seq: SequenceNumber,
    pub src: UnicastAddress,
    pub dst: Address,
    pub transport_pdu: Vec<u8>,
}

/// The six obfuscated header bytes in clear: CTL and TTL, the 24-bit
/// sequence and the 16-bit source, big-endian.
pub open spec fn header_bytes(ctl: Ctl, ttl: Ttl, seq: SequenceNumber, src: UnicastAddress)
    -> Seq<u8> {
    seq![
        ctl_ttl_flags(ctl is Control, ttl.0),
        ((seq.0 >> 16) & 0xff) as u8,
        ((seq.0 >> 8) & 0xff) as u8,
        (seq.0 & 0xff) as u8,
        ((src.0 >> 8) & 0xff) as u8,
        (src.0 & 0xff) as u8,
    ]
}

/// The privacy ECB block: five zero bytes, the big-endian IV index, and
/// the first seven encrypted bytes of the frame.
pub open spec fn pecb_of(privacy_key: Seq<u8>, iv: u32, privacy_random: Seq<u8>) -> Seq<u8> {
    aes_ecb_of(
        privacy_key,
        seq![0u8, 0u8, 0u8, 0u8, 0u8, ((iv >> 24) & 0xff) as u8, ((iv >> 16) & 0xff) as u8, ((iv
            >> 8) & 0xff) as u8, (iv & 0xff) as u8] + privacy_random,
    )
}

/// The bit-level facts of the wire encodings, gathered once: the
/// IVI/NID octet's parity and low bits, the CTL/TTL octet, and the
/// big-endian 24- and 16-bit fields.
pub proof fn lemma_wire_encode(n0: u8, t0: u8, s0: u32, sr: u16)
    ensures
        (0x80u8 | (n0 & 0x7fu8)) >> 7 == 1,
        (n0 & 0x7fu8) >> 7 != 1,
        (0x80u8 | (n0 & 0x7fu8)) & 0x7f == n0 & 0x7f,
        (n0 & 0x7fu8) & 0x7f == n0 & 0x7f,
        t0 < 0x80 ==> ((0x80u8 | (t0 & 0x7fu8)) >> 7 == 1 && (0x80u8 | (t0 & 0x7fu8)) & 0x7f
            == t0 && (t0 & 0x7fu8) >> 7 != 1 && (t0 & 0x7fu8) & 0x7f == t0),
        s0 < 0x1000000 ==> ((((s0 >> 16) & 0xff) as u8) as u32) << 16 | ((((s0 >> 8) & 0xff)
            as u8) as u32) << 8 | (((s0 & 0xff) as u8) as u32) == s0,
        ((((sr >> 8) & 0xff) as u8) as u16) << 8 | (((sr & 0xff) as u8) as u16) == sr,
{
    assert((0x80u8 | (n0 & 0x7fu8)) >> 7 == 1 && (n0 & 0x7fu8) >> 7 != 1 && (0x80u8 | (n0
        & 0x7fu8)) & 0x7f == n0 & 0x7f && (n0 & 0x7fu8) & 0x7f == n0 & 0x7f && (t0 < 0x80
        ==> ((0x80u8 | (t0 & 0x7fu8)) >> 7 == 1 && (0x80u8 | (t0 & 0x7fu8)) & 0x7f == t0 && (
        t0 & 0x7fu8) >> 7 != 1 && (t0 & 0x7fu8) & 0x7f == t0)) && (s0 < 0x1000000 ==> ((((s0
        >> 16) & 0xff) as u8) as u32) << 16 | ((((s0 >> 8) & 0xff) as u8) as u32) << 8 | (((
        s0 & 0xff) as u8) as u32) == s0) && ((((sr >> 8) & 0xff) as u8) as u16) << 8 | (((sr
        & 0xff) as u8) as u16) == sr) by (bit_vector);
}

/// The inverse direction: bytes recovered from the packed fields equal
/// the bytes the encodings write, for the flag octets and the
/// big-endian 16-, 24- and 32-bit fields.
pub proof fn lemma_wire_decode(
    f0: u8,
    n0: u8,
    h0: u8,
    t0: u8,
    h1: u8,
    h2: u8,
    h3: u8,
    s0: u32,
    h4: u8,
    h5: u8,
    sr: u16,
    c1: u8,
    c2: u8,
    c3: u8,
    c4: u8,
    v32: u32,
)
    ensures
        f0 & 0x7f == n0 & 0x7f ==> ((f0 >> 7 == 1 ==> f0 == (0x80u8 | (n0 & 0x7fu8))) && (f0
            >> 7 != 1 ==> f0 == (n0 & 0x7fu8))),
        t0 == h0 & 0x7f ==> ((h0 >> 7 == 1 ==> h0 == (0x80u8 | (t0 & 0x7fu8))) && (h0 >> 7
            != 1 ==> h0 == (t0 & 0x7fu8))),
        s0 == (h1 as u32) << 16 | (h2 as u32) << 8 | (h3 as u32) ==> (h1 == ((s0 >> 16)
            & 0xff) as u8 && h2 == ((s0 >> 8) & 0xff) as u8 && h3 == (s0 & 0xff) as u8),
        sr == (h4 as u16) << 8 | (h5 as u16) ==> (h4 == ((sr >> 8) & 0xff) as u8 && h5 == (sr
            & 0xff) as u8),
        v32 == (c1 as u32) << 24 | (c2 as u32) << 16 | (c3 as u32) << 8 | (c4 as u32) ==> (c1
            == ((v32 >> 24) & 0xff) as u8 && c2 == ((v32 >> 16) & 0xff) as u8 && c3 == ((v32
            >> 8) & 0xff) as u8 && c4 == (v32 & 0xff) as u8),
{
    assert((f0 & 0x7f == n0 & 0x7f ==> ((f0 >> 7 == 1 ==> f0 == (0x80u8 | (n0 & 0x7fu8)))
        && (f0 >> 7 != 1 ==> f0 == (n0 & 0x7fu8)))) && (t0 == h0 & 0x7f ==> ((h0 >> 7 == 1
        ==> h0 == (0x80u8 | (t0 & 0x7fu8))) && (h0 >> 7 != 1 ==> h0 == (t0 & 0x7fu8)))) && (
    s0 == (h1 as u32) << 16 | (h2 as u32) << 8 | (h3 as u32) ==> (h1 == ((s0 >> 16) & 0xff)
        as u8 && h2 == ((s0 >> 8) & 0xff) as u8 && h3 == (s0 & 0xff) as u8)) && (sr == (h4
        as u16) << 8 | (h5 as u16) ==> (h4 == ((sr >> 8) & 0xff) as u8 && h5 == (sr & 0xff)
        as u8)) && (v32 == (c1 as u32) << 24 | (c2 as u32) << 16 | (c3 as u32) << 8 | (c4
        as u32) ==> (c1 == ((v32 >> 24) & 0xff) as u8 && c2 == ((v32 >> 16) & 0xff) as u8
        && c3 == ((v32 >> 8) & 0xff) as u8 && c4 == (v32 & 0xff) as u8))) by (bit_vector);
}

/// Six bytes combined by exclusive or.
pub open spec fn xor6_of(a: Seq<u8>, b: Seq<u8>) -> Seq<u8> {
    Seq::new(6, |i: int| (a[i] ^ b[i]) as u8)
}

/// Obfuscation is an involution: applying the same privacy block twice
/// restores the header.
pub proof fn lemma_obfuscation_involution(a: Seq<u8>, p: Seq<u8>)
    requires
        a.len() == 6,
        p.len() >= 6,
    ensures
        xor6_of(xor6_of(a, p), p) == a,
{
    assert forall|i: int| 0 <= i < 6 implies xor6_of(xor6_of(a, p), p)[i] == a[i] by {
        let x: u8 = a[i];
        let y: u8 = p[i];
        assert((x ^ y) ^ y == x) by (bit_vector);
    }
    assert(xor6_of(xor6_of(a, p), p) =~= a);
}

/// Exclusive-or six header bytes with the first six privacy-block
/// bytes.
pub fn xor6(a: &[u8], b: &[u8]) -> (r: [u8; 6])
    requires
        a@.len() == 6,
        b@.len() >= 6,
    ensures
        r@ == xor6_of(a@, b@),
{
    let r: [u8; 6] = [
        a[0] ^ b[0],
        a[1] ^ b[1],
        a[2] ^ b[2],
        a[3] ^ b[3],
        a[4] ^ b[4],
        a[5] ^ b[5],
    ];
    assert(r@ =~= xor6_of(a@, b@));
    r
}

/// The encrypted-and-authenticated portion of a frame: the big-endian
/// destination followed by the transport PDU, under the network nonce,
/// with a MIC of 4 bytes for access frames and 8 for control frames.
pub open spec fn encrypted_of(
    key: NetworkKey,
    iv: IvIndex,
    ctl: Ctl,
    ttl: Ttl,
    seq: SequenceNumber,
    src: UnicastAddress,
    dst: Address,
    transport: Seq<u8>,
) -> Seq<u8> {
    let nonce = nonce_layout(0x00, ctl_ttl_flags(ctl is Control, ttl.0), seq.0, src.0, 0x0000,
        iv.0);
    let plain = seq![((dst.to_u16() >> 8) & 0xff) as u8, (dst.to_u16() & 0xff) as u8] + transport;
    if ctl is Control {
        ccm64_of(key.encryption_key@, nonce, Seq::empty(), plain)
    } else {
        ccm32_of(key.encryption_key@, nonce, Seq::empty(), plain)
    }
}

/// A whole wire frame: the IVI-and-NID octet, the obfuscated header,
/// and the encrypted portion.
pub open spec fn frame_of(
    key: NetworkKey,
    iv: IvIndex,
    ivi: Ivi,
    ctl: Ctl,
    ttl: Ttl,
    seq: SequenceNumber,
    src: UnicastAddress,
    dst: Address,
    transport: Seq<u8>,
) -> Seq<u8> {
    let enc = encrypted_of(key, iv, ctl, ttl, seq, src, dst, transport);
    let first: u8 = (if ivi is One {
        (0x80u8 | (key.nid & 0x7fu8)) as u8
    } else {
        (key.nid & 0x7fu8) as u8
    });
    seq![first] + xor6_of(
        header_bytes(ctl, ttl, seq, src),
        pecb_of(key.privacy_key@, iv.0, enc.subrange(0, 7)),
    ) + enc
}

/// Build the privacy block for an IV index and the first seven
/// encrypted bytes.
fn compute_pecb(privacy_key: &[u8; 16], iv: IvIndex, encrypted: &[u8]) -> (r: [u8; 16])
    requires
        encrypted@.len() >= 7,
    ensures
        r@ == pecb_of(privacy_key@, iv.0, encrypted@.subrange(0, 7)),
{
    let block: [u8; 16] = [
        0,
        0,
        0,
        0,
        0,
        ((iv.0 >> 24) & 0xff) as u8,
        ((iv.0 >> 16) & 0xff) as u8,
        ((iv.0 >> 8) & 0xff) as u8,
        (iv.0 & 0xff) as u8,
        encrypted[0],
        encrypted[1],
        encrypted[2],
        encrypted[3],
        encrypted[4],
        encrypted[5],
        encrypted[6],
    ];
    proof {
        assert(block@ =~= seq![0u8, 0u8, 0u8, 0u8, 0u8, ((iv.0 >> 24) & 0xff) as u8, ((iv.0
            >> 16) & 0xff) as u8, ((iv.0 >> 8) & 0xff) as u8, (iv.0 & 0xff) as u8]
            + encrypted@.subrange(0, 7));
    }
    aes_ecb(privacy_key, &block)
}

/// Encrypt and obfuscate one outbound network PDU into its wire frame.
pub fn network_encrypt(key: &NetworkKey, iv: IvIndex, ivi: Ivi, ctl: Ctl, ttl: Ttl, seq:
    SequenceNumber, src: UnicastAddress, dst: Address, transport: &[u8]) -> (r: Result<
    Vec<u8>,
    DriverError,
>)
    requires
        1 <= transport@.len() <= 65533,
    ensures
        r is Ok,
        r matches Ok(frame) ==> frame@ == frame_of(*key, iv, ivi, ctl, ttl, seq, src, dst,
            transport@),
{
    let nonce: [u8; 13] = network_nonce(
        match ctl {
            Ctl::Control => true,
            Ctl::Access => false,
        },
        ttl,
        seq,
        src,
        iv,
    );
    let mut plain: Vec<u8> = Vec::new();
    let d: u16 = dst.value();
    plain.push(((d >> 8) & 0xff) as u8);
    plain.push((d & 0xff) as u8);
    push_all(&mut plain, transport);
    proof {
        assert(plain@ =~= seq![((dst.to_u16() >> 8) & 0xff) as u8, (dst.to_u16() & 0xff) as u8]
            + transport@);
    }
    let empty: [u8; 0] = [];
    proof {
        assert(empty@ =~= Seq::<u8>::empty());
    }
    let encrypted: Vec<u8> = match ctl {
        Ctl::Control => {
            match ccm64_encrypt(&key.encryption_key, &nonce, empty.as_slice(), plain.as_slice()) {
                Ok(ct) => ct,
                Err(err) => {
                    proof {
                        assert(false);
                    }
                    return Err(err);
                }
            }
        }
        Ctl::Access => {
            match ccm32_encrypt(&key.encryption_key, &nonce, empty.as_slice(), plain.as_slice()) {
                Ok(ct) => ct,
                Err(err) => {
                    proof {
                        assert(false);
                    }
                    return Err(err);
                }
            }
        }
    };
    proof {
        assert(encrypted@ == encrypted_of(*key, iv, ctl, ttl, seq, src, dst, transport@));
    }
    let pecb: [u8; 16] = compute_pecb(&key.privacy_key, iv, encrypted.as_slice());
    let header: [u8; 6] = [
        match ctl {
            Ctl::Control => 0x80u8 | (ttl.0 & 0x7f),
            Ctl::Access => ttl.0 & 0x7f,
        },
        ((seq.0 >> 16) & 0xff) as u8,
        ((seq.0 >> 8) & 0xff) as u8,
        (seq.0 & 0xff) as u8,
        ((src.0 >> 8) & 0xff) as u8,
        (src.0 & 0xff) as u8,
    ];
    proof {
        assert(header@ =~= header_bytes(ctl, ttl, seq, src));
    }
    let obfuscated: [u8; 6] = xor6(header.as_slice(), pecb.as_slice());
    let first: u8 = match ivi {
        Ivi::One => 0x80u8 | (key.nid & 0x7f),
        Ivi::Zero => key.nid & 0x7f,
    };
    let mut frame: Vec<u8> = Vec::new();
    frame.push(first);
    push_all(&mut frame, obfuscated.as_slice());
    push_all(&mut frame, encrypted.as_slice());
    proof {
        assert(frame@ =~= frame_of(*key, iv, ivi, ctl, ttl, seq, src, dst, transport@));
    }
    Ok(frame)
}

/// Whether a wire frame is exactly the encryption of a network PDU
/// with these fields under this key and IV index, the fields lying in
/// their canonical wire ranges.
pub open spec fn frame_source(
    key: NetworkKey,
    iv: IvIndex,
    frame: Seq<u8>,
    ivi: Ivi,
    ctl: Ctl,
    ttl: Ttl,
    seq: SequenceNumber,
    src: UnicastAddress,
    dst: Address,
    transport: Seq<u8>,
) -> bool {
    &&& frame == frame_of(key, iv, ivi, ctl, ttl, seq, src, dst, transport)
    &&& frame.len() >= 14
    &&& ttl.0 < 0x80
    &&& seq.0 < 0x1000000
    &&& UnicastAddress::valid(src.0)
    &&& dst == Address::of_u16(dst.to_u16())
    &&& 1 <= transport.len() <= 65533
}

/// Whether some canonical network PDU encrypts to this frame under the
/// key: such a frame is owed successful decryption.
pub open spec fn decryptable_frame(key: NetworkKey, iv: IvIndex, frame: Seq<u8>) -> bool {
    exists|ivi: Ivi, ctl: Ctl, ttl: Ttl, seq: SequenceNumber, src: UnicastAddress, dst: Address,
        transport: Seq<u8>|
        #[trigger] frame_source(key, iv, frame, ivi, ctl, ttl, seq, src, dst, transport)
}

/// How a frame built by `frame_of` splits back into its first octet,
/// its obfuscated header and its encrypted portion.
pub proof fn lemma_frame_decomposition(
    key: NetworkKey,
    iv: IvIndex,
    frame: Seq<u8>,
    ivi: Ivi,
    ctl: Ctl,
    ttl: Ttl,
    seq: SequenceNumber,
    src: UnicastAddress,
    dst: Address,
    transport: Seq<u8>,
)
    requires
        frame_source(key, iv, frame, ivi, ctl, ttl, seq, src, dst, transport),
    ensures
        frame.len() == 7 + encrypted_of(key, iv, ctl, ttl, seq, src, dst, transport).len(),
        frame[0] == (if ivi is One {
            (0x80u8 | (key.nid & 0x7fu8)) as u8
        } else {
            (key.nid & 0x7fu8) as u8
        }),
        frame.subrange(7, frame.len() as int) == encrypted_of(
            key,
            iv,
            ctl,
            ttl,
            seq,
            src,
            dst,
            transport,
        ),
        frame.subrange(1, 7) == xor6_of(
            header_bytes(ctl, ttl, seq, src),
            pecb_of(
                key.privacy_key@,
                iv.0,
                encrypted_of(key, iv, ctl, ttl, seq, src, dst, transport).subrange(0, 7),
            ),
        ),
{
    let enc = encrypted_of(key, iv, ctl, ttl, seq, src, dst, transport);
    let obf = xor6_of(
        header_bytes(ctl, ttl, seq, src),
        pecb_of(key.privacy_key@, iv.0, enc.subrange(0, 7)),
    );
    assert(obf.len() == 6);
    assert(frame.len() == 1 + 6 + enc.len());
    assert(frame.subrange(7, frame.len() as int) =~= enc);
    assert(frame.subrange(1, 7) =~= obf);
}

/// Attempt to deobfuscate and decrypt an inbound frame with one network
/// key. On success the returned PDU's fields reproduce the frame
/// exactly: re-encrypting them under the same key and IV yields the
/// same bytes. Conversely, a frame some canonical PDU encrypts to
/// under this key is owed success.
#[verifier::rlimit(60)]
pub fn network_decrypt_with_key(key: &NetworkKey, handle: NetworkKeyHandle, iv: IvIndex, frame:
    &[u8]) -> (r: Result<CleartextNetworkPDU, DriverError>)
    ensures
        r matches Ok(pdu) ==> ({
            &&& pdu.network_key_handle == handle
            &&& frame@ == frame_of(*key, iv, pdu.ivi, pdu.ctl, pdu.ttl, pdu.seq, pdu.src,
                pdu.dst, pdu.transport_pdu@)
            &&& pdu.nid == key.nid & 0x7f
        }),
        decryptable_frame(*key, iv, frame@) ==> r is Ok,
        forall|w_ivi: Ivi, w_ctl: Ctl, w_ttl: Ttl, w_seq: SequenceNumber,
            w_src: UnicastAddress, w_dst: Address, w_tp: Seq<u8>|
            #[trigger] frame_source(*key, iv, frame@, w_ivi, w_ctl, w_ttl, w_seq, w_src,
                w_dst, w_tp) ==> (r matches Ok(pdu) && pdu.ivi == w_ivi && pdu.ctl == w_ctl
            && pdu.ttl == w_ttl && pdu.seq == w_seq && pdu.src == w_src && pdu.dst == w_dst
            && pdu.transport_pdu@ == w_tp),
{
    if frame.len() < 14 {
        proof {
            if decryptable_frame(*key, iv, frame@) {
                let (w_ivi, w_ctl, w_ttl, w_seq, w_src, w_dst, w_tp) = choose|w_ivi: Ivi,
                    w_ctl: Ctl, w_ttl: Ttl, w_seq: SequenceNumber, w_src: UnicastAddress,
                    w_dst: Address, w_tp: Seq<u8>| #[trigger] frame_source(*key, iv, frame@,
                    w_ivi, w_ctl, w_ttl, w_seq, w_src, w_dst, w_tp);
                assert(false);
            }
        }
        return Err(DriverError::InvalidPDU);
    }
    let first: u8 = frame[0];
    if (first & 0x7f) != (key.nid & 0x7f) {
        proof {
            if decryptable_frame(*key, iv, frame@) {
                let (w_ivi, w_ctl, w_ttl, w_seq, w_src, w_dst, w_tp) = choose|w_ivi: Ivi,
                    w_ctl: Ctl, w_ttl: Ttl, w_seq: SequenceNumber, w_src: UnicastAddress,
                    w_dst: Address, w_tp: Seq<u8>| #[trigger] frame_source(*key, iv, frame@,
                    w_ivi, w_ctl, w_ttl, w_seq, w_src, w_dst, w_tp);
                lemma_frame_decomposition(*key, iv, frame@, w_ivi, w_ctl, w_ttl, w_seq,
                    w_src, w_dst, w_tp);
                let n0: u8 = key.nid;
                lemma_wire_encode(n0, 0, 0, 0);
                assert(false);
            }
        }
        return Err(DriverError::InvalidPDU);
    }
    let ivi: Ivi = if first >> 7 == 1 {
        Ivi::One
    } else {
        Ivi::Zero
    };
    let encrypted: Vec<u8> = copy_range(frame, 7, frame.len());
    let pecb: [u8; 16] = compute_pecb(&key.privacy_key, iv, encrypted.as_slice());
    let obfuscated: Vec<u8> = copy_range(frame, 1, 7);
    let header: [u8; 6] = xor6(obfuscated.as_slice(), pecb.as_slice());
    let ctl: Ctl = if header[0] >> 7 == 1 {
        Ctl::Control
    } else {
        Ctl::Access
    };
    let ttl: Ttl = Ttl(header[0] & 0x7f);
    let seq: SequenceNumber = SequenceNumber(
        (header[1] as u32) << 16 | (header[2] as u32) << 8 | (header[3] as u32),
    );
    let src_raw: u16 = (header[4] as u16) << 8 | (header[5] as u16);
    proof {
        if decryptable_frame(*key, iv, frame@) {
            let (w_ivi, w_ctl, w_ttl, w_seq, w_src, w_dst, w_tp) = choose|w_ivi: Ivi,
                w_ctl: Ctl, w_ttl: Ttl, w_seq: SequenceNumber, w_src: UnicastAddress,
                w_dst: Address, w_tp: Seq<u8>| #[trigger] frame_source(*key, iv, frame@,
                w_ivi, w_ctl, w_ttl, w_seq, w_src, w_dst, w_tp);
            lemma_frame_decomposition(*key, iv, frame@, w_ivi, w_ctl, w_ttl, w_seq, w_src,
                w_dst, w_tp);
            let enc_w = encrypted_of(*key, iv, w_ctl, w_ttl, w_seq, w_src, w_dst, w_tp);
            assert(encrypted@ == enc_w);
            assert(encrypted@.subrange(0, 7) == enc_w.subrange(0, 7));
            assert(pecb@ == pecb_of(key.privacy_key@, iv.0, enc_w.subrange(0, 7)));
            assert(obfuscated@ == xor6_of(header_bytes(w_ctl, w_ttl, w_seq, w_src), pecb@));
            lemma_obfuscation_involution(header_bytes(w_ctl, w_ttl, w_seq, w_src), pecb@);
            assert(header@ =~= header_bytes(w_ctl, w_ttl, w_seq, w_src));
            lemma_wire_encode(0, w_ttl.0, w_seq.0, w_src.0);
            assert(ctl == w_ctl && ttl == w_ttl);
            assert(seq == w_seq);
            assert(src_raw == w_src.0);
        }
    }
    let src: UnicastAddress = match UnicastAddress::parse(src_raw) {
        Ok(a) => a,
        Err(_) => {
            proof {
                assert(!decryptable_frame(*key, iv, frame@));
            }
            return Err(DriverError::InvalidAddress);
        }
    };
    let nonce: [u8; 13] = network_nonce(
        match ctl {
            Ctl::Control => true,
            Ctl::Access => false,
        },
        ttl,
        seq,
        src,
        iv,
    );
    let empty: [u8; 0] = [];
    proof {
        assert(empty@ =~= Seq::<u8>::empty());
        if decryptable_frame(*key, iv, frame@) {
            let (w_ivi, w_ctl, w_ttl, w_seq, w_src, w_dst, w_tp) = choose|w_ivi: Ivi,
                w_ctl: Ctl, w_ttl: Ttl, w_seq: SequenceNumber, w_src: UnicastAddress,
                w_dst: Address, w_tp: Seq<u8>| #[trigger] frame_source(*key, iv, frame@,
                w_ivi, w_ctl, w_ttl, w_seq, w_src, w_dst, w_tp);
            assert(src == w_src);
            assert(nonce@ == nonce_layout(0x00, ctl_ttl_flags(w_ctl is Control, w_ttl.0),
                w_seq.0, w_src.0, 0x0000, iv.0));
        }
    }
    let plain: Vec<u8> = match ctl {
        Ctl::Control => {
            match ccm64_decrypt(&key.encryption_key, &nonce, empty.as_slice(),
                encrypted.as_slice()) {
                Ok(p) => p,
                Err(err) => {
                    proof {
                        if decryptable_frame(*key, iv, frame@) {
                            let (w_ivi, w_ctl, w_ttl, w_seq, w_src, w_dst, w_tp) = choose|
                                w_ivi: Ivi, w_ctl: Ctl, w_ttl: Ttl, w_seq: SequenceNumber,
                                w_src: UnicastAddress, w_dst: Address, w_tp: Seq<u8>|
                                #[trigger] frame_source(*key, iv, frame@, w_ivi, w_ctl,
                                w_ttl, w_seq, w_src, w_dst, w_tp);
                            let plain_w = seq![((w_dst.to_u16() >> 8) & 0xff) as u8, (
                            w_dst.to_u16() & 0xff) as u8] + w_tp;
                            assert(encrypted@ == ccm64_of(key.encryption_key@, nonce@,
                                Seq::empty(), plain_w));
                            assert(false);
                        }
                    }
                    return Err(err);
                }
            }
        }
        Ctl::Access => {
            match ccm32_decrypt(&key.encryption_key, &nonce, empty.as_slice(),
                encrypted.as_slice()) {
                Ok(p) => p,
                Err(err) => {
                    proof {
                        if decryptable_frame(*key, iv, frame@) {
                            let (w_ivi, w_ctl, w_ttl, w_seq, w_src, w_dst, w_tp) = choose|
                                w_ivi: Ivi, w_ctl: Ctl, w_ttl: Ttl, w_seq: SequenceNumber,
                                w_src: UnicastAddress, w_dst: Address, w_tp: Seq<u8>|
                                #[trigger] frame_source(*key, iv, frame@, w_ivi, w_ctl,
                                w_ttl, w_seq, w_src, w_dst, w_tp);
                            let plain_w = seq![((w_dst.to_u16() >> 8) & 0xff) as u8, (
                            w_dst.to_u16() & 0xff) as u8] + w_tp;
                            assert(encrypted@ == ccm32_of(key.encryption_key@, nonce@,
                                Seq::empty(), plain_w));
                            assert(false);
                        }
                    }
                    return Err(err);
                }
            }
        }
    };
    proof {
        if decryptable_frame(*key, iv, frame@) {
            let (w_ivi, w_ctl, w_ttl, w_seq, w_src, w_dst, w_tp) = choose|w_ivi: Ivi,
                w_ctl: Ctl, w_ttl: Ttl, w_seq: SequenceNumber, w_src: UnicastAddress,
                w_dst: Address, w_tp: Seq<u8>| #[trigger] frame_source(*key, iv, frame@,
                w_ivi, w_ctl, w_ttl, w_seq, w_src, w_dst, w_tp);
            let plain_w = seq![((w_dst.to_u16() >> 8) & 0xff) as u8, (w_dst.to_u16()
                & 0xff) as u8] + w_tp;
            if w_ctl is Control {
                assert(encrypted@ == ccm64_of(key.encryption_key@, nonce@, Seq::empty(),
                    plain_w));
            } else {
                assert(encrypted@ == ccm32_of(key.encryption_key@, nonce@, Seq::empty(),
                    plain_w));
            }
            assert(plain@ == plain_w);
            assert(plain@.len() >= 3);
        }
    }
    if plain.len() < 2 {
        proof {
            assert(!decryptable_frame(*key, iv, frame@));
        }
        return Err(DriverError::InvalidPDU);
    }
    let dst_raw: u16 = (plain[0] as u16) << 8 | (plain[1] as u16);
    let dst: Address = Address::parse(dst_raw);
    let transport_pdu: Vec<u8> = copy_range(plain.as_slice(), 2, plain.len());
    let pdu = CleartextNetworkPDU {
        network_key_handle: handle,
        ivi,
        nid: key.nid & 0x7f,
        ctl,
        ttl,
        seq,
        src,
        dst,
        transport_pdu,
    };
    proof {
        let f0: u8 = first;
        let n0: u8 = key.nid;
        let h0: u8 = header@[0];
        let t0: u8 = ttl.0;
        let s0: u32 = seq.0;
        let h1: u8 = header@[1];
        let h2: u8 = header@[2];
        let h3: u8 = header@[3];
        let h4: u8 = header@[4];
        let h5: u8 = header@[5];
        let sr: u16 = src.0;
        let d0: u8 = plain@[0];
        let d1: u8 = plain@[1];
        let dr: u16 = dst_raw;
        lemma_wire_decode(f0, n0, h0, t0, h1, h2, h3, s0, h4, h5, sr, 0, 0, 0, 0, 0);
        lemma_wire_decode(f0, n0, h0, t0, h1, h2, h3, s0, d0, d1, dr, 0, 0, 0, 0, 0);
        assert(pdu.dst.to_u16() == dst_raw);
        assert(header@ =~= header_bytes(ctl, ttl, seq, src));
        let plain_spec = seq![((pdu.dst.to_u16() >> 8) & 0xff) as u8, (pdu.dst.to_u16()
            & 0xff) as u8] + pdu.transport_pdu@;
        assert(plain@ =~= plain_spec);
        assert(encrypted@ == encrypted_of(*key, iv, ctl, ttl, seq, src, dst,
            pdu.transport_pdu@));
        assert(obfuscated@.len() == 6);
        lemma_obfuscation_involution(obfuscated@, pecb@);
        assert(header@ == xor6_of(obfuscated@, pecb@));
        assert(xor6_of(header@, pecb@) =~= obfuscated@);
        assert(frame@ =~= seq![first] + obfuscated@ + encrypted@);
        assert(frame@ =~= frame_of(*key, iv, pdu.ivi, pdu.ctl, pdu.ttl, pdu.seq, pdu.src,
            pdu.dst, pdu.transport_pdu@));
        assert forall|w_ivi: Ivi, w_ctl: Ctl, w_ttl: Ttl, w_seq: SequenceNumber,
            w_src: UnicastAddress, w_dst: Address, w_tp: Seq<u8>|
            #[trigger] frame_source(*key, iv, frame@, w_ivi, w_ctl, w_ttl, w_seq, w_src,
                w_dst, w_tp)
            implies (pdu.ivi == w_ivi && pdu.ctl == w_ctl && pdu.ttl == w_ttl && pdu.seq
                == w_seq && pdu.src == w_src && pdu.dst == w_dst && pdu.transport_pdu@
                == w_tp) by {
            lemma_frame_decomposition(*key, iv, frame@, w_ivi, w_ctl, w_ttl, w_seq, w_src,
                w_dst, w_tp);
            let enc_w = encrypted_of(*key, iv, w_ctl, w_ttl, w_seq, w_src, w_dst, w_tp);
            assert(encrypted@ == enc_w);
            assert(encrypted@.subrange(0, 7) == enc_w.subrange(0, 7));
            assert(pecb@ == pecb_of(key.privacy_key@, iv.0, enc_w.subrange(0, 7)));
            assert(obfuscated@ == xor6_of(header_bytes(w_ctl, w_ttl, w_seq, w_src), pecb@));
            lemma_obfuscation_involution(header_bytes(w_ctl, w_ttl, w_seq, w_src), pecb@);
            assert(header@ =~= header_bytes(w_ctl, w_ttl, w_seq, w_src));
            lemma_wire_encode(key.nid, w_ttl.0, w_seq.0, w_src.0);
            assert(ctl == w_ctl && ttl == w_ttl);
            assert(seq == w_seq);
            assert(src.0 == w_src.0 && src == w_src);
            assert(ivi == w_ivi);
            assert(nonce@ == nonce_layout(0x00, ctl_ttl_flags(w_ctl is Control, w_ttl.0),
                w_seq.0, w_src.0, 0x0000, iv.0));
            let plain_w = seq![((w_dst.to_u16() >> 8) & 0xff) as u8, (w_dst.to_u16()
                & 0xff) as u8] + w_tp;
            if w_ctl is Control {
                assert(encrypted@ == ccm64_of(key.encryption_key@, nonce@, Seq::empty(),
                    plain_w));
            } else {
                assert(encrypted@ == ccm32_of(key.encryption_key@, nonce@, Seq::empty(),
                    plain_w));
            }
            assert(plain@ == plain_w);
            lemma_wire_encode(0, 0, 0, w_dst.to_u16());
            assert(dst_raw == w_dst.to_u16());
            assert(dst == w_dst);
            assert(pdu.transport_pdu@ =~= w_tp);
        }
    }
    Ok(pdu)
}

/// Decrypt an inbound frame: every stored network key whose NID matches
/// the frame's NID octet is tried in turn, and the first that verifies
/// wins; a frame no key accepts is dropped silently by the caller.
pub fn network_decrypt(secrets: &Secrets, iv: IvIndex, frame: &[u8]) -> (r: Result<
    CleartextNetworkPDU,
    DriverError,
>)
    requires
        secrets.wf(),
    ensures
        r matches Ok(pdu) ==> ({
            &&& pdu.network_key_handle.0 < KEY_STORE_MAX
            &&& secrets.network_keys@[pdu.network_key_handle.0 as int] is Some
            &&& frame@ == frame_of(
                secrets.network_keys@[pdu.network_key_handle.0 as int]->Some_0,
                iv,
                pdu.ivi,
                pdu.ctl,
                pdu.ttl,
                pdu.seq,
                pdu.src,
                pdu.dst,
                pdu.transport_pdu@,
            )
        }),
        (exists|i: int| 0 <= i < KEY_STORE_MAX && (#[trigger] secrets.network_keys@[i]) is Some
            && decryptable_frame(secrets.network_keys@[i]->Some_0, iv, frame@)) ==> r is Ok,
        r matches Ok(pdu) ==> (forall|w_ivi: Ivi, w_ctl: Ctl, w_ttl: Ttl,
            w_seq: SequenceNumber, w_src: UnicastAddress, w_dst: Address, w_tp: Seq<u8>|
            #[trigger] frame_source(
                secrets.network_keys@[pdu.network_key_handle.0 as int]->Some_0,
                iv,
                frame@,
                w_ivi,
                w_ctl,
                w_ttl,
                w_seq,
                w_src,
                w_dst,
                w_tp,
            ) ==> (pdu.ivi == w_ivi && pdu.ctl == w_ctl && pdu.ttl == w_ttl && pdu.seq
                == w_seq && pdu.src == w_src && pdu.dst == w_dst && pdu.transport_pdu@
                == w_tp)),
{
    if frame.len() < 1 {
        proof {
            if exists|i: int| 0 <= i < KEY_STORE_MAX && (#[trigger] secrets.network_keys@[i])
                is Some && decryptable_frame(secrets.network_keys@[i]->Some_0, iv, frame@) {
                let i = choose|i: int| 0 <= i < KEY_STORE_MAX
                    && (#[trigger] secrets.network_keys@[i]) is Some && decryptable_frame(
                    secrets.network_keys@[i]->Some_0,
                    iv,
                    frame@,
                );
                let k0 = secrets.network_keys@[i]->Some_0;
                let (w_ivi, w_ctl, w_ttl, w_seq, w_src, w_dst, w_tp) = choose|w_ivi: Ivi,
                    w_ctl: Ctl, w_ttl: Ttl, w_seq: SequenceNumber, w_src: UnicastAddress,
                    w_dst: Address, w_tp: Seq<u8>| #[trigger] frame_source(k0, iv, frame@,
                    w_ivi, w_ctl, w_ttl, w_seq, w_src, w_dst, w_tp);
                assert(false);
            }
        }
        return Err(DriverError::InvalidPDU);
    }
    let nid: u8 = frame[0] & 0x7f;
    proof {
        if exists|i: int| 0 <= i < KEY_STORE_MAX && (#[trigger] secrets.network_keys@[i])
            is Some && decryptable_frame(secrets.network_keys@[i]->Some_0, iv, frame@) {
            let i = choose|i: int| 0 <= i < KEY_STORE_MAX
                && (#[trigger] secrets.network_keys@[i]) is Some && decryptable_frame(
                secrets.network_keys@[i]->Some_0,
                iv,
                frame@,
            );
            let k0 = secrets.network_keys@[i]->Some_0;
            let (w_ivi, w_ctl, w_ttl, w_seq, w_src, w_dst, w_tp) = choose|w_ivi: Ivi,
                w_ctl: Ctl, w_ttl: Ttl, w_seq: SequenceNumber, w_src: UnicastAddress,
                w_dst: Address, w_tp: Seq<u8>| #[trigger] frame_source(k0, iv, frame@, w_ivi,
                w_ctl, w_ttl, w_seq, w_src, w_dst, w_tp);
            lemma_frame_decomposition(k0, iv, frame@, w_ivi, w_ctl, w_ttl, w_seq, w_src,
                w_dst, w_tp);
            let n0: u8 = k0.nid;
            let y: u8 = crate::crypto::k2_t1(k0.key@, seq![0x00u8])[15];
            assert(n0 == (y & 0x7fu8));
            lemma_wire_encode(n0, 0, 0, 0);
            lemma_wire_encode(y, 0, 0, 0);
            assert(frame@[0] & 0x7f == n0);
            assert(nid == n0);
        }
    }
    let candidates: Vec<NetworkKeyHandle> = secrets.network_keys_by_nid(Nid(nid));
    let mut ki: usize = 0;
    while ki < candidates.len()
        invariant
            secrets.wf(),
            ki <= candidates@.len(),
            forall|k: int| 0 <= k < candidates@.len() ==> {
                &&& (#[trigger] candidates@[k]).0 < KEY_STORE_MAX
                &&& secrets.network_keys@[candidates@[k].0 as int] is Some
                &&& secrets.network_keys@[candidates@[k].0 as int]->Some_0.nid == nid
            },
            forall|i: int| (0 <= i < KEY_STORE_MAX
                && ((#[trigger] secrets.network_keys@[i]) matches Some(e) && e.nid == nid))
                ==> exists|k: int| 0 <= k < candidates@.len() && candidates@[k].0 == i,
            forall|k: int| 0 <= k < ki ==> !decryptable_frame(
                secrets.network_keys@[(#[trigger] candidates@[k]).0 as int]->Some_0,
                iv,
                frame@,
            ),
        decreases candidates@.len() - ki,
    {
        let handle: NetworkKeyHandle = candidates[ki];
        let key: NetworkKey = match secrets.network_key(handle) {
            Ok(k) => k,
            Err(_) => {
                proof {
                    assert(false);
                }
                return Err(DriverError::InvalidKeyHandle);
            }
        };
        match network_decrypt_with_key(&key, handle, iv, frame) {
            Ok(pdu) => {
                return Ok(pdu);
            }
            Err(_) => {
                proof {
                    assert(!decryptable_frame(key, iv, frame@));
                    assert(candidates@[ki as int] == handle);
                }
            }
        }
        ki = ki + 1;
    }
    proof {
        if exists|i: int| 0 <= i < KEY_STORE_MAX && (#[trigger] secrets.network_keys@[i])
            is Some && decryptable_frame(secrets.network_keys@[i]->Some_0, iv, frame@) {
            let i = choose|i: int| 0 <= i < KEY_STORE_MAX
                && (#[trigger] secrets.network_keys@[i]) is Some && decryptable_frame(
                secrets.network_keys@[i]->Some_0,
                iv,
                frame@,
            );
            let k0 = secrets.network_keys@[i]->Some_0;
            let (w_ivi, w_ctl, w_ttl, w_seq, w_src, w_dst, w_tp) = choose|w_ivi: Ivi,
                w_ctl: Ctl, w_ttl: Ttl, w_seq: SequenceNumber, w_src: UnicastAddress,
                w_dst: Address, w_tp: Seq<u8>| #[trigger] frame_source(k0, iv, frame@, w_ivi,
                w_ctl, w_ttl, w_seq, w_src, w_dst, w_tp);
            lemma_frame_decomposition(k0, iv, frame@, w_ivi, w_ctl, w_ttl, w_seq, w_src,
                w_dst, w_tp);
            let y: u8 = crate::crypto::k2_t1(k0.key@, seq![0x00u8])[15];
            assert(k0.nid == (y & 0x7fu8));
            lemma_wire_encode(k0.nid, 0, 0, 0);
            lemma_wire_encode(y, 0, 0, 0);
            assert(frame@[0] & 0x7f == k0.nid);
            assert(k0.nid == nid);
            let k = choose|k: int| 0 <= k < candidates@.len() && candidates@[k].0 == i;
            assert(!decryptable_frame(
                secrets.network_keys@[candidates@[k].0 as int]->Some_0,
                iv,
                frame@,
            ));
            assert(false);
        }
    }
    Err(DriverError::InvalidPDU)
}

/// The relay decision: a frame for another node is forwarded only when
/// the relay feature is on and enough TTL remains; the forwarded copy
/// carries a decremented TTL. The feature bits default to off, so the
/// re-encrypt-and-forward path itself stays unwired until a deployment
/// enables relaying; an absent feature is silently ignored at
/// reception.
pub fn relay_decision(relay_enabled: bool, dst_is_local: bool, ttl: Ttl) -> (r: Option<Ttl>)
    ensures
        !relay_enabled ==> r is None,
        dst_is_local ==> r is None,
        ttl.0 <= 1 ==> r is None,
        relay_enabled && !dst_is_local && ttl.0 > 1 ==> r == Some(Ttl((ttl.0 - 1) as u8)),
{
    if relay_enabled && !dst_is_local && ttl.0 > 1 {
        Some(Ttl(ttl.0 - 1))
    } else {
        None
    }
}

} // verus!

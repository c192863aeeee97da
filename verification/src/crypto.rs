//! Cryptographic primitives of the mesh profile. AES-CMAC, AES-ECB and
//! AES-CCM come from outside crates behind trusted wrappers whose results
//! are named, uninterpreted functions of their inputs; the mesh key
//! derivations (s1, k1, k2, k3, k4) and the nonce layouts are verified
//! compositions of those.

use vstd::prelude::*;
use crate::error::DriverError;
use crate::common::{IvIndex, SequenceNumber, Ttl};
use crate::address::{Address, UnicastAddress};
use crate::mic::SzMic;
use aes::Aes128;
use ccm::{Ccm, aead::{Aead, NewAead, Payload}};
use ccm::aead::generic_array::GenericArray;
use ccm::consts::{U4, U8, U13};
use cmac::{Cmac, Mac, NewMac};
use aes::cipher::{BlockEncrypt, NewBlockCipher};

verus! {

/// What AES-CMAC under `key` returns for `data`: a function of the two
/// alone, sixteen bytes long.
pub uninterp spec fn aes_cmac_of(key: Seq<u8>, data: Seq<u8>) -> Seq<u8>;

/// What AES-128 single-block encryption under `key` returns for `block`.
pub uninterp spec fn aes_ecb_of(key: Seq<u8>, block: Seq<u8>) -> Seq<u8>;

/// What AES-CCM with a 4-byte tag returns: the ciphertext with the tag
/// appended, a function of key, nonce, associated data and message.
pub uninterp spec fn ccm32_of(key: Seq<u8>, nonce: Seq<u8>, aad: Seq<u8>, msg: Seq<u8>) -> Seq<u8>;

/// What AES-CCM with an 8-byte tag returns, as `ccm32_of`.
pub uninterp spec fn ccm64_of(key: Seq<u8>, nonce: Seq<u8>, aad: Seq<u8>, msg: Seq<u8>) -> Seq<u8>;

/// Relies on cmac::Cmac<aes::Aes128>: AES-CMAC of the data under the
/// key. A 16-byte key is always accepted, and the tag is 16 bytes.
#[verifier::external_body]
pub(crate) fn aes_cmac(key: &[u8; 16], data: &[u8]) -> (r: [u8; 16])
    ensures
        r@ == aes_cmac_of(key@, data@),
{
    let mut mac = <Cmac<Aes128> as NewMac>::new_from_slice(key).expect("16-byte key");
    mac.update(data);
    let out = mac.finalize().into_bytes();
    let mut r = [0u8; 16];
    r.copy_from_slice(&out);
    r
}

/// Relies on aes::Aes128 (cipher::BlockEncrypt): one-block AES-ECB
/// encryption of `block` under `key`.
#[verifier::external_body]
pub(crate) fn aes_ecb(key: &[u8; 16], block: &[u8; 16]) -> (r: [u8; 16])
    ensures
        r@ == aes_ecb_of(key@, block@),
{
    let cipher = Aes128::new(GenericArray::from_slice(key));
    let mut b = GenericArray::clone_from_slice(block);
    cipher.encrypt_block(&mut b);
    let mut r = [0u8; 16];
    r.copy_from_slice(&b);
    r
}

/// Relies on ccm::Ccm<aes::Aes128, U4, U13> via aead::Aead::encrypt: the
/// ciphertext carries a postfix 4-byte tag, and any message of at most
/// 65535 bytes (the limit for a 13-byte nonce) is accepted.
#[verifier::external_body]
pub(crate) fn ccm32_encrypt(key: &[u8; 16], nonce: &[u8; 13], aad: &[u8], msg: &[u8]) -> (r: Result<
    Vec<u8>,
    DriverError,
>)
    ensures
        msg@.len() <= 65535 ==> r is Ok,
        r is Ok ==> r->Ok_0@ == ccm32_of(key@, nonce@, aad@, msg@),
        r is Ok ==> r->Ok_0@.len() == msg@.len() + 4,
{
    let cipher = Ccm::<Aes128, U4, U13>::new(GenericArray::from_slice(key));
    match cipher.encrypt(GenericArray::from_slice(nonce), Payload { msg, aad }) {
        Ok(v) => Ok(v),
        Err(_) => Err(DriverError::CryptoError),
    }
}

/// Relies on ccm::Ccm<aes::Aes128, U4, U13> via aead::Aead::decrypt: it
/// returns the plaintext of a ciphertext that encryption under the same
/// key, nonce and associated data produces — every plaintext the mode
/// can carry, up to 65535 bytes for a 13-byte nonce — and fails
/// otherwise; the postfix tag accounts for the length difference.
#[verifier::external_body]
pub(crate) fn ccm32_decrypt(key: &[u8; 16], nonce: &[u8; 13], aad: &[u8], cipher: &[u8]) -> (r:
    Result<Vec<u8>, DriverError>)
    ensures
        r is Ok ==> cipher@ == ccm32_of(key@, nonce@, aad@, r->Ok_0@),
        r matches Ok(m) ==> m@.len() + 4 == cipher@.len() && m@.len() <= 65535,
        forall|m: Seq<u8>| m.len() <= 65535 && cipher@ == ccm32_of(key@, nonce@, aad@, m)
            ==> r is Ok && r->Ok_0@ == m,
{
    let c = Ccm::<Aes128, U4, U13>::new(GenericArray::from_slice(key));
    match c.decrypt(GenericArray::from_slice(nonce), Payload { msg: cipher, aad }) {
        Ok(v) => Ok(v),
        Err(_) => Err(DriverError::CryptoError),
    }
}

/// Relies on ccm::Ccm<aes::Aes128, U8, U13> via aead::Aead::encrypt, as
/// the 4-byte-tag wrapper but with an 8-byte postfix tag.
#[verifier::external_body]
pub(crate) fn ccm64_encrypt(key: &[u8; 16], nonce: &[u8; 13], aad: &[u8], msg: &[u8]) -> (r: Result<
    Vec<u8>,
    DriverError,
>)
    ensures
        msg@.len() <= 65535 ==> r is Ok,
        r is Ok ==> r->Ok_0@ == ccm64_of(key@, nonce@, aad@, msg@),
        r is Ok ==> r->Ok_0@.len() == msg@.len() + 8,
{
    let cipher = Ccm::<Aes128, U8, U13>::new(GenericArray::from_slice(key));
    match cipher.encrypt(GenericArray::from_slice(nonce), Payload { msg, aad }) {
        Ok(v) => Ok(v),
        Err(_) => Err(DriverError::CryptoError),
    }
}

/// Relies on ccm::Ccm<aes::Aes128, U8, U13> via aead::Aead::decrypt, as
/// the 4-byte-tag wrapper; the same 65535-byte message bound applies.
#[verifier::external_body]
pub(crate) fn ccm64_decrypt(key: &[u8; 16], nonce: &[u8; 13], aad: &[u8], cipher: &[u8]) -> (r:
    Result<Vec<u8>, DriverError>)
    ensures
        r is Ok ==> cipher@ == ccm64_of(key@, nonce@, aad@, r->Ok_0@),
        r matches Ok(m) ==> m@.len() + 8 == cipher@.len() && m@.len() <= 65535,
        forall|m: Seq<u8>| m.len() <= 65535 && cipher@ == ccm64_of(key@, nonce@, aad@, m)
            ==> r is Ok && r->Ok_0@ == m,
{
    let c = Ccm::<Aes128, U8, U13>::new(GenericArray::from_slice(key));
    match c.decrypt(GenericArray::from_slice(nonce), Payload { msg: cipher, aad }) {
        Ok(v) => Ok(v),
        Err(_) => Err(DriverError::CryptoError),
    }
}

/// The all-zero AES key that anchors the s1 salt derivation.
pub open spec fn zero_key() -> Seq<u8> {
    Seq::new(16, |i: int| 0u8)
}

/// s1: AES-CMAC of the input under the all-zero key.
pub open spec fn s1_of(m: Seq<u8>) -> Seq<u8> {
    aes_cmac_of(zero_key(), m)
}

/// k1: AES-CMAC of `p` under the key AES-CMAC_salt(n).
pub open spec fn k1_of(n: Seq<u8>, salt: Seq<u8>, p: Seq<u8>) -> Seq<u8> {
    aes_cmac_of(aes_cmac_of(salt, n), p)
}

/// The s1 salt function of the mesh profile.
pub fn s1(m: &[u8]) -> (r: [u8; 16])
    ensures
        r@ == s1_of(m@),
{
    let zero: [u8; 16] = [0u8; 16];
    assert(zero@ =~= zero_key());
    aes_cmac(&zero, m)
}

/// The k1 derivation of the mesh profile.
pub fn k1(n: &[u8], salt: &[u8; 16], p: &[u8]) -> (r: [u8; 16])
    ensures
        r@ == k1_of(n@, salt@, p@),
{
    let t: [u8; 16] = aes_cmac(salt, n);
    aes_cmac(&t, p)
}

/// Append all bytes of a slice to a vector.
pub fn push_all(dst: &mut Vec<u8>, src: &[u8])
    ensures
        final(dst)@ == old(dst)@ + src@,
{
    let mut i: usize = 0;
    while i < src.len()
        invariant
            i <= src@.len(),
            dst@ == old(dst)@ + src@.subrange(0, i as int),
        decreases src@.len() - i,
    {
        dst.push(src[i]);
        assert(dst@ =~= old(dst)@ + src@.subrange(0, i + 1 as int));
        i = i + 1;
    }
    assert(dst@ =~= old(dst)@ + src@);
}

/// The ASCII bytes of "smk2", the k2 salt input.
pub open spec fn smk2_bytes() -> Seq<u8> {
    seq![0x73u8, 0x6du8, 0x6bu8, 0x32u8]
}

/// The ASCII bytes of "smk3", the k3 salt input.
pub open spec fn smk3_bytes() -> Seq<u8> {
    seq![0x73u8, 0x6du8, 0x6bu8, 0x33u8]
}

/// The ASCII bytes of "smk4", the k4 salt input.
pub open spec fn smk4_bytes() -> Seq<u8> {
    seq![0x73u8, 0x6du8, 0x6bu8, 0x34u8]
}

/// The intermediate key of k2: AES-CMAC of the network key under
/// s1("smk2").
pub open spec fn k2_t(n: Seq<u8>) -> Seq<u8> {
    aes_cmac_of(s1_of(smk2_bytes()), n)
}

/// The first k2 output block.
pub open spec fn k2_t1(n: Seq<u8>, p: Seq<u8>) -> Seq<u8> {
    aes_cmac_of(k2_t(n), p + seq![0x01u8])
}

/// The second k2 output block: the network encryption key.
pub open spec fn k2_t2(n: Seq<u8>, p: Seq<u8>) -> Seq<u8> {
    aes_cmac_of(k2_t(n), k2_t1(n, p) + p + seq![0x02u8])
}

/// The third k2 output block: the privacy key.
pub open spec fn k2_t3(n: Seq<u8>, p: Seq<u8>) -> Seq<u8> {
    aes_cmac_of(k2_t(n), k2_t2(n, p) + p + seq![0x03u8])
}

/// The NID that k2 yields: the low 7 bits of the last byte of T1.
pub open spec fn k2_nid(n: Seq<u8>, p: Seq<u8>) -> u8 {
    (k2_t1(n, p)[15] & 0x7f) as u8
}

/// The k2 derivation: from a network key and the parameter `p` to the
/// (NID, encryption key, privacy key) triple.
pub fn k2(n: &[u8; 16], p: &[u8]) -> (r: (u8, [u8; 16], [u8; 16]))
    ensures
        r.0 == k2_nid(n@, p@),
        r.1@ == k2_t2(n@, p@),
        r.2@ == k2_t3(n@, p@),
{
    // the ASCII bytes of "smk2"
    let smk2: [u8; 4] = [0x73, 0x6d, 0x6b, 0x32];
    assert(smk2@ =~= smk2_bytes());
    let salt: [u8; 16] = s1(&smk2);
    let t: [u8; 16] = aes_cmac(&salt, n);

    let mut in1: Vec<u8> = Vec::new();
    push_all(&mut in1, p);
    in1.push(0x01);
    assert(in1@ =~= p@ + seq![0x01u8]);
    let t1: [u8; 16] = aes_cmac(&t, in1.as_slice());

    let mut in2: Vec<u8> = Vec::new();
    push_all(&mut in2, t1.as_slice());
    push_all(&mut in2, p);
    in2.push(0x02);
    assert(in2@ =~= t1@ + p@ + seq![0x02u8]);
    let t2: [u8; 16] = aes_cmac(&t, in2.as_slice());

    let mut in3: Vec<u8> = Vec::new();
    push_all(&mut in3, t2.as_slice());
    push_all(&mut in3, p);
    in3.push(0x03);
    assert(in3@ =~= t2@ + p@ + seq![0x03u8]);
    let t3: [u8; 16] = aes_cmac(&t, in3.as_slice());

    let nid: u8 = t1[15] & 0x7f;
    (nid, t2, t3)
}

/// The k3 output before truncation.
pub open spec fn k3_full(n: Seq<u8>) -> Seq<u8> {
    aes_cmac_of(
        aes_cmac_of(s1_of(smk3_bytes()), n),
        seq![0x69u8, 0x64u8, 0x36u8, 0x34u8, 0x01u8],
    )
}

/// The k3 derivation: the 64-bit network identifier of a network key,
/// the low eight bytes of the "id64" CMAC chain.
pub fn k3(n: &[u8; 16]) -> (r: [u8; 8])
    ensures
        r@ == k3_full(n@).subrange(8, 16),
{
    // the ASCII bytes of "smk3"
    let smk3: [u8; 4] = [0x73, 0x6d, 0x6b, 0x33];
    assert(smk3@ =~= smk3_bytes());
    let salt: [u8; 16] = s1(&smk3);
    let t: [u8; 16] = aes_cmac(&salt, n);
    // the ASCII bytes of "id64" and a trailing 0x01
    let id64: [u8; 5] = [0x69, 0x64, 0x36, 0x34, 0x01];
    assert(id64@ =~= seq![0x69u8, 0x64u8, 0x36u8, 0x34u8, 0x01u8]);
    let out: [u8; 16] = aes_cmac(&t, id64.as_slice());
    let r: [u8; 8] = [out[8], out[9], out[10], out[11], out[12], out[13], out[14], out[15]];
    assert(r@ =~= out@.subrange(8, 16));
    r
}

/// The k4 output before truncation.
pub open spec fn k4_full(n: Seq<u8>) -> Seq<u8> {
    aes_cmac_of(
        aes_cmac_of(s1_of(smk4_bytes()), n),
        seq![0x69u8, 0x64u8, 0x36u8, 0x01u8],
    )
}

/// The AID that k4 yields: the low 6 bits of the last byte of the
/// "id6" CMAC chain.
pub open spec fn k4_aid(n: Seq<u8>) -> u8 {
    (k4_full(n)[15] & 0x3f) as u8
}

/// The k4 derivation: the 6-bit application key identifier.
pub fn k4(n: &[u8; 16]) -> (r: u8)
    ensures
        r == k4_aid(n@),
{
    // the ASCII bytes of "smk4"
    let smk4: [u8; 4] = [0x73, 0x6d, 0x6b, 0x34];
    assert(smk4@ =~= smk4_bytes());
    let salt: [u8; 16] = s1(&smk4);
    let t: [u8; 16] = aes_cmac(&salt, n);
    // the ASCII bytes of "id6" and a trailing 0x01
    let id6: [u8; 4] = [0x69, 0x64, 0x36, 0x01];
    assert(id6@ =~= seq![0x69u8, 0x64u8, 0x36u8, 0x01u8]);
    let out: [u8; 16] = aes_cmac(&t, id6.as_slice());
    out[15] & 0x3f
}

/// The ASCII bytes of "nkbk", the beacon-key salt input.
pub open spec fn nkbk_bytes() -> Seq<u8> {
    seq![0x6eu8, 0x6bu8, 0x62u8, 0x6bu8]
}

/// The k1 parameter of the beacon key: the ASCII bytes of "id128" and
/// a trailing 0x01.
pub open spec fn id128_bytes() -> Seq<u8> {
    seq![0x69u8, 0x64u8, 0x31u8, 0x32u8, 0x38u8, 0x01u8]
}

/// The beacon key of a network key: k1 under the salt s1("nkbk") with
/// the parameter "id128" || 0x01.
pub fn beacon_key(network_key: &[u8; 16]) -> (r: [u8; 16])
    ensures
        r@ == k1_of(network_key@, s1_of(nkbk_bytes()), id128_bytes()),
{
    // the ASCII bytes of "nkbk"
    let nkbk: [u8; 4] = [0x6e, 0x6b, 0x62, 0x6b];
    assert(nkbk@ =~= nkbk_bytes());
    let salt: [u8; 16] = s1(&nkbk);
    // the ASCII bytes of "id128" and a trailing 0x01
    let id128: [u8; 6] = [0x69, 0x64, 0x31, 0x32, 0x38, 0x01];
    assert(id128@ =~= id128_bytes());
    k1(network_key.as_slice(), &salt, id128.as_slice())
}

/// The authentication value of a secure network beacon: the first
/// eight bytes of AES-CMAC under the beacon key over the flags, the
/// network identifier and the big-endian IV index.
pub fn beacon_authentication(beacon_key: &[u8; 16], flags: u8, network_id: &[u8; 8], iv: u32)
    -> (r: [u8; 8])
    ensures
        r@ == aes_cmac_of(
            beacon_key@,
            seq![flags] + network_id@ + seq![
                ((iv >> 24) & 0xff) as u8,
                ((iv >> 16) & 0xff) as u8,
                ((iv >> 8) & 0xff) as u8,
                (iv & 0xff) as u8,
            ],
        ).subrange(0, 8),
{
    let mut message: Vec<u8> = Vec::new();
    message.push(flags);
    push_all(&mut message, network_id.as_slice());
    message.push(((iv >> 24) & 0xff) as u8);
    message.push(((iv >> 16) & 0xff) as u8);
    message.push(((iv >> 8) & 0xff) as u8);
    message.push((iv & 0xff) as u8);
    proof {
        assert(message@ =~= seq![flags] + network_id@ + seq![
            ((iv >> 24) & 0xff) as u8,
            ((iv >> 16) & 0xff) as u8,
            ((iv >> 8) & 0xff) as u8,
            (iv & 0xff) as u8,
        ]);
    }
    let full: [u8; 16] = aes_cmac(beacon_key, message.as_slice());
    let r: [u8; 8] = [full[0], full[1], full[2], full[3], full[4], full[5], full[6], full[7]];
    assert(r@ =~= full@.subrange(0, 8));
    r
}

/// The 13-byte CCM nonce layout shared by the network, application and
/// device nonces: a type octet, one flag octet, the 24-bit sequence, the
/// 16-bit source, a 16-bit field (destination, or zero padding for the
/// network nonce), and the 32-bit IV index, all big-endian.
pub open spec fn nonce_layout(ntype: u8, flags: u8, seq: u32, src: u16, field: u16, iv: u32) -> Seq<
    u8,
> {
    seq![
        ntype,
        flags,
        ((seq >> 16) & 0xff) as u8,
        ((seq >> 8) & 0xff) as u8,
        (seq & 0xff) as u8,
        ((src >> 8) & 0xff) as u8,
        (src & 0xff) as u8,
        ((field >> 8) & 0xff) as u8,
        (field & 0xff) as u8,
        ((iv >> 24) & 0xff) as u8,
        ((iv >> 16) & 0xff) as u8,
        ((iv >> 8) & 0xff) as u8,
        (iv & 0xff) as u8,
    ]
}

/// The flags octet of an application or device nonce: the ASZMIC bit in
/// the top position.
pub open spec fn szmic_flags(szmic: SzMic) -> u8 {
    if szmic is Bit64 {
        0x80u8
    } else {
        0x00u8
    }
}

/// Build one 13-byte nonce of the given type and flags.
fn build_nonce(ntype: u8, flags: u8, seq: u32, src: u16, field: u16, iv: u32) -> (r: [u8; 13])
    ensures
        r@ == nonce_layout(ntype, flags, seq, src, field, iv),
{
    let r: [u8; 13] = [
        ntype,
        flags,
        ((seq >> 16) & 0xff) as u8,
        ((seq >> 8) & 0xff) as u8,
        (seq & 0xff) as u8,
        ((src >> 8) & 0xff) as u8,
        (src & 0xff) as u8,
        ((field >> 8) & 0xff) as u8,
        (field & 0xff) as u8,
        ((iv >> 24) & 0xff) as u8,
        ((iv >> 16) & 0xff) as u8,
        ((iv >> 8) & 0xff) as u8,
        (iv & 0xff) as u8,
    ];
    assert(r@ =~= nonce_layout(ntype, flags, seq, src, field, iv));
    r
}

/// The application nonce of an access encryption under an application
/// key.
pub fn application_nonce(szmic: SzMic, seq: SequenceNumber, src: UnicastAddress, dst: Address, iv:
    IvIndex) -> (r: [u8; 13])
    ensures
        r@ == nonce_layout(0x01, szmic_flags(szmic), seq.0, src.0, dst.to_u16(), iv.0),
{
    let flags: u8 = match szmic {
        SzMic::Bit64 => 0x80,
        SzMic::Bit32 => 0x00,
    };
    build_nonce(0x01, flags, seq.0, src.0, dst.value(), iv.0)
}

/// The device nonce of an access encryption under the device key.
pub fn device_nonce(szmic: SzMic, seq: SequenceNumber, src: UnicastAddress, dst: Address, iv:
    IvIndex) -> (r: [u8; 13])
    ensures
        r@ == nonce_layout(0x02, szmic_flags(szmic), seq.0, src.0, dst.to_u16(), iv.0),
{
    let flags: u8 = match szmic {
        SzMic::Bit64 => 0x80,
        SzMic::Bit32 => 0x00,
    };
    build_nonce(0x02, flags, seq.0, src.0, dst.value(), iv.0)
}

/// The flags octet of a network nonce: the CTL bit above the 7-bit TTL.
pub open spec fn ctl_ttl_flags(ctl: bool, ttl: u8) -> u8 {
    if ctl {
        (0x80u8 | (ttl & 0x7fu8)) as u8
    } else {
        (ttl & 0x7fu8) as u8
    }
}

/// The network nonce of a network-layer encryption; the destination
/// position is zero padding.
pub fn network_nonce(ctl: bool, ttl: Ttl, seq: SequenceNumber, src: UnicastAddress, iv: IvIndex)
    -> (r: [u8; 13])
    ensures
        r@ == nonce_layout(0x00, ctl_ttl_flags(ctl, ttl.0), seq.0, src.0, 0x0000, iv.0),
{
    let flags: u8 = if ctl {
        0x80u8 | (ttl.0 & 0x7f)
    } else {
        ttl.0 & 0x7f
    };
    build_nonce(0x00, flags, seq.0, src.0, 0x0000, iv.0)
}

} // verus!

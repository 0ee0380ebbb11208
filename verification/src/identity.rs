//! Node identities: Ed25519 keys, short fingerprints, and the signature that
//! covers the immutable part of a broadcast message.

use vstd::prelude::*;
use crate::text::{hex_of, push_hex_byte, lemma_hex_of_injective};
use ed25519_dalek::{Signer, Verifier};

verus! {

/// The Ed25519 public key (32 bytes) that belongs to a 32-byte secret seed.
pub uninterp spec fn ed25519_public_key(seed: Seq<u8>) -> Seq<u8>;

/// The Ed25519 signature (64 bytes) of `message` under the secret seed `seed`.
pub uninterp spec fn ed25519_signature(seed: Seq<u8>, message: Seq<u8>) -> Seq<u8>;

/// Whether Ed25519 verification of `signature` on `message` under the public key
/// `public_key` succeeds.
pub uninterp spec fn ed25519_accepts(public_key: Seq<u8>, message: Seq<u8>, signature: Seq<u8>) -> bool;

/// `ed25519_dalek::SigningKey::from_bytes(seed).verifying_key().to_bytes()`:
/// the public key of a seed, a function of the seed alone.
#[verifier::external_body]
fn ed25519_verifying_key(seed: &[u8; 32]) -> (pk: [u8; 32])
    ensures
        pk@ == ed25519_public_key(seed@),
{
    ed25519_dalek::SigningKey::from_bytes(seed).verifying_key().to_bytes()
}

/// `ed25519_dalek::Signer::sign` with the signing key made from `seed`.
/// Ed25519 signing is deterministic, so the signature is a function of the
/// seed and the message; the crate documents that a signature it makes is
/// accepted by the matching verifying key, which the second clause states.
#[verifier::external_body]
fn ed25519_sign(seed: &[u8; 32], message: &[u8]) -> (sig: [u8; 64])
    ensures
        sig@ == ed25519_signature(seed@, message@),
        ed25519_accepts(ed25519_public_key(seed@), message@, sig@),
{
    ed25519_dalek::SigningKey::from_bytes(seed).sign(message).to_bytes()
}

/// Whether `ed25519_dalek::VerifyingKey::from_bytes` accepts 32 bytes: they
/// decompress to a curve point.
pub uninterp spec fn ed25519_key_decodes(public_key: Seq<u8>) -> bool;

/// `VerifyingKey::from_bytes` followed by `Verifier::verify`: true when the
/// public key decodes to a curve point and the signature verifies. The
/// outcome is a function of the three byte strings, and is false whenever
/// the key does not decode.
#[verifier::external_body]
fn ed25519_verify(public_key: &[u8], message: &[u8], signature: &[u8]) -> (ok: bool)
    requires
        public_key@.len() == 32,
        signature@.len() == 64,
    ensures
        ok == ed25519_accepts(public_key@, message@, signature@),
        !ed25519_key_decodes(public_key@) ==> !ok,
{
    let pk: [u8; 32] = public_key.try_into().unwrap();
    let sig: [u8; 64] = signature.try_into().unwrap();
    match ed25519_dalek::VerifyingKey::from_bytes(&pk) {
        Ok(vk) => vk.verify(message, &ed25519_dalek::Signature::from_bytes(&sig)).is_ok(),
        Err(_) => false,
    }
}

/// An Ed25519 signing key: its 32-byte secret seed (the form in which it is
/// stored on disk) together with the public key that belongs to it.
pub struct SigningKey {
    seed: [u8; 32],
    public: [u8; 32],
}

impl View for SigningKey {
    type V = Seq<u8>;

    closed spec fn view(&self) -> Seq<u8> {
        self.seed@
    }
}

impl SigningKey {
    #[verifier::type_invariant]
    spec fn public_matches_seed(self) -> bool {
        self.public@ == ed25519_public_key(self.seed@)
    }

    /// The key whose secret seed is `seed`.
    pub fn from_bytes(seed: &[u8; 32]) -> (key: SigningKey)
        ensures
            key@ == seed@,
    {
        let public = ed25519_verifying_key(seed);
        SigningKey { seed: *seed, public }
    }

    /// The secret seed.
    pub fn to_bytes(&self) -> (seed: [u8; 32])
        ensures
            seed@ == self@,
    {
        self.seed
    }

    /// The public key (32 bytes) that matches this key.
    pub fn verifying_key(&self) -> (pk: Vec<u8>)
        ensures
            pk@ == ed25519_public_key(self@),
            pk@.len() == 32,
    {
        proof { use_type_invariant(self); }
        let mut out: Vec<u8> = Vec::new();
        for i in 0..32
            invariant
                out@ == self.public@.take(i as int),
                self.public@.len() == 32,
        {
            out.push(self.public[i]);
            assert(out@ =~= self.public@.take(i + 1));
        }
        assert(out@ =~= self.public@);
        out
    }

    /// Reads a key back from the bytes that were stored for it: exactly
    /// 32 bytes are a seed, anything else is not a key.
    pub fn from_stored(bytes: &[u8]) -> (key: Option<SigningKey>)
        ensures
            key is Some <==> bytes@.len() == 32,
            key matches Some(k) ==> k@ == bytes@,
    {
        if bytes.len() != 32 {
            return None;
        }
        let mut seed = [0u8; 32];
        for i in 0..32
            invariant
                bytes@.len() == 32,
                seed@.len() == 32,
                forall|j: int| 0 <= j < i ==> seed@[j] == bytes@[j],
        {
            seed[i] = bytes[i];
        }
        assert(seed@ =~= bytes@);
        Some(SigningKey::from_bytes(&seed))
    }
}

/// The first bytes a fingerprint shows: 8, or all of a shorter key.
pub open spec fn fingerprint_bytes(public_key: Seq<u8>) -> Seq<u8> {
    public_key.take(if public_key.len() < 8 { public_key.len() as int } else { 8 })
}

/// The short fingerprint of a public key: the lower-case hexadecimal of its
/// first 8 bytes (16 characters for a full-length key).
pub open spec fn fingerprint_of(public_key: Seq<u8>) -> Seq<char> {
    hex_of(fingerprint_bytes(public_key))
}

/// Lower-case hexadecimal of the first 8 bytes of a public key.
pub fn fingerprint(public_key: &[u8]) -> (res: String)
    ensures
        res@ == fingerprint_of(public_key@),
        res@.len() == 2 * (if public_key@.len() < 8 { public_key@.len() as int } else { 8 }),
{
    let n: usize = if public_key.len() < 8 { public_key.len() } else { 8 };
    let mut res = String::new();
    for i in 0..n
        invariant
            n <= public_key@.len(),
            res@ == hex_of(public_key@.take(i as int)),
            res@.len() == 2 * i,
    {
        push_hex_byte(&mut res, public_key[i]);
        assert(public_key@.take(i + 1).drop_last() =~= public_key@.take(i as int));
    }
    res
}

/// Two keys have the same fingerprint exactly when they share the bytes it
/// shows: a fingerprint depends on the first 8 bytes of a key alone, and
/// determines them.
pub proof fn lemma_fingerprint_determines_prefix(a: Seq<u8>, b: Seq<u8>)
    ensures
        fingerprint_of(a) == fingerprint_of(b) <==> fingerprint_bytes(a) == fingerprint_bytes(b),
{
    if fingerprint_of(a) == fingerprint_of(b) {
        lemma_hex_of_injective(fingerprint_bytes(a), fingerprint_bytes(b));
    }
}

/// The `n` little-endian bytes of `x`.
pub open spec fn le_bytes(x: nat, n: nat) -> Seq<u8>
    decreases n,
{
    if n == 0 {
        Seq::empty()
    } else {
        seq![(x % 256) as u8] + le_bytes(x / 256, (n - 1) as nat)
    }
}

/// Appends `x.to_le_bytes()` to `out`.
fn push_le_u64(out: &mut Vec<u8>, x: u64)
    ensures
        final(out)@ == old(out)@ + le_bytes(x as nat, 8),
{
    let mut v = x;
    let mut i: usize = 0;
    while i < 8
        invariant
            i <= 8,
            out@ + le_bytes(v as nat, (8 - i) as nat) == old(out)@ + le_bytes(x as nat, 8),
        decreases 8 - i,
    {
        let ghost before = out@;
        out.push((v % 256) as u8);
        assert(le_bytes(v as nat, (8 - i) as nat) =~= seq![(v % 256) as u8] + le_bytes(
            (v / 256) as nat,
            (8 - i - 1) as nat,
        ));
        assert(out@ + le_bytes((v / 256) as nat, (8 - i - 1) as nat) =~= before + le_bytes(
            v as nat,
            (8 - i) as nat,
        ));
        v = v / 256;
        i = i + 1;
    }
    assert(le_bytes(v as nat, 0) =~= Seq::<u8>::empty());
    assert(out@ =~= old(out)@ + le_bytes(x as nat, 8));
}

/// The bytes covered by a message signature: the sender id and the text in
/// UTF-8, then the timestamp and the message id as 8 little-endian bytes
/// each. The hop counter is not part of it, so forwarding keeps a message valid.
pub open spec fn signed_data(src_id: Seq<char>, txt: Seq<char>, time: u64, msg_id: u64) -> Seq<u8> {
    vstd::utf8::encode_utf8(src_id) + vstd::utf8::encode_utf8(txt) + le_bytes(time as nat, 8)
        + le_bytes(msg_id as nat, 8)
}

fn append_bytes(out: &mut Vec<u8>, bytes: &[u8])
    ensures
        final(out)@ == old(out)@ + bytes@,
{
    let n = bytes.len();
    for i in 0..n
        invariant
            n == bytes@.len(),
            out@ == old(out)@ + bytes@.take(i as int),
    {
        out.push(bytes[i]);
        assert(bytes@.take(i + 1) =~= bytes@.take(i as int).push(bytes@[i as int]));
    }
    assert(bytes@.take(n as int) =~= bytes@);
}

/// The bytes a message signature covers.
pub fn build_signed_data(src_id: &str, txt: &str, time: u64, msg_id: u64) -> (data: Vec<u8>)
    ensures
        data@ == signed_data(src_id@, txt@, time, msg_id),
{
    let mut data: Vec<u8> = Vec::new();
    append_bytes(&mut data, src_id.as_bytes());
    append_bytes(&mut data, txt.as_bytes());
    push_le_u64(&mut data, time);
    push_le_u64(&mut data, msg_id);
    assert(data@ =~= signed_data(src_id@, txt@, time, msg_id));
    data
}

/// What `verify` answers: the public key is 32 bytes, the signature 64 bytes,
/// and Ed25519 accepts the signature on the signed data.
pub open spec fn signature_valid(
    public_key: Seq<u8>,
    src_id: Seq<char>,
    txt: Seq<char>,
    time: u64,
    msg_id: u64,
    signature: Seq<u8>,
) -> bool {
    &&& public_key.len() == 32
    &&& signature.len() == 64
    &&& ed25519_accepts(public_key, signed_data(src_id, txt, time, msg_id), signature)
}

/// Signs the immutable content of a message (sender, text, time, id).
/// The signature is accepted by `verify` under the key's public key.
pub fn sign(key: &SigningKey, src_id: &str, txt: &str, time: u64, msg_id: u64) -> (sig: Vec<u8>)
    ensures
        sig@ == ed25519_signature(key@, signed_data(src_id@, txt@, time, msg_id)),
        sig@.len() == 64,
        signature_valid(
            ed25519_public_key(key@),
            src_id@,
            txt@,
            time,
            msg_id,
            sig@,
        ),
{
    proof { use_type_invariant(key); }
    let data = build_signed_data(src_id, txt, time, msg_id);
    let s = ed25519_sign(&key.seed, data.as_slice());
    let mut out: Vec<u8> = Vec::new();
    for i in 0..64
        invariant
            out@ == s@.take(i as int),
            s@.len() == 64,
    {
        out.push(s[i]);
        assert(out@ =~= s@.take(i + 1));
    }
    assert(out@ =~= s@);
    out
}

/// True when the signature is valid for the message under the public key;
/// keys that are not 32 bytes, 32 bytes that are not a curve point, and
/// signatures that are not 64 bytes are refused.
pub fn verify(
    public_key: &[u8],
    src_id: &str,
    txt: &str,
    time: u64,
    msg_id: u64,
    signature: &[u8],
) -> (ok: bool)
    ensures
        ok == signature_valid(public_key@, src_id@, txt@, time, msg_id, signature@),
        !ed25519_key_decodes(public_key@) ==> !ok,
{
    if public_key.len() != 32 || signature.len() != 64 {
        return false;
    }
    let data = build_signed_data(src_id, txt, time, msg_id);
    ed25519_verify(public_key, data.as_slice(), signature)
}

} // verus!

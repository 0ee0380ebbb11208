//! The local wallet (a balance in satoshis and the node's Bitcoin address),
//! the node's secp256k1 key and the derivation of its P2PKH address.

use vstd::prelude::*;
use k256::elliptic_curve::sec1::ToEncodedPoint;

verus! {

/// The node's balance in satoshis and its Bitcoin address.
pub struct Wallet {
    pub balance: u64,
    pub address: String,
}

/// The balance after a debit of `amount`, and whether the debit took place:
/// it is refused, leaving the balance as it was, when the balance is smaller.
pub open spec fn debited(balance: u64, amount: u64) -> (bool, u64) {
    if balance < amount {
        (false, balance)
    } else {
        (true, (balance - amount) as u64)
    }
}

/// Debits the wallet. Returns false, changing nothing, when the balance is insufficient.
pub fn debit(wallet: &mut Wallet, amount: u64) -> (ok: bool)
    ensures
        (ok, final(wallet).balance) == debited(old(wallet).balance, amount),
        final(wallet).address == old(wallet).address,
{
    if wallet.balance < amount {
        return false;
    }
    wallet.balance -= amount;
    true
}

/// Credits the wallet; the new balance must fit in 64 bits.
pub fn credit(wallet: &mut Wallet, amount: u64)
    requires
        old(wallet).balance + amount <= u64::MAX,
    ensures
        final(wallet).balance == old(wallet).balance + amount,
        final(wallet).address == old(wallet).address,
{
    wallet.balance += amount;
}

/// A debit that succeeds followed by a credit of the same amount gives the
/// balance back, and a credit followed by a debit of the same amount succeeds
/// and gives the balance back.
pub proof fn lemma_credit_and_debit_cancel(balance: u64, amount: u64)
    ensures
        debited(balance, amount).0 ==> debited(balance, amount).1 + amount == balance,
        balance + amount <= u64::MAX ==> debited((balance + amount) as u64, amount) == (true, balance),
{
}

/// A payment moves money without creating any: when the payer's debit
/// succeeds and the payee is credited the same amount, the two balances
/// add up to what they did before.
pub proof fn lemma_transfer_conserves(payer: u64, payee: u64, amount: u64)
    requires
        debited(payer, amount).0,
        payee + amount <= u64::MAX,
    ensures
        debited(payer, amount).1 + (payee + amount) == payer + payee,
{
}

/// A debit succeeds exactly when the balance covers the amount, and never
/// raises the balance.
pub proof fn lemma_debit_succeeds_iff_covered(balance: u64, amount: u64)
    ensures
        debited(balance, amount).0 <==> amount <= balance,
        debited(balance, amount).1 <= balance,
{
}

// ───────────────────────── secp256k1 keys ─────────────────────────

/// The big-endian value of a byte string.
pub open spec fn be_value(s: Seq<u8>) -> nat
    decreases s.len(),
{
    if s.len() == 0 {
        0
    } else {
        be_value(s.drop_last()) * 256 + s.last() as nat
    }
}

/// The order of the secp256k1 group.
pub open spec fn secp256k1_order() -> nat {
    0xFFFFFFFFFFFFFFFFFFFFFFFFFFFFFFFEBAAEDCE6AF48A03BBFD25E8CD0364141nat
}

/// What `k256::SecretKey::from_slice` accepts and the 32 bytes of the key it
/// gives: a slice of 24 to 32 bytes, read as a big-endian number that is
/// neither zero nor at least the group order, padded on the left with zeros.
pub open spec fn secret_key_from_slice(s: Seq<u8>) -> Option<Seq<u8>> {
    if 24 <= s.len() <= 32 && 0 < be_value(s) < secp256k1_order() {
        Some(Seq::new((32 - s.len()) as nat, |i: int| 0u8) + s)
    } else {
        None
    }
}

/// A valid secp256k1 secret scalar, as 32 big-endian bytes.
pub open spec fn valid_secret(s: Seq<u8>) -> bool {
    s.len() == 32 && 0 < be_value(s) < secp256k1_order()
}

/// `k256::SecretKey::from_slice(bytes).map(|k| k.to_bytes())`: the key's
/// 32 bytes when the slice holds a valid secret scalar.
#[verifier::external_body]
fn k256_secret_from_slice(bytes: &[u8]) -> (res: Option<[u8; 32]>)
    ensures
        match res {
            Some(k) => secret_key_from_slice(bytes@) == Some(k@),
            None => secret_key_from_slice(bytes@) is None,
        },
{
    match k256::SecretKey::from_slice(bytes) {
        Ok(k) => Some(k.to_bytes().into()),
        Err(_) => None,
    }
}

/// The SEC1 compressed encoding (33 bytes) of the public key of a secret scalar.
pub uninterp spec fn secp256k1_compressed_public_key(secret: Seq<u8>) -> Seq<u8>;

/// `SecretKey::public_key().to_encoded_point(true)` for a valid secret:
/// a function of the secret alone.
#[verifier::external_body]
fn k256_compressed_public_key(secret: &[u8; 32]) -> (pk: [u8; 33])
    requires
        valid_secret(secret@),
    ensures
        pk@ == secp256k1_compressed_public_key(secret@),
{
    let key = k256::SecretKey::from_slice(secret).unwrap();
    key.public_key().to_encoded_point(true).as_bytes().try_into().unwrap()
}

/// A secp256k1 secret key (Bitcoin convention), as its 32 big-endian bytes.
pub struct SecretKey {
    bytes: [u8; 32],
}

impl View for SecretKey {
    type V = Seq<u8>;

    closed spec fn view(&self) -> Seq<u8> {
        self.bytes@
    }
}

/// A secp256k1 public key, as its 33-byte SEC1 compressed encoding.
pub struct PublicKey {
    pub compressed: [u8; 33],
}

impl View for PublicKey {
    type V = Seq<u8>;

    open spec fn view(&self) -> Seq<u8> {
        self.compressed@
    }
}

impl SecretKey {
    #[verifier::type_invariant]
    spec fn is_valid_scalar(self) -> bool {
        valid_secret(self.bytes@)
    }

    /// Reads a secret key from its stored bytes, with the rules of
    /// `k256::SecretKey::from_slice`.
    pub fn from_slice(bytes: &[u8]) -> (key: Option<SecretKey>)
        ensures
            match key {
                Some(k) => secret_key_from_slice(bytes@) == Some(k@),
                None => secret_key_from_slice(bytes@) is None,
            },
    {
        match k256_secret_from_slice(bytes) {
            Some(b) => {
                proof { lemma_padded_value(bytes@); }
                Some(SecretKey { bytes: b })
            },
            None => None,
        }
    }

    /// The 32 bytes of the secret scalar.
    pub fn to_bytes(&self) -> (b: [u8; 32])
        ensures
            b@ == self@,
            valid_secret(b@),
    {
        proof { use_type_invariant(self); }
        self.bytes
    }

    /// The public key of this secret key.
    pub fn public_key(&self) -> (pk: PublicKey)
        ensures
            pk@ == secp256k1_compressed_public_key(self@),
    {
        proof { use_type_invariant(self); }
        PublicKey { compressed: k256_compressed_public_key(&self.bytes) }
    }
}

/// Zeros on the left do not change a big-endian value.
proof fn lemma_padded_value(s: Seq<u8>)
    requires
        s.len() <= 32,
    ensures
        be_value(Seq::new((32 - s.len()) as nat, |i: int| 0u8) + s) == be_value(s),
    decreases s.len(),
{
    let z = Seq::new((32 - s.len()) as nat, |i: int| 0u8);
    if s.len() == 0 {
        lemma_zeros_value(z);
        assert(z + s =~= z);
    } else {
        lemma_padded_value_step(z, s);
    }
}

proof fn lemma_zeros_value(z: Seq<u8>)
    requires
        forall|i: int| 0 <= i < z.len() ==> z[i] == 0,
    ensures
        be_value(z) == 0,
    decreases z.len(),
{
    if z.len() > 0 {
        lemma_zeros_value(z.drop_last());
    }
}

proof fn lemma_padded_value_step(z: Seq<u8>, s: Seq<u8>)
    requires
        forall|i: int| 0 <= i < z.len() ==> z[i] == 0,
    ensures
        be_value(z + s) == be_value(s),
    decreases s.len(),
{
    if s.len() == 0 {
        assert(z + s =~= z);
        lemma_zeros_value(z);
    } else {
        assert((z + s).drop_last() =~= z + s.drop_last());
        lemma_padded_value_step(z, s.drop_last());
    }
}

// ───────────────────────── hashing and Base58 ─────────────────────────

/// RIPEMD160(SHA256(data)), 20 bytes.
pub uninterp spec fn hash160_of(data: Seq<u8>) -> Seq<u8>;

/// SHA256(SHA256(data)), 32 bytes.
pub uninterp spec fn sha256d_of(data: Seq<u8>) -> Seq<u8>;

/// `bitcoin_hashes::Hash::to_byte_array(<bitcoin_hashes::hash160::Hash as bitcoin_hashes::Hash>::hash(data))`.
#[verifier::external_body]
fn hash160(data: &[u8]) -> (h: [u8; 20])
    ensures
        h@ == hash160_of(data@),
{
    bitcoin_hashes::Hash::to_byte_array(<bitcoin_hashes::hash160::Hash as bitcoin_hashes::Hash>::hash(data))
}

/// `bitcoin_hashes::Hash::to_byte_array(<bitcoin_hashes::sha256d::Hash as bitcoin_hashes::Hash>::hash(data))`.
#[verifier::external_body]
fn sha256d(data: &[u8]) -> (h: [u8; 32])
    ensures
        h@ == sha256d_of(data@),
{
    bitcoin_hashes::Hash::to_byte_array(<bitcoin_hashes::sha256d::Hash as bitcoin_hashes::Hash>::hash(data))
}

/// The Bitcoin Base58 alphabet: `123456789ABCDEFGHJKLMNPQRSTUVWXYZabcdefghijkmnopqrstuvwxyz`.
pub open spec fn base58_digit(d: int) -> char {
    if d < 9 {
        (d + 49) as char
    } else if d < 17 {
        (d - 9 + 65) as char
    } else if d < 22 {
        (d - 17 + 74) as char
    } else if d < 33 {
        (d - 22 + 80) as char
    } else if d < 44 {
        (d - 33 + 97) as char
    } else {
        (d - 44 + 109) as char
    }
}

/// The Base58 digits of a number, most significant first; none for zero.
pub open spec fn base58_digits(n: nat) -> Seq<char>
    decreases n,
{
    if n == 0 {
        Seq::empty()
    } else {
        base58_digits(n / 58).push(base58_digit((n % 58) as int))
    }
}

/// The number of zero bytes at the start of a byte string.
pub open spec fn leading_zero_bytes(s: Seq<u8>) -> nat
    decreases s.len(),
{
    if s.len() > 0 && s[0] == 0 {
        1 + leading_zero_bytes(s.drop_first())
    } else {
        0
    }
}

/// Base58 (Bitcoin alphabet): one `1` per leading zero byte, then the
/// digits of the big-endian value of the bytes.
pub open spec fn base58(s: Seq<u8>) -> Seq<char> {
    Seq::new(leading_zero_bytes(s), |i: int| '1') + base58_digits(be_value(s))
}

/// `bs58::encode(data).into_string()`, which is Base58 with the Bitcoin alphabet.
#[verifier::external_body]
fn base58_encode(data: &[u8]) -> (s: String)
    ensures
        s@ == base58(data@),
{
    bs58::encode(data).into_string()
}

/// The 25 bytes that a P2PKH address encodes: the mainnet version byte 0x00,
/// the HASH160 of the public key, and the first 4 bytes of the double
/// SHA-256 of those 21 bytes.
pub open spec fn p2pkh_payload(pubkey: Seq<u8>) -> Seq<u8> {
    let versioned = seq![0u8] + hash160_of(pubkey);
    versioned + sha256d_of(versioned).take(4)
}

/// The P2PKH address of a public key: Base58( 0x00 || hash160(pubkey) || checksum ).
/// Every such address starts with `1`.
pub fn btc_address(pubkey: &PublicKey) -> (addr: String)
    ensures
        addr@ == base58(p2pkh_payload(pubkey@)),
        addr@.len() > 0 && addr@[0] == '1',
        hash160_of(pubkey@).len() == 20,
        sha256d_of(seq![0u8] + hash160_of(pubkey@)).len() == 32,
        p2pkh_payload(pubkey@).len() == 25,
        p2pkh_payload(pubkey@)[0] == 0,
        p2pkh_payload(pubkey@).subrange(1, 21) == hash160_of(pubkey@),
        p2pkh_payload(pubkey@).subrange(21, 25) == sha256d_of(p2pkh_payload(pubkey@).subrange(0, 21)).take(4),
{
    let h160 = hash160(pubkey.compressed.as_slice());
    let mut payload: Vec<u8> = Vec::new();
    payload.push(0u8);
    for i in 0..20
        invariant
            h160@.len() == 20,
            payload@ == seq![0u8] + h160@.take(i as int),
    {
        payload.push(h160[i]);
        assert(payload@ =~= seq![0u8] + h160@.take(i + 1));
    }
    assert(h160@.take(20) =~= h160@);
    let ghost versioned = payload@;
    let checksum = sha256d(payload.as_slice());
    for i in 0..4
        invariant
            checksum@.len() == 32,
            payload@ == versioned + checksum@.take(i as int),
    {
        payload.push(checksum[i]);
        assert(payload@ =~= versioned + checksum@.take(i + 1));
    }
    assert(payload@ =~= p2pkh_payload(pubkey@));
    let addr = base58_encode(payload.as_slice());
    proof {
        assert(payload@.subrange(1, 21) =~= h160@);
        assert(payload@.subrange(0, 21) =~= versioned);
        assert(payload@.subrange(21, 25) =~= checksum@.take(4));
        assert(payload@[0] == 0);
        assert(leading_zero_bytes(payload@) >= 1);
        assert(base58(payload@)[0] == '1');
    }
    addr
}

} // verus!

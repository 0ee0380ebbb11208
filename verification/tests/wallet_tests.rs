use zeta::wallet::{SecretKey, Wallet, btc_address, credit, debit};

fn wallet(balance: u64) -> Wallet {
    Wallet { balance, address: "1addr".to_string() }
}

#[test]
fn debit_refuses_insufficient_balance() {
    let mut w = wallet(100);
    assert!(!debit(&mut w, 101));
    assert_eq!(w.balance, 100);
    assert!(debit(&mut w, 100));
    assert_eq!(w.balance, 0);
    assert_eq!(w.address, "1addr");
}

#[test]
fn credit_then_debit_cancel() {
    let mut w = wallet(10);
    credit(&mut w, 25);
    assert_eq!(w.balance, 35);
    assert!(debit(&mut w, 25));
    assert_eq!(w.balance, 10);
}

#[test]
fn transfer_conserves_total() {
    let mut payer = wallet(70);
    let mut payee = wallet(5);
    assert!(debit(&mut payer, 30));
    credit(&mut payee, 30);
    assert_eq!(payer.balance + payee.balance, 75);
}

fn key_one() -> [u8; 32] {
    let mut b = [0u8; 32];
    b[31] = 1;
    b
}

#[test]
fn secret_key_parsing() {
    let k = SecretKey::from_slice(&key_one()).unwrap();
    assert_eq!(k.to_bytes(), key_one());
    assert!(SecretKey::from_slice(&[0u8; 32]).is_none());
    let order: Vec<u8> = (0..32)
        .map(|i| u8::from_str_radix(&"FFFFFFFFFFFFFFFFFFFFFFFFFFFFFFFEBAAEDCE6AF48A03BBFD25E8CD0364141"[2 * i..2 * i + 2], 16).unwrap())
        .collect();
    assert!(SecretKey::from_slice(&order).is_none());
    let mut below = order.clone();
    below[31] -= 1;
    assert!(SecretKey::from_slice(&below).is_some());
    // 24 to 31 bytes are padded on the left.
    let short = [0x11u8; 24];
    let k = SecretKey::from_slice(&short).unwrap();
    let mut want = [0u8; 32];
    want[8..].copy_from_slice(&short);
    assert_eq!(k.to_bytes(), want);
    assert!(SecretKey::from_slice(&[0x11u8; 23]).is_none());
    assert!(SecretKey::from_slice(&[0x11u8; 33]).is_none());
}

#[test]
fn public_key_of_one_is_generator() {
    let k = SecretKey::from_slice(&key_one()).unwrap();
    let pk = k.public_key();
    let hex: String = pk.compressed.iter().map(|b| format!("{:02x}", b)).collect();
    assert_eq!(hex, "0279be667ef9dcbbac55a06295ce870b07029bfcdb2dce28d959f2815b16f81798");
}

#[test]
fn p2pkh_address_of_key_one() {
    let k = SecretKey::from_slice(&key_one()).unwrap();
    let addr = btc_address(&k.public_key());
    assert_eq!(addr, "1BgGZ9tcN4rm9KBzDn7KprQz87SZ26SAMH");
    assert!(addr.starts_with('1'));
}

#[test]
fn p2pkh_address_matches_reference_computation() {
    let mut b = [0u8; 32];
    b[0] = 0x42;
    b[31] = 0x99;
    let k = SecretKey::from_slice(&b).unwrap();
    let pk = k.public_key();
    let h = bitcoin_hashes::Hash::to_byte_array(<bitcoin_hashes::hash160::Hash as bitcoin_hashes::Hash>::hash(&pk.compressed));
    let mut payload = vec![0u8];
    payload.extend_from_slice(&h);
    let c = bitcoin_hashes::Hash::to_byte_array(<bitcoin_hashes::sha256d::Hash as bitcoin_hashes::Hash>::hash(&payload));
    payload.extend_from_slice(&c[..4]);
    assert_eq!(btc_address(&pk), bs58::encode(&payload).into_string());
    let d = bs58::decode(btc_address(&pk)).into_vec().unwrap();
    assert_eq!(d.len(), 25);
    assert_eq!(d[0], 0);
    assert_eq!(&d[1..21], &h[..]);
    let c2 = bitcoin_hashes::Hash::to_byte_array(<bitcoin_hashes::sha256d::Hash as bitcoin_hashes::Hash>::hash(&d[0..21]));
    assert_eq!(&d[21..25], &c2[..4]);
}

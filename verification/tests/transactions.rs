use ed25519_dalek::Signer;
use ed25519_dalek::SigningKey;
use rustchain::signing::address_of;
use rustchain::transaction::Transaction;
use rustchain::transaction::ValidationError;
use rustchain::transaction::SYSTEM_SENDER;

const SECRET: [u8; 32] = [
    0x9d, 0x61, 0xb1, 0x9d, 0xef, 0xfd, 0x5a, 0x60, 0xba, 0x84, 0x4a, 0xf4, 0x92, 0xec, 0x2c, 0xc4,
    0x44, 0x49, 0xc5, 0x69, 0x7b, 0x32, 0x69, 0x19, 0x70, 0x3b, 0xac, 0x03, 0x1c, 0xae, 0x7f, 0x60,
];

const PUBLIC_HEX: &str = "d75a980182b10ab7d54bfed3c964073a0ee172f3daa62325af021a68f707511a";

const OTHER_SECRET: [u8; 32] = [7u8; 32];

fn signed(amount: u64) -> Transaction {
    let mut tx = Transaction::with_timestamp(address_of(&SECRET), "Bob".to_string(), amount, 1700000000000);
    tx.sign(&SECRET);
    tx
}

#[test]
fn identity_is_hash_of_fields() {
    let tx = Transaction::with_timestamp("alice".to_string(), "bob".to_string(), 50, 1700000000000);
    assert_eq!(tx.id, "6678349bb8abddd36eddca4115d4e97eef7d4ff99f1d12a5844a76d7d3793654");
    assert_eq!(tx.calculate_hash(), tx.id);
    assert_eq!(tx.sender, "alice");
    assert_eq!(tx.receiver, "bob");
    assert_eq!(tx.amount, 50);
    assert_eq!(tx.timestamp, 1700000000000);
    assert!(tx.signature.is_none());
}

#[test]
fn identity_follows_every_field() {
    let base = Transaction::with_timestamp("alice".to_string(), "bob".to_string(), 50, 1700000000000);
    let mut other = base.clone();
    other.amount = 51;
    assert_ne!(other.calculate_hash(), base.id);
    assert_eq!(other.id, base.id);
    let mut other = base.clone();
    other.timestamp = 1700000000001;
    assert_ne!(other.calculate_hash(), base.id);
    let mut other = base.clone();
    other.sender = "alicf".to_string();
    assert_ne!(other.calculate_hash(), base.id);
    let mut other = base.clone();
    other.receiver = "bo".to_string();
    assert_ne!(other.calculate_hash(), base.id);
    let mut other = base.clone();
    other.signature = Some("00".to_string());
    assert_eq!(other.calculate_hash(), base.id);
}

#[test]
fn identity_of_zero_amount_and_time() {
    let tx = Transaction::with_timestamp(String::new(), String::new(), 0, 0);
    // SHA-256 of the two bytes "00".
    assert_eq!(tx.id, "f1534392279bddbf9d43dde8701cb5be14b82f76ec6607bf8d6ad557f60f304e");
}

#[test]
fn new_transaction_is_stamped_and_unsigned() {
    let tx = Transaction::new("alice".to_string(), "bob".to_string(), 3);
    assert!(tx.timestamp > 1_600_000_000_000);
    assert_eq!(tx.id, tx.calculate_hash());
    assert_eq!(tx.id.len(), 64);
    assert!(tx.signature.is_none());
    assert_eq!(tx.amount, 3);
}

#[test]
fn address_is_public_key_in_hex() {
    assert_eq!(address_of(&SECRET), PUBLIC_HEX);
    let key = SigningKey::from_bytes(&OTHER_SECRET);
    assert_eq!(address_of(&OTHER_SECRET), hex::encode(key.verifying_key().to_bytes()));
}

#[test]
fn signature_is_over_stored_identity() {
    let tx = signed(50);
    let key = SigningKey::from_bytes(&SECRET);
    let expected = hex::encode(key.sign(tx.id.as_bytes()).to_bytes());
    assert_eq!(tx.signature, Some(expected));
    assert_eq!(tx.signature.as_ref().unwrap().len(), 128);
}

#[test]
fn signing_keeps_the_other_fields() {
    let before = Transaction::with_timestamp(address_of(&SECRET), "Bob".to_string(), 50, 1700000000000);
    let mut tx = before.clone();
    tx.sign(&SECRET);
    assert_eq!(tx.id, before.id);
    assert_eq!(tx.sender, before.sender);
    assert_eq!(tx.receiver, before.receiver);
    assert_eq!(tx.amount, before.amount);
    assert_eq!(tx.timestamp, before.timestamp);
}

#[test]
fn transaction_signed_by_its_sender_is_valid() {
    assert!(signed(50).is_valid());
    assert!(signed(0).is_valid());
}

#[test]
fn transaction_without_signature_is_invalid() {
    let mut tx = signed(50);
    tx.signature = None;
    assert!(!tx.is_valid());
}

#[test]
fn transaction_with_corrupted_signature_is_invalid() {
    let good = signed(50);
    let text = good.signature.clone().unwrap();

    let mut tx = good.clone();
    let flipped = if text.starts_with('0') { "1" } else { "0" };
    tx.signature = Some(format!("{}{}", flipped, &text[1..]));
    assert!(!tx.is_valid());

    let mut tx = good.clone();
    tx.signature = Some(text[..126].to_string());
    assert!(!tx.is_valid());

    let mut tx = good.clone();
    tx.signature = Some(text[..127].to_string());
    assert!(!tx.is_valid());

    let mut tx = good.clone();
    tx.signature = Some(format!("{}zz", &text[..126]));
    assert!(!tx.is_valid());

    let mut tx = good.clone();
    tx.signature = Some(String::new());
    assert!(!tx.is_valid());

    let mut tx = good.clone();
    tx.signature = Some(text.to_uppercase());
    assert!(tx.is_valid());
}

#[test]
fn transaction_signed_by_another_key_is_invalid() {
    let mut tx = Transaction::with_timestamp(address_of(&SECRET), "Bob".to_string(), 50, 1700000000000);
    tx.sign(&OTHER_SECRET);
    assert!(tx.signature.is_some());
    assert!(!tx.is_valid());
}

#[test]
fn transaction_changed_after_signing_is_invalid() {
    let mut tx = signed(50);
    tx.amount = 5000;
    assert!(!tx.is_valid());
    let mut tx = signed(50);
    tx.receiver = "Mallory".to_string();
    assert!(!tx.is_valid());
}

#[test]
fn transaction_with_malformed_sender_is_invalid() {
    let good = signed(50);
    let mut tx = good.clone();
    tx.sender = "Alice".to_string();
    assert!(!tx.is_valid());
    let mut tx = good.clone();
    tx.sender = good.sender[..62].to_string();
    assert!(!tx.is_valid());
    let mut tx = good.clone();
    tx.sender = format!("{}00", good.sender);
    assert!(!tx.is_valid());
    let mut tx = good.clone();
    tx.sender = String::new();
    assert!(!tx.is_valid());
    let mut tx = good.clone();
    tx.sender = "é".repeat(32);
    assert!(!tx.is_valid());
}

#[test]
fn minted_transaction_is_valid_whatever_its_signature() {
    let mut tx = Transaction::with_timestamp(SYSTEM_SENDER.to_string(), "Miner1".to_string(), 50, 1);
    assert_eq!(SYSTEM_SENDER, "SISTEM");
    assert!(tx.is_valid());
    tx.signature = Some("not a signature".to_string());
    assert!(tx.is_valid());
    tx.signature = Some(String::new());
    assert!(tx.is_valid());
    tx.sign(&OTHER_SECRET);
    assert!(tx.is_valid());
}

#[test]
fn sender_close_to_system_is_not_minted() {
    let tx = Transaction::with_timestamp("SYSTEM".to_string(), "Miner1".to_string(), 50, 1);
    assert!(!tx.is_valid());
    let tx = Transaction::with_timestamp("sistem".to_string(), "Miner1".to_string(), 50, 1);
    assert!(!tx.is_valid());
}

#[test]
fn validation_names_what_is_wrong() {
    let good = signed(50);
    assert_eq!(good.validate(), Ok(()));

    let mut tx = good.clone();
    tx.signature = None;
    assert_eq!(tx.validate(), Err(ValidationError::MissingSignature));

    let mut tx = good.clone();
    tx.sender = "Alice".to_string();
    assert_eq!(tx.validate(), Err(ValidationError::MalformedSender));
    tx.sender = "abcd".to_string();
    assert_eq!(tx.validate(), Err(ValidationError::MalformedSender));

    let mut tx = good.clone();
    tx.signature = Some("xyz".to_string());
    assert_eq!(tx.validate(), Err(ValidationError::MalformedSignature));
    tx.signature = Some("abcd".to_string());
    assert_eq!(tx.validate(), Err(ValidationError::MalformedSignature));

    let mut tx = good.clone();
    tx.sign(&OTHER_SECRET);
    assert_eq!(tx.validate(), Err(ValidationError::RefusedSignature));

    let mut tx = good.clone();
    tx.amount += 1;
    assert_eq!(tx.validate(), Err(ValidationError::RefusedSignature));
}

#[test]
fn validation_checks_in_order() {
    let mut tx = Transaction::with_timestamp("Alice".to_string(), "Bob".to_string(), 1, 2);
    assert_eq!(tx.validate(), Err(ValidationError::MissingSignature));
    tx.signature = Some("xyz".to_string());
    assert_eq!(tx.validate(), Err(ValidationError::MalformedSender));
    tx.sender = SYSTEM_SENDER.to_string();
    assert_eq!(tx.validate(), Ok(()));
}

#[test]
fn sender_that_is_no_key_is_refused() {
    // Thirty-two bytes that are the encoding of no point of the curve.
    let mut no_key = [0u8; 32];
    no_key[0] = 2;
    assert!(ed25519_dalek::VerifyingKey::from_bytes(&no_key).is_err());
    let mut tx = Transaction::with_timestamp(hex::encode(no_key), "Bob".to_string(), 1, 2);
    tx.sign(&SECRET);
    assert_eq!(tx.validate(), Err(ValidationError::RefusedSignature));
    assert!(!tx.is_valid());
}

use rustchain::block::has_leading_zeros;
use rustchain::block::Block;
use rustchain::block::GENESIS_AMOUNT;
use rustchain::block::GENESIS_PREVIOUS_HASH;
use rustchain::block::GENESIS_RECEIVER;
use rustchain::hashing::hash_hex;
use rustchain::transaction::Transaction;
use rustchain::transaction::SYSTEM_SENDER;

fn sample_transactions() -> Vec<Transaction> {
    let mut signed = Transaction::with_timestamp("alice".to_string(), "bob".to_string(), 50, 1700000000000);
    signed.signature = Some("c0ffee".to_string());
    let plain = Transaction::with_timestamp("carol".to_string(), "dave".to_string(), 7, 1700000000001);
    vec![signed, plain]
}

#[test]
fn hash_of_abc() {
    assert_eq!(
        hash_hex(b"abc"),
        "ba7816bf8f01cfea414140de5dae2223b00361a396177a9cb410ff61f20015ad"
    );
    assert_eq!(
        hash_hex(b""),
        "e3b0c44298fc1c149afbf4c8996fb92427ae41e4649b934ca495991b7852b855"
    );
}

#[test]
fn genesis_block_is_exact() {
    let block = Block::genesis_with_timestamps(1700000000000, 1700000000);
    assert_eq!(block.timestamp, 1700000000);
    assert_eq!(block.height, 0);
    assert_eq!(block.nonce, 0);
    assert_eq!(block.difficulty, 0);
    assert_eq!(block.prev_block_hash, GENESIS_PREVIOUS_HASH);
    assert_eq!(block.prev_block_hash, "0");
    assert_eq!(block.transactions.len(), 1);
    let minted = &block.transactions[0];
    assert_eq!(minted.sender, SYSTEM_SENDER);
    assert_eq!(minted.receiver, GENESIS_RECEIVER);
    assert_eq!(minted.amount, GENESIS_AMOUNT);
    assert_eq!(minted.sender, "SISTEM");
    assert!(minted.is_valid());
    assert_eq!(minted.receiver, "admin");
    assert_eq!(minted.amount, 1000);
    assert_eq!(minted.timestamp, 1700000000000);
    assert!(minted.signature.is_none());
    assert_eq!(minted.id, "9d31a0e4bf97fca327b11b165c3d2ed259404ba085c6eab9b1ea593beee5c7f7");
    assert_eq!(block.hash, "6b8be9239bd1d212111e9c12052aad5e68c26511375361cfe2735d0cf3674a3f");
    assert_eq!(block.calculate_hash(), block.hash);
}

#[test]
fn genesis_block_of_now() {
    let block = Block::genesis();
    assert_eq!(block.height, 0);
    assert_eq!(block.difficulty, 0);
    assert_eq!(block.nonce, 0);
    assert_eq!(block.transactions.len(), 1);
    assert_eq!(block.transactions[0].amount, 1000);
    assert!(block.timestamp > 1_600_000_000);
    assert_eq!(block.hash, block.calculate_hash());
}

#[test]
fn new_block_is_sealed_at_nonce_zero() {
    let block = Block::new(sample_transactions(), "ab".to_string(), 4, 2);
    assert_eq!(block.nonce, 0);
    assert_eq!(block.height, 4);
    assert_eq!(block.difficulty, 2);
    assert_eq!(block.prev_block_hash, "ab");
    assert_eq!(block.transactions.len(), 2);
    assert!(block.timestamp > 1_600_000_000);
    assert_eq!(block.hash.len(), 64);
    assert_eq!(block.hash, block.calculate_hash());
}

#[test]
fn block_hash_of_empty_block_with_negative_time() {
    let mut block = Block::with_timestamp(Vec::new(), String::new(), 7, 2, -5);
    block.nonce = 3;
    // The bytes hashed are "-5;0;0:7;3;2;".
    assert_eq!(block.calculate_hash(), hash_hex(b"-5;0;0:7;3;2;"));
    assert_eq!(
        block.calculate_hash(),
        "a5fc545c642e9ff80fe70a5fa5fc8b0e050d9e70057ec4ad583543f25126371b"
    );
}

#[test]
fn block_hash_at_the_ends_of_the_ranges() {
    let mut block = Block::with_timestamp(Vec::new(), "0".to_string(), u64::MAX, 0, i64::MIN);
    block.nonce = u64::MAX;
    assert_eq!(
        block.calculate_hash(),
        hash_hex(b"-9223372036854775808;0;1:018446744073709551615;18446744073709551615;0;")
    );
    let block = Block::with_timestamp(Vec::new(), "0".to_string(), 0, 10, i64::MAX);
    assert_eq!(block.hash, hash_hex(b"9223372036854775807;0;1:00;0;10;"));
}

#[test]
fn block_hash_spells_out_each_transaction() {
    let block = Block::with_timestamp(sample_transactions(), "prev".to_string(), 1, 0, 12);
    let first = &block.transactions[0];
    let second = &block.transactions[1];
    let expected = format!(
        "12;2;64:{}5:alice3:bob50;1700000000000;+6:c0ffee64:{}5:carol4:dave7;1700000000001;-4:prev1;0;0;",
        first.id, second.id
    );
    assert_eq!(block.hash, hash_hex(expected.as_bytes()));
}

#[test]
fn block_hash_counts_bytes_not_characters() {
    let tx = Transaction::with_timestamp("é".to_string(), "日本".to_string(), 1, 2);
    let id = tx.id.clone();
    let block = Block::with_timestamp(vec![tx], "0".to_string(), 0, 0, 0);
    let expected = format!("0;1;64:{}2:é6:日本1;2;-1:00;0;0;", id);
    assert_eq!(block.hash, hash_hex(expected.as_bytes()));
}

#[test]
fn block_hash_follows_every_field() {
    let base = Block::with_timestamp(sample_transactions(), "prev".to_string(), 1, 0, 12);
    let mut other = base.clone();
    other.timestamp = 13;
    assert_ne!(other.calculate_hash(), base.hash);
    let mut other = base.clone();
    other.prev_block_hash = "prew".to_string();
    assert_ne!(other.calculate_hash(), base.hash);
    let mut other = base.clone();
    other.height = 2;
    assert_ne!(other.calculate_hash(), base.hash);
    let mut other = base.clone();
    other.nonce = 1;
    assert_ne!(other.calculate_hash(), base.hash);
    let mut other = base.clone();
    other.difficulty = 1;
    assert_ne!(other.calculate_hash(), base.hash);
    let mut other = base.clone();
    other.transactions.pop();
    assert_ne!(other.calculate_hash(), base.hash);
    let mut other = base.clone();
    other.transactions.swap(0, 1);
    assert_ne!(other.calculate_hash(), base.hash);
    let mut other = base.clone();
    other.transactions[0].signature = None;
    assert_ne!(other.calculate_hash(), base.hash);
    let mut other = base.clone();
    other.transactions[1].id = "x".to_string();
    assert_ne!(other.calculate_hash(), base.hash);
    let mut other = base.clone();
    other.hash = "anything".to_string();
    assert_eq!(other.calculate_hash(), base.hash);
}

#[test]
fn fields_do_not_run_into_each_other() {
    let a = Block::with_timestamp(Vec::new(), "0".to_string(), 11, 0, 0);
    let mut b = Block::with_timestamp(Vec::new(), "0".to_string(), 1, 0, 0);
    b.nonce = 10;
    let mut a10 = a.clone();
    a10.nonce = 0;
    assert_ne!(a10.calculate_hash(), b.calculate_hash());
}

#[test]
fn leading_zeros_are_counted() {
    assert!(has_leading_zeros("000abc", 0));
    assert!(has_leading_zeros("000abc", 3));
    assert!(!has_leading_zeros("000abc", 4));
    assert!(!has_leading_zeros("000", 4));
    assert!(has_leading_zeros("000", 3));
    assert!(has_leading_zeros("", 0));
    assert!(!has_leading_zeros("", 1));
    assert!(!has_leading_zeros("a000", 1));
    assert!(!has_leading_zeros("éé", 3));
    assert!(!has_leading_zeros("0O0", 2));
}

#[test]
fn mining_finds_least_nonce() {
    let mut block = Block::genesis_with_timestamps(1700000000000, 1700000000);
    block.difficulty = 1;
    assert!(block.mine());
    assert_eq!(block.nonce, 17);
    assert_eq!(block.hash, "0568c102ca0cfb89630d08a2a465d2180e424a1a6e14775de45ace3abb415db8");
    assert_eq!(block.hash, block.calculate_hash());
}

#[test]
fn mining_leaves_the_other_fields() {
    let mut block = Block::with_timestamp(sample_transactions(), "prev".to_string(), 3, 2, 12);
    let before = block.clone();
    assert!(block.mine());
    assert!(block.hash.starts_with("00"));
    assert_eq!(block.hash, block.calculate_hash());
    assert_eq!(block.timestamp, before.timestamp);
    assert_eq!(block.prev_block_hash, before.prev_block_hash);
    assert_eq!(block.height, before.height);
    assert_eq!(block.difficulty, before.difficulty);
    assert_eq!(block.transactions.len(), 2);
    assert_eq!(block.transactions[0].id, before.transactions[0].id);
    assert_eq!(block.transactions[0].signature, before.transactions[0].signature);
    assert_eq!(block.transactions[1].id, before.transactions[1].id);
    let mut probe = before.clone();
    for nonce in 0..block.nonce {
        probe.nonce = nonce;
        assert!(!probe.calculate_hash().starts_with("00"));
    }
}

#[test]
fn mining_at_difficulty_zero_keeps_nonce_zero() {
    let mut block = Block::with_timestamp(Vec::new(), "0".to_string(), 0, 0, 1);
    let hash = block.hash.clone();
    assert!(block.mine());
    assert_eq!(block.nonce, 0);
    assert_eq!(block.hash, hash);
}

#[test]
fn mining_starts_from_nonce_zero_and_mends_the_hash() {
    let mut block = Block::genesis_with_timestamps(1700000000000, 1700000000);
    block.difficulty = 1;
    block.nonce = 500;
    block.hash = "0stale".to_string();
    assert!(block.mine());
    assert_eq!(block.nonce, 17);
    assert_eq!(block.hash, block.calculate_hash());
}

#[test]
fn mining_twice_changes_nothing() {
    let mut block = Block::genesis_with_timestamps(1700000000000, 1700000000);
    block.difficulty = 2;
    assert!(block.mine());
    let nonce = block.nonce;
    let hash = block.hash.clone();
    assert!(block.mine());
    assert_eq!(block.nonce, nonce);
    assert_eq!(block.hash, hash);
    assert_eq!(nonce, 3);
}

#[test]
fn mining_beyond_hash_length_fails_and_leaves_block() {
    let mut block = Block::with_timestamp(Vec::new(), "0".to_string(), 0, 65, 1);
    block.nonce = 9;
    let hash = block.hash.clone();
    assert!(!block.mine());
    assert_eq!(block.nonce, 9);
    assert_eq!(block.hash, hash);
    assert_eq!(block.difficulty, 65);
}

#[test]
fn search_keeps_to_its_range() {
    let mut block = Block::genesis_with_timestamps(1700000000000, 1700000000);
    block.difficulty = 1;
    assert!(block.search_nonces(0, 16).is_none());
    assert!(block.search_nonces(5, 4).is_none());
    let (nonce, hash) = block.search_nonces(0, 17).unwrap();
    assert_eq!(nonce, 17);
    assert_eq!(hash, "0568c102ca0cfb89630d08a2a465d2180e424a1a6e14775de45ace3abb415db8");
    let (nonce, _) = block.search_nonces(17, 17).unwrap();
    assert_eq!(nonce, 17);
    let (later, hash) = block.search_nonces(18, u64::MAX).unwrap();
    assert_eq!(later, 24);
    assert!(hash.starts_with("0"));
    assert_eq!(block.nonce, 0);
    let mut probe = block.clone();
    probe.nonce = later;
    assert_eq!(probe.calculate_hash(), hash);
}

//! Blocks: what is hashed, and the search for a nonce.
//!
//! The bytes that are hashed hold every field but the hash, each as a field
//! of [`crate::codec`], in this order: timestamp, the number of transactions,
//! the transactions, the hash of the block before, height, nonce, difficulty.
//! An empty block at time -5 and height 7, on top of nothing, with nonce 3 at
//! difficulty 2, is hashed as `-5;0;0:7;3;2;`. No two blocks that differ in
//! any of these fields are hashed as the same bytes.

use crate::clock;
use crate::codec::lemma_join_assoc;
use crate::codec::lemma_number_field_head;
use crate::codec::lemma_optional_text_field_head;
use crate::codec::lemma_signed_field_head;
use crate::codec::lemma_text_field_head;
use crate::codec::number_field;
use crate::codec::optional_text_field;
use crate::codec::push_number_field;
use crate::codec::push_signed_field;
use crate::codec::push_text_field;
use crate::codec::signed_field;
use crate::codec::text_field;
use crate::codec::MINUS;
use crate::codec::PLUS;
use crate::hashing::digest_text;
use crate::hashing::hash_hex;
use crate::hashing::no_collision;
use crate::hashing::sha256_digest;
use crate::hexcode::lemma_hex_text_injective;
use crate::transaction::transaction_views;
use crate::transaction::unsigned;
use crate::transaction::Transaction;
use crate::transaction::TransactionView;
use crate::transaction::SYSTEM_SENDER;
use vstd::prelude::*;
use vstd::string::*;
use vstd::utf8::*;

verus! {

/// The receiver of the one transaction in a genesis block.
pub const GENESIS_RECEIVER: &'static str = "admin";

/// The amount of the one transaction in a genesis block.
pub const GENESIS_AMOUNT: u64 = 1000;

/// What a genesis block holds in place of a predecessor's hash.
pub const GENESIS_PREVIOUS_HASH: &'static str = "0";

/// The number of characters in a hash.
pub const HASH_LENGTH: usize = 64;

/// Transactions, the hash of the block before, and the nonce that mining
/// found. `hash` is the hash of all the other fields.
#[derive(Debug)]
pub struct Block {
    pub timestamp: i64,
    pub transactions: Vec<Transaction>,
    pub prev_block_hash: String,
    pub hash: String,
    pub height: u64,
    pub nonce: u64,
    pub difficulty: usize,
}

/// What a [`Block`] holds, as mathematical values.
pub struct BlockView {
    pub timestamp: i64,
    pub transactions: Seq<TransactionView>,
    pub prev_block_hash: Seq<char>,
    pub hash: Seq<char>,
    pub height: u64,
    pub nonce: u64,
    pub difficulty: usize,
}

impl View for Block {
    type V = BlockView;

    open spec fn view(&self) -> BlockView {
        BlockView {
            timestamp: self.timestamp,
            transactions: transaction_views(self.transactions@),
            prev_block_hash: self.prev_block_hash@,
            hash: self.hash@,
            height: self.height,
            nonce: self.nonce,
            difficulty: self.difficulty,
        }
    }
}

/// A text that may be absent, in UTF-8.
pub open spec fn optional_utf8(text: Option<Seq<char>>) -> Option<Seq<u8>> {
    match text {
        Some(t) => Some(encode_utf8(t)),
        None => None,
    }
}

/// A transaction as it stands in the bytes of a block: identity, sender and
/// receiver as text fields, amount and timestamp as number fields, then the
/// signature.
#[verifier::opaque]
pub open spec fn transaction_bytes(tx: TransactionView) -> Seq<u8> {
    text_field(encode_utf8(tx.id)) + text_field(encode_utf8(tx.sender)) + text_field(
        encode_utf8(tx.receiver),
    ) + number_field(tx.amount as nat) + number_field(tx.timestamp as nat) + optional_text_field(
        optional_utf8(tx.signature),
    )
}

/// The transactions of a block, one after the other.
pub open spec fn transactions_bytes(transactions: Seq<TransactionView>) -> Seq<u8>
    decreases transactions.len(),
{
    if transactions.len() == 0 {
        Seq::empty()
    } else {
        transactions_bytes(transactions.drop_last()) + transaction_bytes(transactions.last())
    }
}

/// Whether a hash begins with `difficulty` zeros.
pub open spec fn meets_difficulty(hash: Seq<char>, difficulty: nat) -> bool {
    &&& difficulty <= hash.len()
    &&& forall|i: int| 0 <= i < difficulty ==> hash[i] == '0'
}

impl BlockView {
    /// The bytes that mining leaves alone: timestamp, the number of
    /// transactions, the transactions, the hash of the block before, and the
    /// height.
    #[verifier::opaque]
    pub open spec fn fixed_bytes(self) -> Seq<u8> {
        signed_field(self.timestamp as int) + number_field(self.transactions.len())
            + transactions_bytes(self.transactions) + text_field(encode_utf8(self.prev_block_hash))
            + number_field(self.height as nat)
    }

    /// The bytes that are hashed: every field but the hash, the nonce and
    /// the difficulty last.
    #[verifier::opaque]
    pub open spec fn content_bytes(self) -> Seq<u8> {
        self.fixed_bytes() + number_field(self.nonce as nat) + number_field(self.difficulty as nat)
    }

    /// The hash that the other fields call for.
    pub open spec fn expected_hash(self) -> Seq<char> {
        digest_text(self.content_bytes())
    }

    /// Whether the stored hash is the hash of the other fields.
    pub open spec fn sealed(self) -> bool {
        self.hash == self.expected_hash()
    }

    /// Whether the block is sealed and its hash begins with as many zeros as
    /// its difficulty asks for.
    pub open spec fn mined(self) -> bool {
        self.sealed() && meets_difficulty(self.hash, self.difficulty as nat)
    }

    /// The block with another nonce, and the hash that goes with it.
    pub open spec fn with_nonce(self, nonce: u64) -> BlockView {
        BlockView { nonce, hash: (BlockView { nonce, ..self }).expected_hash(), ..self }
    }

    /// Whether the block would be mined with this nonce.
    pub open spec fn nonce_works(self, nonce: u64) -> bool {
        meets_difficulty(self.with_nonce(nonce).hash, self.difficulty as nat)
    }
}

/// Whether no nonce at all would mine the block.
pub open spec fn unminable(block: BlockView) -> bool {
    forall|n: u64| !block.nonce_works(n)
}

/// A block as it is first made: nonce zero, and the hash that goes with it.
pub open spec fn fresh_block(
    transactions: Seq<TransactionView>,
    prev_block_hash: Seq<char>,
    height: u64,
    difficulty: usize,
    timestamp: i64,
) -> BlockView {
    (BlockView {
        timestamp,
        transactions,
        prev_block_hash,
        hash: Seq::empty(),
        height,
        nonce: 0,
        difficulty,
    }).with_nonce(0)
}

/// The genesis block made at the given times, before any mining: one
/// transaction, which mints [`GENESIS_AMOUNT`] for [`GENESIS_RECEIVER`].
pub open spec fn genesis_block(minted_at: u64, timestamp: i64) -> BlockView {
    fresh_block(
        seq![unsigned(SYSTEM_SENDER@, GENESIS_RECEIVER@, GENESIS_AMOUNT, minted_at)],
        GENESIS_PREVIOUS_HASH@,
        0,
        0,
        timestamp,
    )
}

/// Whether `text` begins with `count` zeros.
pub fn has_leading_zeros(text: &str, count: usize) -> (yes: bool)
    ensures
        yes == meets_difficulty(text@, count as nat),
{
    if count > text.unicode_len() {
        return false;
    }
    let mut i: usize = 0;
    while i < count
        invariant
            i <= count <= text@.len(),
            forall|j: int| 0 <= j < i ==> text@[j] == '0',
        decreases count - i,
    {
        if text.get_char(i) != '0' {
            return false;
        }
        i += 1;
    }
    true
}

/// Appends a transaction as it stands in the bytes of a block.
fn push_transaction(out: &mut Vec<u8>, tx: &Transaction)
    ensures
        final(out)@ == old(out)@ + transaction_bytes(tx@),
{
    reveal(transaction_bytes);
    push_text_field(out, tx.id.as_str().as_bytes());
    push_text_field(out, tx.sender.as_str().as_bytes());
    push_text_field(out, tx.receiver.as_str().as_bytes());
    push_number_field(out, tx.amount);
    push_number_field(out, tx.timestamp);
    match &tx.signature {
        Some(signature) => {
            out.push(PLUS);
            push_text_field(out, signature.as_str().as_bytes());
            assert(out@ == old(out)@ + transaction_bytes(tx@));
        },
        None => {
            out.push(MINUS);
            assert(out@ == old(out)@ + transaction_bytes(tx@));
        },
    }
}

impl Clone for Block {
    fn clone(&self) -> (copy: Self)
        ensures
            copy@ == self@,
    {
        let copy = Block {
            timestamp: self.timestamp,
            transactions: self.transactions.clone(),
            prev_block_hash: self.prev_block_hash.clone(),
            hash: self.hash.clone(),
            height: self.height,
            nonce: self.nonce,
            difficulty: self.difficulty,
        };
        assert(transaction_views(copy.transactions@) =~= transaction_views(self.transactions@));
        copy
    }
}

impl Block {
    /// A block with nonce zero and the hash that goes with it, stamped with
    /// the time of the call.
    pub fn new(
        transactions: Vec<Transaction>,
        prev_block_hash: String,
        height: u64,
        difficulty: usize,
    ) -> (block: Block)
        ensures
            block@ == fresh_block(
                transaction_views(transactions@),
                prev_block_hash@,
                height,
                difficulty,
                block.timestamp,
            ),
            block@.sealed(),
    {
        Block::with_timestamp(
            transactions,
            prev_block_hash,
            height,
            difficulty,
            clock::unix_seconds(),
        )
    }

    /// A block with nonce zero and the hash that goes with it, with the given
    /// time in seconds since the Unix epoch.
    pub fn with_timestamp(
        transactions: Vec<Transaction>,
        prev_block_hash: String,
        height: u64,
        difficulty: usize,
        timestamp: i64,
    ) -> (block: Block)
        ensures
            block@ == fresh_block(
                transaction_views(transactions@),
                prev_block_hash@,
                height,
                difficulty,
                timestamp,
            ),
            block@.sealed(),
    {
        let mut block = Block {
            timestamp,
            transactions,
            prev_block_hash,
            hash: String::new(),
            height,
            nonce: 0,
            difficulty,
        };
        let ghost unsealed = block@;
        block.hash = block.calculate_hash();
        proof {
            lemma_stored_hash_plays_no_part(block@, unsealed);
        }
        block
    }

    /// The bytes that mining leaves alone.
    fn fixed_bytes(&self) -> (data: Vec<u8>)
        ensures
            data@ == self@.fixed_bytes(),
    {
        reveal(BlockView::fixed_bytes);
        let mut data: Vec<u8> = Vec::new();
        push_signed_field(&mut data, self.timestamp);
        push_number_field(&mut data, self.transactions.len() as u64);
        let ghost head = data@;
        let ghost views = self@.transactions;
        let mut i: usize = 0;
        while i < self.transactions.len()
            invariant
                i <= self.transactions.len(),
                views == transaction_views(self.transactions@),
                data@ == head + transactions_bytes(views.take(i as int)),
            decreases self.transactions.len() - i,
        {
            push_transaction(&mut data, &self.transactions[i]);
            proof {
                let next = views.take(i + 1);
                assert(next.drop_last() == views.take(i as int));
                assert(next.last() == self.transactions@[i as int]@);
            }
            i += 1;
        }
        assert(views.take(i as int) == views);
        push_text_field(&mut data, self.prev_block_hash.as_str().as_bytes());
        push_number_field(&mut data, self.height);
        assert(data@ == self@.fixed_bytes());
        data
    }

    /// The hash that the other fields call for, whatever is stored.
    pub fn calculate_hash(&self) -> (hash: String)
        ensures
            hash@ == self@.expected_hash(),
            hash@.len() == HASH_LENGTH,
    {
        reveal(BlockView::content_bytes);
        let mut data = self.fixed_bytes();
        push_number_field(&mut data, self.nonce);
        push_number_field(&mut data, self.difficulty as u64);
        hash_hex(data.as_slice())
    }

    /// Tries the nonces from `first` to `last`, in order, and gives the first
    /// with which the block would be mined, and the hash that goes with it.
    /// The block's own nonce and hash play no part.
    pub fn search_nonces(&self, first: u64, last: u64) -> (found: Option<(u64, String)>)
        ensures
            match found {
                Some((nonce, hash)) => {
                    &&& first <= nonce <= last
                    &&& self@.nonce_works(nonce)
                    &&& hash@ == self@.with_nonce(nonce).hash
                    &&& forall|n: u64| first <= n < nonce ==> !self@.nonce_works(n)
                },
                None => forall|n: u64| first <= n <= last ==> !self@.nonce_works(n),
            },
    {
        if first > last || self.difficulty > HASH_LENGTH {
            return None;
        }
        let mut data = self.fixed_bytes();
        let fixed_length = data.len();
        let mut nonce: u64 = first;
        loop
            invariant
                first <= nonce <= last,
                fixed_length == self@.fixed_bytes().len(),
                data@.len() >= fixed_length,
                data@.subrange(0, fixed_length as int) == self@.fixed_bytes(),
                forall|n: u64| first <= n < nonce ==> !self@.nonce_works(n),
            decreases last - nonce,
        {
            data.truncate(fixed_length);
            push_number_field(&mut data, nonce);
            push_number_field(&mut data, self.difficulty as u64);
            assert(data@ == (BlockView { nonce, ..self@ }).content_bytes()) by {
                reveal(BlockView::content_bytes);
                reveal(BlockView::fixed_bytes);
            }
            let hash = hash_hex(data.as_slice());
            if has_leading_zeros(hash.as_str(), self.difficulty) {
                return Some((nonce, hash));
            }
            if nonce == last {
                return None;
            }
            nonce += 1;
        }
    }

    /// Searches for the least nonce with which the hash begins with as many
    /// zeros as the difficulty asks for, and stores it with its hash. Where
    /// no nonce will do, the block is left as it was and the result is
    /// `false`.
    pub fn mine(&mut self) -> (found: bool)
        ensures
            found <==> exists|n: u64| old(self)@.nonce_works(n),
            found ==> {
                &&& final(self)@ == old(self)@.with_nonce(final(self).nonce)
                &&& final(self)@.mined()
                &&& forall|n: u64| n < final(self).nonce ==> !old(self)@.nonce_works(n)
            },
            !found ==> final(self)@ == old(self)@,
    {
        match self.search_nonces(0, u64::MAX) {
            Some((nonce, hash)) => {
                self.nonce = nonce;
                self.hash = hash;
                proof {
                    lemma_stored_hash_plays_no_part(self@, (BlockView { nonce, ..old(self)@ }));
                }
                true
            },
            None => false,
        }
    }

    /// The genesis block, not yet mined, stamped with the time of the call:
    /// one minted transaction, height zero, difficulty zero.
    pub fn genesis() -> (block: Block)
        ensures
            block.transactions.len() == 1,
            block@ == genesis_block(block.transactions[0].timestamp, block.timestamp),
            block@.sealed(),
            block@.transactions[0].valid(),
    {
        Block::genesis_with_timestamps(clock::unix_millis(), clock::unix_seconds())
    }

    /// The genesis block, not yet mined, with the given times: that of its
    /// one minted transaction in milliseconds, its own in seconds.
    pub fn genesis_with_timestamps(minted_at: u64, timestamp: i64) -> (block: Block)
        ensures
            block.transactions.len() == 1,
            block.transactions[0].timestamp == minted_at,
            block@ == genesis_block(minted_at, timestamp),
            block@.sealed(),
            block@.transactions[0].valid(),
    {
        let minted = Transaction::with_timestamp(
            SYSTEM_SENDER.to_owned(),
            GENESIS_RECEIVER.to_owned(),
            GENESIS_AMOUNT,
            minted_at,
        );
        let mut transactions: Vec<Transaction> = Vec::new();
        transactions.push(minted);
        assert(transaction_views(transactions@) =~= seq![
            unsigned(SYSTEM_SENDER@, GENESIS_RECEIVER@, GENESIS_AMOUNT, minted_at),
        ]);
        let block = Block::with_timestamp(
            transactions,
            GENESIS_PREVIOUS_HASH.to_owned(),
            0,
            0,
            timestamp,
        );
        assert(block.transactions@.len() == block@.transactions.len());
        assert(block.transactions@[0]@ == block@.transactions[0]);
        block
    }
}

/// Two texts with the same UTF-8 are the same.
pub proof fn lemma_utf8_injective(a: Seq<char>, b: Seq<char>)
    requires
        encode_utf8(a) == encode_utf8(b),
    ensures
        a == b,
{
    encode_utf8_decode_utf8(a);
    encode_utf8_decode_utf8(b);
}

/// The bytes of a transaction and what follows them, field by field.
proof fn lemma_transaction_bytes_joined(tx: TransactionView, after: Seq<u8>)
    ensures
        transaction_bytes(tx) + after == text_field(encode_utf8(tx.id)) + (text_field(
            encode_utf8(tx.sender),
        ) + (text_field(encode_utf8(tx.receiver)) + (number_field(tx.amount as nat) + (number_field(
            tx.timestamp as nat,
        ) + (optional_text_field(optional_utf8(tx.signature)) + after))))),
{
    reveal(transaction_bytes);
    let f0 = text_field(encode_utf8(tx.id));
    let f1 = text_field(encode_utf8(tx.sender));
    let f2 = text_field(encode_utf8(tx.receiver));
    let f3 = number_field(tx.amount as nat);
    let f4 = number_field(tx.timestamp as nat);
    let f5 = optional_text_field(optional_utf8(tx.signature));
    lemma_join_assoc(f0 + f1 + f2 + f3 + f4, f5, after);
    lemma_join_assoc(f0 + f1 + f2 + f3, f4, f5 + after);
    lemma_join_assoc(f0 + f1 + f2, f3, f4 + (f5 + after));
    lemma_join_assoc(f0 + f1, f2, f3 + (f4 + (f5 + after)));
    lemma_join_assoc(f0, f1, f2 + (f3 + (f4 + (f5 + after))));
}

/// The bytes of a block, field by field.
proof fn lemma_content_bytes_joined(block: BlockView)
    ensures
        block.content_bytes() == signed_field(block.timestamp as int) + (number_field(
            block.transactions.len(),
        ) + (transactions_bytes(block.transactions) + (text_field(
            encode_utf8(block.prev_block_hash),
        ) + (number_field(block.height as nat) + (number_field(block.nonce as nat) + number_field(
            block.difficulty as nat,
        )))))),
{
    reveal(BlockView::fixed_bytes);
    reveal(BlockView::content_bytes);
    let f0 = signed_field(block.timestamp as int);
    let f1 = number_field(block.transactions.len());
    let f2 = transactions_bytes(block.transactions);
    let f3 = text_field(encode_utf8(block.prev_block_hash));
    let f4 = number_field(block.height as nat);
    let f5 = number_field(block.nonce as nat);
    let f6 = number_field(block.difficulty as nat);
    lemma_join_assoc(f0 + f1 + f2 + f3 + f4, f5, f6);
    lemma_join_assoc(f0 + f1 + f2 + f3, f4, f5 + f6);
    lemma_join_assoc(f0 + f1 + f2, f3, f4 + (f5 + f6));
    lemma_join_assoc(f0 + f1, f2, f3 + (f4 + (f5 + f6)));
    lemma_join_assoc(f0, f1, f2 + (f3 + (f4 + (f5 + f6))));
}

/// A transaction can be read off the front of any bytes in one way only.
pub proof fn lemma_transaction_head(
    a: TransactionView,
    b: TransactionView,
    after_a: Seq<u8>,
    after_b: Seq<u8>,
)
    requires
        transaction_bytes(a) + after_a == transaction_bytes(b) + after_b,
    ensures
        a == b,
        after_a == after_b,
{
    let a5 = optional_text_field(optional_utf8(a.signature)) + after_a;
    let a4 = number_field(a.timestamp as nat) + a5;
    let a3 = number_field(a.amount as nat) + a4;
    let a2 = text_field(encode_utf8(a.receiver)) + a3;
    let a1 = text_field(encode_utf8(a.sender)) + a2;
    let b5 = optional_text_field(optional_utf8(b.signature)) + after_b;
    let b4 = number_field(b.timestamp as nat) + b5;
    let b3 = number_field(b.amount as nat) + b4;
    let b2 = text_field(encode_utf8(b.receiver)) + b3;
    let b1 = text_field(encode_utf8(b.sender)) + b2;
    lemma_transaction_bytes_joined(a, after_a);
    lemma_transaction_bytes_joined(b, after_b);
    lemma_text_field_head(encode_utf8(a.id), encode_utf8(b.id), a1, b1);
    lemma_text_field_head(encode_utf8(a.sender), encode_utf8(b.sender), a2, b2);
    lemma_text_field_head(encode_utf8(a.receiver), encode_utf8(b.receiver), a3, b3);
    lemma_number_field_head(a.amount as nat, b.amount as nat, a4, b4);
    lemma_number_field_head(a.timestamp as nat, b.timestamp as nat, a5, b5);
    lemma_optional_text_field_head(
        optional_utf8(a.signature),
        optional_utf8(b.signature),
        after_a,
        after_b,
    );
    lemma_utf8_injective(a.id, b.id);
    lemma_utf8_injective(a.sender, b.sender);
    lemma_utf8_injective(a.receiver, b.receiver);
    match (a.signature, b.signature) {
        (Some(x), Some(y)) => {
            lemma_utf8_injective(x, y);
        },
        _ => {},
    }
}

/// The bytes of a list of transactions begin with those of the first.
pub proof fn lemma_transactions_bytes_first(transactions: Seq<TransactionView>)
    requires
        transactions.len() > 0,
    ensures
        transactions_bytes(transactions) == transaction_bytes(transactions.first())
            + transactions_bytes(transactions.drop_first()),
    decreases transactions.len(),
{
    let front = transactions.drop_last();
    let back = transactions.drop_first();
    if transactions.len() == 1 {
        assert(transactions_bytes(front) =~= Seq::<u8>::empty());
        assert(transactions_bytes(back) =~= Seq::<u8>::empty());
        assert(transactions_bytes(transactions) =~= transaction_bytes(transactions.first())
            + transactions_bytes(back));
    } else {
        lemma_transactions_bytes_first(front);
        assert(front.drop_first() =~= back.drop_last());
        assert(front.first() == transactions.first());
        assert(back.last() == transactions.last());
        assert(transactions_bytes(transactions) =~= transaction_bytes(transactions.first())
            + transactions_bytes(back));
    }
}

/// As many transactions as were written can be read off the front of any
/// bytes in one way only.
pub proof fn lemma_transactions_head(
    a: Seq<TransactionView>,
    b: Seq<TransactionView>,
    after_a: Seq<u8>,
    after_b: Seq<u8>,
)
    requires
        a.len() == b.len(),
        transactions_bytes(a) + after_a == transactions_bytes(b) + after_b,
    ensures
        a == b,
        after_a == after_b,
    decreases a.len(),
{
    if a.len() == 0 {
        assert(transactions_bytes(a) + after_a =~= after_a);
        assert(transactions_bytes(b) + after_b =~= after_b);
        assert(a =~= b);
    } else {
        lemma_transactions_bytes_first(a);
        lemma_transactions_bytes_first(b);
        let rest_a = transactions_bytes(a.drop_first()) + after_a;
        let rest_b = transactions_bytes(b.drop_first()) + after_b;
        assert(transactions_bytes(a) + after_a =~= transaction_bytes(a.first()) + rest_a);
        assert(transactions_bytes(b) + after_b =~= transaction_bytes(b.first()) + rest_b);
        lemma_transaction_head(a.first(), b.first(), rest_a, rest_b);
        lemma_transactions_head(a.drop_first(), b.drop_first(), after_a, after_b);
        assert(a =~= seq![a.first()] + a.drop_first());
        assert(b =~= seq![b.first()] + b.drop_first());
    }
}

/// Two blocks with the same bytes to hash differ in the stored hash at most:
/// no change to any other field leaves the bytes as they were.
pub proof fn lemma_content_bytes_injective(a: BlockView, b: BlockView)
    requires
        a.content_bytes() == b.content_bytes(),
    ensures
        a == (BlockView { hash: a.hash, ..b }),
{
    let a5 = number_field(a.difficulty as nat);
    let a4 = number_field(a.nonce as nat) + a5;
    let a3 = number_field(a.height as nat) + a4;
    let a2 = text_field(encode_utf8(a.prev_block_hash)) + a3;
    let a1 = transactions_bytes(a.transactions) + a2;
    let a0 = number_field(a.transactions.len()) + a1;
    let b5 = number_field(b.difficulty as nat);
    let b4 = number_field(b.nonce as nat) + b5;
    let b3 = number_field(b.height as nat) + b4;
    let b2 = text_field(encode_utf8(b.prev_block_hash)) + b3;
    let b1 = transactions_bytes(b.transactions) + b2;
    let b0 = number_field(b.transactions.len()) + b1;
    lemma_content_bytes_joined(a);
    lemma_content_bytes_joined(b);
    lemma_signed_field_head(a.timestamp as int, b.timestamp as int, a0, b0);
    lemma_number_field_head(a.transactions.len(), b.transactions.len(), a1, b1);
    lemma_transactions_head(a.transactions, b.transactions, a2, b2);
    lemma_text_field_head(encode_utf8(a.prev_block_hash), encode_utf8(b.prev_block_hash), a3, b3);
    lemma_utf8_injective(a.prev_block_hash, b.prev_block_hash);
    lemma_number_field_head(a.height as nat, b.height as nat, a4, b4);
    lemma_number_field_head(a.nonce as nat, b.nonce as nat, a5, b5);
    assert(a5 =~= a5 + Seq::<u8>::empty());
    assert(b5 =~= b5 + Seq::<u8>::empty());
    lemma_number_field_head(
        a.difficulty as nat,
        b.difficulty as nat,
        Seq::<u8>::empty(),
        Seq::<u8>::empty(),
    );
}

/// The stored hash is no part of what is hashed.
pub proof fn lemma_stored_hash_plays_no_part(a: BlockView, b: BlockView)
    requires
        a == (BlockView { hash: a.hash, ..b }),
    ensures
        a.content_bytes() == b.content_bytes(),
        a.expected_hash() == b.expected_hash(),
{
    reveal(BlockView::content_bytes);
    reveal(BlockView::fixed_bytes);
}

/// A block with any nonce and the hash that goes with it is sealed.
pub proof fn lemma_with_nonce_is_sealed(block: BlockView, nonce: u64)
    ensures
        block.with_nonce(nonce).sealed(),
{
    lemma_stored_hash_plays_no_part(block.with_nonce(nonce), (BlockView { nonce, ..block }));
}

/// At difficulty zero every nonce will do.
pub proof fn lemma_difficulty_zero_is_met(block: BlockView, nonce: u64)
    requires
        block.difficulty == 0,
    ensures
        block.nonce_works(nonce),
{
}

/// At a difficulty beyond the length of a hash no nonce will do.
pub proof fn lemma_difficulty_beyond_hash_is_not_met(block: BlockView, nonce: u64)
    requires
        block.difficulty > HASH_LENGTH,
    ensures
        !block.nonce_works(nonce),
{
}

/// A sealed block whose stored hash is changed, and nothing else, is sealed
/// no more.
pub proof fn lemma_changed_hash_unseals(before: BlockView, after: BlockView)
    requires
        before.sealed(),
        after.hash != before.hash,
        after == (BlockView { hash: after.hash, ..before }),
    ensures
        !after.sealed(),
{
    lemma_stored_hash_plays_no_part(after, before);
}

/// A sealed block of which any field but the stored hash is changed is
/// sealed no more, unless SHA-256 gives the changed bytes the digest of the
/// old ones.
pub proof fn lemma_changed_content_unseals(before: BlockView, after: BlockView)
    requires
        before.sealed(),
        after.hash == before.hash,
        after != before,
        no_collision(after.content_bytes(), before.content_bytes()),
    ensures
        !after.sealed(),
{
    if after.content_bytes() == before.content_bytes() {
        lemma_content_bytes_injective(after, before);
    } else if after.sealed() {
        lemma_hex_text_injective(
            sha256_digest(after.content_bytes())@,
            sha256_digest(before.content_bytes())@,
        );
        assert(sha256_digest(after.content_bytes()) == sha256_digest(before.content_bytes()));
    }
}

} // verus!

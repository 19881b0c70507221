//! Signed transfer records.

use crate::clock;
use crate::codec::decimal;
use crate::codec::push_bytes;
use crate::codec::push_decimal;
use crate::hashing::digest_text;
use crate::hashing::hash_hex;
use crate::hexcode;
use crate::hexcode::hex_text;
use crate::hexcode::hex_text_bytes;
use crate::hexcode::is_hex_text;
use crate::hexcode::lemma_hex_round_trip;
use crate::signing;
use crate::signing::address_text;
use crate::signing::to_array;
use crate::signing::ed25519_accepts;
use crate::signing::ed25519_public_key;
use crate::signing::ed25519_signature;
use vstd::prelude::*;
use vstd::utf8::*;

verus! {

/// The sender of minted money. A transaction from it needs no signature.
pub const SYSTEM_SENDER: &'static str = "SISTEM";

/// A transfer of `amount` from `sender` to `receiver`.
///
/// `sender` and `receiver` are addresses: public keys in hexadecimal, or
/// [`SYSTEM_SENDER`]. `id` is the hash of the other fields but the signature,
/// and `signature`, once made, is an Ed25519 signature in hexadecimal.
#[derive(Debug)]
pub struct Transaction {
    pub id: String,
    pub sender: String,
    pub receiver: String,
    pub amount: u64,
    pub timestamp: u64,
    pub signature: Option<String>,
}

/// Why a transaction is refused.
#[derive(Debug, Clone, Copy, PartialEq, Eq, Structural)]
pub enum ValidationError {
    /// Money is sent, and there is no signature.
    MissingSignature,
    /// The sender is no hexadecimal text of 32 bytes.
    MalformedSender,
    /// The signature is no hexadecimal text of 64 bytes.
    MalformedSignature,
    /// The sender's bytes are no key, or the key refuses the signature.
    RefusedSignature,
}

/// What a [`Transaction`] holds, as mathematical values.
pub struct TransactionView {
    pub id: Seq<char>,
    pub sender: Seq<char>,
    pub receiver: Seq<char>,
    pub amount: u64,
    pub timestamp: u64,
    pub signature: Option<Seq<char>>,
}

impl View for Transaction {
    type V = TransactionView;

    open spec fn view(&self) -> TransactionView {
        TransactionView {
            id: self.id@,
            sender: self.sender@,
            receiver: self.receiver@,
            amount: self.amount,
            timestamp: self.timestamp,
            signature: match self.signature {
                Some(s) => Some(s@),
                None => None,
            },
        }
    }
}

/// The views of a sequence of transactions, in order.
pub open spec fn transaction_views(transactions: Seq<Transaction>) -> Seq<TransactionView> {
    transactions.map_values(|tx: Transaction| tx@)
}

/// The bytes that are hashed for a transaction's identity: sender, receiver,
/// then amount and timestamp in decimal, one after the other.
pub open spec fn identity_bytes(
    sender: Seq<char>,
    receiver: Seq<char>,
    amount: u64,
    timestamp: u64,
) -> Seq<u8> {
    encode_utf8(sender) + encode_utf8(receiver) + decimal(amount as nat) + decimal(
        timestamp as nat,
    )
}

/// The identity that belongs to the given fields.
pub open spec fn identity(
    sender: Seq<char>,
    receiver: Seq<char>,
    amount: u64,
    timestamp: u64,
) -> Seq<char> {
    digest_text(identity_bytes(sender, receiver, amount, timestamp))
}

/// A transaction as it is first made: identified, not yet signed.
pub open spec fn unsigned(
    sender: Seq<char>,
    receiver: Seq<char>,
    amount: u64,
    timestamp: u64,
) -> TransactionView {
    TransactionView {
        id: identity(sender, receiver, amount, timestamp),
        sender,
        receiver,
        amount,
        timestamp,
        signature: None,
    }
}

impl TransactionView {
    /// The identity that the fields call for.
    pub open spec fn expected_id(self) -> Seq<char> {
        identity(self.sender, self.receiver, self.amount, self.timestamp)
    }

    /// Whether the stored identity is the hash of the fields.
    pub open spec fn well_formed(self) -> bool {
        self.id == self.expected_id()
    }

    /// Whether the money is minted rather than sent.
    pub open spec fn is_minted(self) -> bool {
        self.sender == SYSTEM_SENDER@
    }

    /// Whether the signature is there, sender and signature are hexadecimal
    /// of 32 and 64 bytes, and the sender's key accepts the signature for the
    /// identity that the fields call for.
    pub open spec fn signature_verifies(self) -> bool {
        &&& self.signature matches Some(signature)
        &&& is_hex_text(self.sender)
        &&& hex_text_bytes(self.sender).len() == 32
        &&& is_hex_text(signature)
        &&& hex_text_bytes(signature).len() == 64
        &&& ed25519_accepts(
            hex_text_bytes(self.sender),
            encode_utf8(self.expected_id()),
            hex_text_bytes(signature),
        )
    }

    /// Whether the transaction may enter the pool.
    pub open spec fn valid(self) -> bool {
        self.is_minted() || self.signature_verifies()
    }

    /// The first thing that is wrong with the transaction, if anything is:
    /// the checks come in the order of the variants of [`ValidationError`].
    pub open spec fn fault(self) -> Option<ValidationError> {
        if self.is_minted() {
            None
        } else if self.signature is None {
            Some(ValidationError::MissingSignature)
        } else if !is_hex_text(self.sender) || hex_text_bytes(self.sender).len() != 32 {
            Some(ValidationError::MalformedSender)
        } else if !is_hex_text(self.signature->Some_0) || hex_text_bytes(
            self.signature->Some_0,
        ).len() != 64 {
            Some(ValidationError::MalformedSignature)
        } else if !ed25519_accepts(
            hex_text_bytes(self.sender),
            encode_utf8(self.expected_id()),
            hex_text_bytes(self.signature->Some_0),
        ) {
            Some(ValidationError::RefusedSignature)
        } else {
            None
        }
    }

    /// The transaction with the signature that `secret` makes on its stored
    /// identity.
    pub open spec fn signed_by(self, secret: Seq<u8>) -> TransactionView {
        TransactionView {
            signature: Some(hex_text(ed25519_signature(secret, encode_utf8(self.id))@)),
            ..self
        }
    }
}

impl Clone for Transaction {
    fn clone(&self) -> (copy: Self)
        ensures
            copy == *self,
    {
        Transaction {
            id: self.id.clone(),
            sender: self.sender.clone(),
            receiver: self.receiver.clone(),
            amount: self.amount,
            timestamp: self.timestamp,
            signature: match &self.signature {
                Some(s) => Some(s.clone()),
                None => None,
            },
        }
    }
}

impl Transaction {
    /// A new, unsigned transaction, stamped with the time of the call.
    pub fn new(sender: String, receiver: String, amount: u64) -> (tx: Transaction)
        ensures
            tx@ == unsigned(sender@, receiver@, amount, tx.timestamp),
    {
        Transaction::with_timestamp(sender, receiver, amount, clock::unix_millis())
    }

    /// A new, unsigned transaction with the given time, in milliseconds since
    /// the Unix epoch.
    pub fn with_timestamp(sender: String, receiver: String, amount: u64, timestamp: u64) -> (tx:
        Transaction)
        ensures
            tx@ == unsigned(sender@, receiver@, amount, timestamp),
    {
        let mut tx = Transaction {
            id: String::new(),
            sender,
            receiver,
            amount,
            timestamp,
            signature: None,
        };
        tx.id = tx.calculate_hash();
        tx
    }

    /// The identity that the fields call for, whatever is stored.
    pub fn calculate_hash(&self) -> (id: String)
        ensures
            id@ == self@.expected_id(),
            id@.len() == 64,
    {
        let mut data: Vec<u8> = Vec::new();
        push_bytes(&mut data, self.sender.as_str().as_bytes());
        push_bytes(&mut data, self.receiver.as_str().as_bytes());
        push_decimal(&mut data, self.amount);
        push_decimal(&mut data, self.timestamp);
        assert(data@ == identity_bytes(
            self.sender@,
            self.receiver@,
            self.amount,
            self.timestamp,
        ));
        hash_hex(data.as_slice())
    }

    /// Signs the stored identity with `secret` and stores the signature in
    /// hexadecimal. Nothing asks that `secret` belong to the sender; where it
    /// does, and the identity is that of the fields, the transaction is valid
    /// afterwards.
    pub fn sign(&mut self, secret: &[u8; 32])
        ensures
            final(self)@ == old(self)@.signed_by(secret@),
            old(self)@.well_formed() && old(self)@.sender == address_text(secret@)
                ==> final(self)@.valid(),
    {
        let signature = signing::sign(secret, self.id.as_str().as_bytes());
        self.signature = Some(hexcode::encode(signature.as_slice()));
        proof {
            lemma_hex_round_trip(signature@);
            lemma_hex_round_trip(ed25519_public_key(secret@)@);
        }
    }

    /// Checks the transaction as the pool does, and says what is wrong with
    /// it if anything is.
    pub fn validate(&self) -> (checked: Result<(), ValidationError>)
        ensures
            checked is Ok <==> self@.valid(),
            checked matches Err(error) ==> self@.fault() == Some(error),
            checked is Ok ==> self@.fault() is None,
    {
        if self.sender == SYSTEM_SENDER.to_owned() {
            return Ok(());
        }
        let signature_text = match &self.signature {
            Some(text) => text,
            None => {
                return Err(ValidationError::MissingSignature);
            },
        };
        let public = match hexcode::decode(self.sender.as_str()) {
            Ok(bytes) => bytes,
            Err(_) => {
                return Err(ValidationError::MalformedSender);
            },
        };
        let public_key: [u8; 32] = match to_array(public.as_slice()) {
            Some(array) => array,
            None => {
                return Err(ValidationError::MalformedSender);
            },
        };
        let signature = match hexcode::decode(signature_text.as_str()) {
            Ok(bytes) => bytes,
            Err(_) => {
                return Err(ValidationError::MalformedSignature);
            },
        };
        let signature_bytes: [u8; 64] = match to_array(signature.as_slice()) {
            Some(array) => array,
            None => {
                return Err(ValidationError::MalformedSignature);
            },
        };
        let message = self.calculate_hash();
        if signing::verify(&public_key, message.as_str().as_bytes(), &signature_bytes) {
            Ok(())
        } else {
            Err(ValidationError::RefusedSignature)
        }
    }

    /// Whether the transaction may enter the pool: minted money always, any
    /// other only with a signature that its sender's key accepts.
    pub fn is_valid(&self) -> (valid: bool)
        ensures
            valid == self@.valid(),
            self@.is_minted() ==> valid,
            !self@.is_minted() && self@.signature is None ==> !valid,
    {
        self.validate().is_ok()
    }
}

/// A transaction is valid where nothing is wrong with it, and there only.
pub proof fn lemma_valid_without_fault(tx: TransactionView)
    ensures
        tx.valid() <==> tx.fault() is None,
{
}

/// Minted money is valid with any signature, and with none.
pub proof fn lemma_minted_is_valid(tx: TransactionView)
    requires
        tx.sender == SYSTEM_SENDER@,
    ensures
        tx.valid(),
{
}

/// Money that is sent is invalid without a signature, and with one that is
/// no hexadecimal text of 64 bytes.
pub proof fn lemma_sent_needs_signature(tx: TransactionView)
    requires
        tx.sender != SYSTEM_SENDER@,
        tx.signature matches Some(signature) ==> !is_hex_text(signature) || hex_text_bytes(
            signature,
        ).len() != 64,
    ensures
        !tx.valid(),
{
}

/// Money that is sent is valid only if the sender's key accepts the
/// signature for the identity that the fields call for: a signature that the
/// key refuses, whoever made it, leaves the transaction invalid.
pub proof fn lemma_sent_needs_acceptance(tx: TransactionView)
    requires
        tx.sender != SYSTEM_SENDER@,
        tx.signature matches Some(signature) && !ed25519_accepts(
            hex_text_bytes(tx.sender),
            encode_utf8(tx.expected_id()),
            hex_text_bytes(signature),
        ),
    ensures
        !tx.valid(),
{
}

} // verus!

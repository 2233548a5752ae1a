use vstd::prelude::*;
use crate::bytes::push_all;
use crate::digest::{sha256_hex, sha256_hex_of};
use crate::numfmt::{dec_digits, u64_to_dec};

verus! {

/// Every transaction pays at least this fee. Money is counted in integral
/// hundredths of a coin, so 1 stands for a fee of 0.01 coins.
pub const BASE_FEE: u64 = 1;

/// A signed transfer. `amount` and `fee` are counted in hundredths of a
/// coin; `signature` is the hex text of an ECDSA signature over the
/// transaction's canonical hash.
#[derive(Clone, Debug, PartialEq)]
pub struct Transaction {
    pub sender: Vec<u8>,
    pub recipient: Vec<u8>,
    pub amount: u64,
    pub signature: Vec<u8>,
    pub fee: u64,
}

/// The mathematical image of a transaction.
pub struct TransactionV {
    pub sender: Seq<u8>,
    pub recipient: Seq<u8>,
    pub amount: u64,
    pub signature: Seq<u8>,
    pub fee: u64,
}

impl View for Transaction {
    type V = TransactionV;

    open spec fn view(&self) -> TransactionV {
        TransactionV {
            sender: self.sender@,
            recipient: self.recipient@,
            amount: self.amount,
            signature: self.signature@,
            fee: self.fee,
        }
    }
}

/// The byte string a transaction's canonical hash digests: sender, then
/// recipient, then the decimal renderings of amount and fee.
pub open spec fn tx_message(t: TransactionV) -> Seq<u8> {
    t.sender + t.recipient + dec_digits(t.amount as nat) + dec_digits(t.fee as nat)
}

/// The canonical hash the signature covers.
pub open spec fn tx_hash_of(t: TransactionV) -> Seq<u8> {
    sha256_hex_of(tx_message(t))
}

/// Structural validity: a positive amount, a non-negative fee, and named
/// endpoints.
pub open spec fn tx_valid(t: TransactionV) -> bool {
    &&& t.amount > 0
    &&& t.fee >= 0
    &&& t.sender.len() > 0
    &&& t.recipient.len() > 0
}

/// The images of a sequence of transactions.
pub open spec fn txs_view(s: Seq<Transaction>) -> Seq<TransactionV> {
    Seq::new(s.len(), |i: int| s[i]@)
}

impl Transaction {
    /// A transfer at the base fee.
    pub fn new(sender: Vec<u8>, recipient: Vec<u8>, amount: u64, signature: Vec<u8>) -> (r:
        Transaction)
        ensures
            r@.sender == sender@,
            r@.recipient == recipient@,
            r.amount == amount,
            r@.signature == signature@,
            r.fee == BASE_FEE,
    {
        Transaction { sender, recipient, amount, signature, fee: BASE_FEE }
    }

    /// The structural check; signature verification is the ledger's business
    /// on admission, not the transaction's.
    pub fn is_valid(&self) -> (r: bool)
        ensures
            r == tx_valid(self@),
    {
        self.amount > 0 && self.sender.len() > 0 && self.recipient.len() > 0
    }

    /// The canonical hash, as 64 lowercase hex characters.
    pub fn hash(&self) -> (r: Vec<u8>)
        ensures
            r@ == tx_hash_of(self@),
            r@.len() == 64,
    {
        let mut message: Vec<u8> = Vec::new();
        push_all(&mut message, &self.sender);
        push_all(&mut message, &self.recipient);
        let amount_text = u64_to_dec(self.amount);
        push_all(&mut message, &amount_text);
        let fee_text = u64_to_dec(self.fee);
        push_all(&mut message, &fee_text);
        proof {
            assert(message@ =~= tx_message(self@));
        }
        sha256_hex(&message)
    }
}

} // verus!

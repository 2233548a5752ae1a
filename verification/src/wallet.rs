use vstd::prelude::*;
use crate::crypto::{
    ecdsa_pubkey_of, ecdsa_signature_of, ecdsa_valid_secret, ecdsa_verifies, SignatureHandler,
};
use crate::digest::{sha256_hex, sha256_hex_of};
use crate::transaction::{tx_hash_of, Transaction};

verus! {

/// A process-local signing identity. The address is the lowercase hex of
/// the SHA-256 digest of the public key's text.
pub struct Wallet {
    pub private_key: Vec<u8>,
    pub public_key: Vec<u8>,
    pub address: Vec<u8>,
}

impl Wallet {
    /// A usable signing identity: the secret key parses and the public
    /// key is the one derived from it.
    pub open spec fn wf(&self) -> bool {
        ecdsa_valid_secret(self.private_key@) && self.public_key@ == ecdsa_pubkey_of(
            self.private_key@,
        )
    }

    /// Draw a fresh keypair and derive the address from the public key.
    pub fn new() -> (r: Wallet)
        ensures
            r.wf(),
            r.address@ == sha256_hex_of(r.public_key@),
            r.address@.len() == 64,
            r.private_key@.len() == 32,
    {
        let (private_key, public_key) = SignatureHandler::generate_keys();
        let address = sha256_hex(&public_key);
        Wallet { private_key, public_key, address }
    }

    /// Write the signature over the transaction's canonical hash into the
    /// transaction; every other field stays as it was (so the canonical
    /// hash does too), and for a well-formed wallet the written signature
    /// verifies under the wallet's public key.
    pub fn sign_transaction(&self, transaction: &mut Transaction)
        ensures
            final(transaction)@.sender == old(transaction)@.sender,
            final(transaction)@.recipient == old(transaction)@.recipient,
            final(transaction).amount == old(transaction).amount,
            final(transaction).fee == old(transaction).fee,
            tx_hash_of(final(transaction)@) == tx_hash_of(old(transaction)@),
            final(transaction)@.signature == ecdsa_signature_of(
                self.private_key@,
                tx_hash_of(old(transaction)@),
            ),
            self.wf() ==> ecdsa_verifies(
                self.public_key@,
                tx_hash_of(old(transaction)@),
                final(transaction)@.signature,
            ),
    {
        let h = transaction.hash();
        transaction.signature = SignatureHandler::sign_message(&self.private_key, &h);
    }
}

} // verus!

use vstd::prelude::*;
use sha2::Digest;

verus! {

/// Whether ECDSA verification accepts `signature` (hex DER text) over the
/// SHA-256 digest of `message` under `public_key` (hex text of a compressed
/// point). Verification is a pure function of the three texts, so a name
/// is enough for the contracts.
pub uninterp spec fn ecdsa_verifies(
    public_key: Seq<u8>,
    message: Seq<u8>,
    signature: Seq<u8>,
) -> bool;

/// The ECDSA signature (hex DER text) that signing the SHA-256 digest of
/// `message` with `secret_key` (32 raw bytes) produces. Signing uses an
/// RFC 6979 nonce, so the result depends on the two arguments alone; for
/// bytes that do not form a secret key it is the empty string.
pub uninterp spec fn ecdsa_signature_of(secret_key: Seq<u8>, message: Seq<u8>) -> Seq<u8>;

/// Whether SecretKey::from_byte_array accepts these bytes as a secret
/// key: 32 bytes holding a non-zero scalar below the curve order. A pure
/// function of the bytes.
pub uninterp spec fn ecdsa_valid_secret(secret_key: Seq<u8>) -> bool;

/// The hex text of the public key that PublicKey::from_secret_key derives
/// from a secret key: a pure function of the secret bytes.
pub uninterp spec fn ecdsa_pubkey_of(secret_key: Seq<u8>) -> Seq<u8>;

pub struct SignatureHandler;

impl SignatureHandler {
    /// Relies on secp256k1::generate_keypair: a fresh random keypair, handed
    /// back as the secret key's 32 raw bytes and the public key's hex text.
    /// The drawn secret key is by construction a valid key and the public
    /// key is the one derived from it; nothing more is promised of the
    /// drawn values beyond their lengths.
    #[verifier::external_body]
    pub fn generate_keys() -> (r: (Vec<u8>, Vec<u8>))
        ensures
            r.0@.len() == 32,
            r.1@.len() == 66,
            ecdsa_valid_secret(r.0@),
            r.1@ == ecdsa_pubkey_of(r.0@),
    {
        let (sk, pk) = secp256k1::generate_keypair(&mut rand::rng());
        (sk.secret_bytes().to_vec(), pk.to_string().into_bytes())
    }

    /// Relies on secp256k1::ecdsa::sign, which signs with an RFC 6979
    /// (deterministic) nonce, and on SHA-256 of the message text; and on
    /// ECDSA's correctness, documented with secp256k1::ecdsa::verify: a
    /// signature made with a valid secret key verifies under the public
    /// key derived from it.
    #[verifier::external_body]
    pub fn sign_message(secret_key: &Vec<u8>, message: &Vec<u8>) -> (r: Vec<u8>)
        ensures
            r@ == ecdsa_signature_of(secret_key@, message@),
            ecdsa_valid_secret(secret_key@) ==> ecdsa_verifies(
                ecdsa_pubkey_of(secret_key@),
                message@,
                r@,
            ),
    {
        let digest = sha2::Sha256::digest(message.as_slice());
        let msg = match secp256k1::Message::from_digest_slice(digest.as_slice()) {
            Ok(m) => m,
            Err(_) => return Vec::new(),
        };
        let sk = <[u8; 32]>::try_from(secret_key.as_slice()).ok().and_then(
            |a| secp256k1::SecretKey::from_byte_array(a).ok(),
        );
        match sk {
            Some(k) => secp256k1::ecdsa::sign(msg, &k).to_string().into_bytes(),
            None => Vec::new(),
        }
    }

    /// Relies on secp256k1::ecdsa::verify over the SHA-256 digest of the
    /// message text; a key, digest or signature that does not parse is
    /// rejected rather than raised.
    #[verifier::external_body]
    pub fn verify_signature(public_key: &Vec<u8>, message: &Vec<u8>, signature: &Vec<u8>) -> (r:
        bool)
        ensures
            r == ecdsa_verifies(public_key@, message@, signature@),
    {
        let digest = sha2::Sha256::digest(message.as_slice());
        let msg = match secp256k1::Message::from_digest_slice(digest.as_slice()) {
            Ok(m) => m,
            Err(_) => return false,
        };
        let pk = core::str::from_utf8(public_key.as_slice()).ok().and_then(
            |t| t.parse::<secp256k1::PublicKey>().ok(),
        );
        let sig = core::str::from_utf8(signature.as_slice()).ok().and_then(
            |t| t.parse::<secp256k1::ecdsa::Signature>().ok(),
        );
        match (pk, sig) {
            (Some(p), Some(g)) => secp256k1::ecdsa::verify(&g, msg, &p).is_ok(),
            _ => false,
        }
    }
}

} // verus!

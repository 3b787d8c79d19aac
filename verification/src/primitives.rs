//! The cryptographic and encoding primitives the channel is built on.
//!
//! Everything in this module is a thin call into another crate. Verus does
//! not look into those crates: each contract below is taken on trust, and the
//! comment above each function says what is claimed of the function it calls.

use crypto::ciphers::chacha::XChaCha20Poly1305;
use crypto::ciphers::traits::Aead;
use crypto::hashes::Digest;
use crypto::hashes::blake2b::Blake2b256;
use crypto::keys::x25519;
use crypto::signatures::ed25519;
use rand::Rng;
use rand::distributions::Uniform;
use vstd::prelude::*;

verus! {
/// Length in bytes of every key, public or secret, and of a digest.
pub const KEY_LEN: usize = 32;

/// Length in bytes of an Ed25519 signature.
pub const SIGNATURE_LEN: usize = 64;

/// Length in bytes of the nonce of the cipher.
pub const NONCE_LEN: usize = 24;

/// Length in bytes of the authentication tag that sealing appends.
pub const TAG_LEN: usize = 16;

/// The BLAKE2b digest of `data`, 256 bits long.
pub uninterp spec fn blake2b_256(data: Seq<u8>) -> Seq<u8>;

/// The Ed25519 public key that belongs to a 32-byte secret key.
pub uninterp spec fn ed25519_public(secret: Seq<u8>) -> Seq<u8>;

/// The Ed25519 signature that a secret key makes on a message.
pub uninterp spec fn ed25519_signature(secret: Seq<u8>, message: Seq<u8>) -> Seq<u8>;

/// Whether Ed25519 verification accepts `signature` on `message` under `public`.
pub uninterp spec fn ed25519_accepts(public: Seq<u8>, message: Seq<u8>, signature: Seq<u8>) -> bool;

/// The X25519 public key that belongs to a 32-byte secret key.
pub uninterp spec fn x25519_public(secret: Seq<u8>) -> Seq<u8>;

/// The X25519 shared secret of a secret key and a peer's public key.
pub uninterp spec fn x25519_shared(secret: Seq<u8>, peer: Seq<u8>) -> Seq<u8>;

/// The XChaCha20-Poly1305 ciphertext of `plain`, followed by its tag.
pub uninterp spec fn xchacha_sealed(
    key: Seq<u8>,
    nonce: Seq<u8>,
    aad: Seq<u8>,
    plain: Seq<u8>,
) -> Seq<u8>;

/// What XChaCha20-Poly1305 decryption makes of a ciphertext followed by its
/// tag: the plaintext, or nothing where the tag does not authenticate.
pub uninterp spec fn xchacha_opened(
    key: Seq<u8>,
    nonce: Seq<u8>,
    aad: Seq<u8>,
    sealed: Seq<u8>,
) -> Option<Seq<u8>>;

/// `Blake2b256::digest` of the `crypto` crate: the digest is a function of
/// the data alone and is 32 bytes long.
#[verifier::external_body]
pub(crate) fn blake2b256(data: &[u8]) -> (digest: Vec<u8>)
    ensures
        digest@ == blake2b_256(data@),
        digest@.len() == KEY_LEN,
{
    Blake2b256::digest(data).to_vec()
}

/// `ed25519::SecretKey::public_key`: the public key is a function of the
/// secret key alone and is 32 bytes long.
#[verifier::external_body]
pub(crate) fn signing_public_key(secret: &[u8]) -> (public: Vec<u8>)
    requires
        secret@.len() == KEY_LEN,
    ensures
        public@ == ed25519_public(secret@),
        public@.len() == KEY_LEN,
{
    let mut bytes = [0u8; 32];
    bytes.copy_from_slice(secret);
    ed25519::SecretKey::from_bytes(&bytes).public_key().to_bytes().to_vec()
}

/// `ed25519::SecretKey::sign`: signing draws no randomness, so the signature
/// is a function of key and message; it is 64 bytes long, and verification
/// under the key's own public key accepts it.
#[verifier::external_body]
pub(crate) fn sign(secret: &[u8], message: &[u8]) -> (signature: Vec<u8>)
    requires
        secret@.len() == KEY_LEN,
    ensures
        signature@ == ed25519_signature(secret@, message@),
        signature@.len() == SIGNATURE_LEN,
        ed25519_accepts(ed25519_public(secret@), message@, signature@),
{
    let mut bytes = [0u8; 32];
    bytes.copy_from_slice(secret);
    ed25519::SecretKey::from_bytes(&bytes).sign(message).to_bytes().to_vec()
}

/// `ed25519::PublicKeyBytes::verify`: the verdict is a function of key,
/// message and signature. Bytes that are no valid public key are an error
/// there and count as a rejection here.
#[verifier::external_body]
pub(crate) fn verify(public: &[u8], message: &[u8], signature: &[u8]) -> (accepted: bool)
    requires
        public@.len() == KEY_LEN,
        signature@.len() == SIGNATURE_LEN,
    ensures
        accepted == ed25519_accepts(public@, message@, signature@),
{
    let mut key = [0u8; 32];
    key.copy_from_slice(public);
    let mut sig = [0u8; 64];
    sig.copy_from_slice(signature);
    ed25519::PublicKeyBytes::from_bytes(key)
        .verify(&ed25519::Signature::from_bytes(sig), message)
        .unwrap_or(false)
}

/// `x25519::SecretKey::public_key`: the public key is a function of the
/// secret key alone and is 32 bytes long.
#[verifier::external_body]
pub(crate) fn exchange_public_key(secret: &[u8]) -> (public: Vec<u8>)
    requires
        secret@.len() == KEY_LEN,
    ensures
        public@ == x25519_public(secret@),
        public@.len() == KEY_LEN,
{
    let mut bytes = [0u8; 32];
    bytes.copy_from_slice(secret);
    x25519::SecretKey::from_bytes(bytes).public_key().to_bytes().to_vec()
}

/// `x25519::SecretKey::diffie_hellman`: the shared secret is a function of
/// the secret key and the peer's public key and is 32 bytes long. Key
/// agreement is symmetric: the owner of the peer's secret key gets the same
/// bytes from this side's public key.
#[verifier::external_body]
pub(crate) fn agree(secret: &[u8], peer: &[u8]) -> (shared: Vec<u8>)
    requires
        secret@.len() == KEY_LEN,
        peer@.len() == KEY_LEN,
    ensures
        shared@ == x25519_shared(secret@, peer@),
        shared@.len() == KEY_LEN,
        forall|other: Seq<u8>|
            other.len() == KEY_LEN && peer@ == #[trigger] x25519_public(other) ==> shared@
                == x25519_shared(other, x25519_public(secret@)),
{
    let mut own = [0u8; 32];
    own.copy_from_slice(secret);
    let mut theirs = [0u8; 32];
    theirs.copy_from_slice(peer);
    x25519::SecretKey::from_bytes(own)
        .diffie_hellman(&x25519::PublicKey::from_bytes(theirs))
        .to_bytes()
        .to_vec()
}

/// `XChaCha20Poly1305::try_encrypt`: ciphertext and tag are a function of
/// key, nonce, associated data and plaintext; the ciphertext is as long as
/// the plaintext and the tag 16 bytes; decryption with the same key, nonce
/// and associated data gives the plaintext back.
#[verifier::external_body]
pub(crate) fn seal(key: &[u8], nonce: &[u8], aad: &[u8], plain: &[u8]) -> (sealed: Vec<u8>)
    requires
        key@.len() == KEY_LEN,
        nonce@.len() == NONCE_LEN,
        aad@.len() <= u32::MAX,
        plain@.len() <= u32::MAX,
    ensures
        sealed@ == xchacha_sealed(key@, nonce@, aad@, plain@),
        sealed@.len() == plain@.len() + TAG_LEN,
        xchacha_opened(key@, nonce@, aad@, sealed@) == Some(plain@),
{
    let mut sealed = vec![0u8; plain.len() + 16];
    let (body, tag) = sealed.split_at_mut(plain.len());
    XChaCha20Poly1305::try_encrypt(key, nonce, aad, plain, body, tag).unwrap();
    sealed
}

/// `XChaCha20Poly1305::try_decrypt`: the outcome is a function of key, nonce,
/// associated data, ciphertext and tag; an error there is no plaintext here.
#[verifier::external_body]
pub(crate) fn open(key: &[u8], nonce: &[u8], aad: &[u8], sealed: &[u8]) -> (plain: Option<Vec<u8>>)
    requires
        key@.len() == KEY_LEN,
        nonce@.len() == NONCE_LEN,
        sealed@.len() >= TAG_LEN,
    ensures
        match plain {
            Some(bytes) => xchacha_opened(key@, nonce@, aad@, sealed@) == Some(bytes@),
            None => xchacha_opened(key@, nonce@, aad@, sealed@) is None,
        },
{
    let (body, tag) = sealed.split_at(sealed.len() - 16);
    let mut plain = vec![0u8; body.len()];
    match XChaCha20Poly1305::try_decrypt(key, nonce, aad, &mut plain, body, tag) {
        Ok(_) => Some(plain),
        Err(_) => None,
    }
}

/// `Rng::sample_iter` on the thread's generator with `Uniform::new(0, bound)`:
/// `count` draws, each of them below `bound`. Which ones is left open.
#[verifier::external_body]
pub(crate) fn random_indices(bound: usize, count: usize) -> (drawn: Vec<usize>)
    requires
        bound > 0,
    ensures
        drawn@.len() == count,
        forall|i: int| 0 <= i < drawn@.len() ==> drawn@[i] < bound,
{
    rand::thread_rng().sample_iter(Uniform::new(0, bound)).take(count).collect()
}
} // verus!

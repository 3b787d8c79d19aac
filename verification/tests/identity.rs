use crypto::hashes::blake2b::Blake2b256;
use crypto::hashes::Digest;
use crypto::keys::x25519;
use crypto::signatures::ed25519;
use tangle_channels::error::Error;
use tangle_channels::identity::derive_identity;
use tangle_channels::identity::ephemeral_identity;
use tangle_channels::identity::establish_session_key;
use tangle_channels::identity::unwrap_key;
use tangle_channels::identity::wrap_key_for_recipient;

#[test]
fn the_same_seed_gives_the_same_identity() {
    let first = derive_identity("SEED");
    let second = derive_identity("SEED");
    let other = derive_identity("SEEE");
    assert_eq!(first.signing_key(), second.signing_key());
    assert_eq!(first.exchange_key(), second.exchange_key());
    assert_ne!(first.signing_key(), other.signing_key());
    assert_ne!(first.exchange_key(), other.exchange_key());
    assert_ne!(first.signing_key(), first.exchange_key());
    assert_eq!(first.signing_key().len(), 32);
    assert_eq!(first.exchange_key().len(), 32);
    let public = first.public_identity();
    assert_eq!(public.signing, first.signing_key().to_vec());
    assert_eq!(public.exchange, first.exchange_key().to_vec());
}

#[test]
fn the_keys_are_those_of_the_digests_of_the_seed() {
    let identity = derive_identity("AUTHOR9SEED");
    let mut signing_secret = [0u8; 32];
    signing_secret.copy_from_slice(&Blake2b256::digest(b"AUTHOR9SEED\x01"));
    let mut exchange_secret = [0u8; 32];
    exchange_secret.copy_from_slice(&Blake2b256::digest(b"AUTHOR9SEED\x02"));
    assert_eq!(
        identity.signing_key(),
        &ed25519::SecretKey::from_bytes(&signing_secret).public_key().to_bytes()[..]
    );
    assert_eq!(
        identity.exchange_key(),
        &x25519::SecretKey::from_bytes(exchange_secret).public_key().to_bytes()[..]
    );
}

#[test]
fn key_agreement_is_symmetric() {
    let alice = derive_identity("ALICE");
    let bob = derive_identity("BOB");
    let carol = derive_identity("CAROL");
    let ab = establish_session_key(&alice, bob.exchange_key()).unwrap();
    let ba = establish_session_key(&bob, alice.exchange_key()).unwrap();
    let ac = establish_session_key(&alice, carol.exchange_key()).unwrap();
    assert_eq!(ab, ba);
    assert_ne!(ab, ac);
    assert_eq!(ab.len(), 32);
    assert_ne!(ab, bob.exchange_key().to_vec());
}

#[test]
fn a_malformed_peer_key_is_refused() {
    let alice = derive_identity("ALICE");
    assert_eq!(establish_session_key(&alice, &[0u8; 31]).unwrap_err(), Error::AuthenticationError);
    assert_eq!(establish_session_key(&alice, &[0u8; 33]).unwrap_err(), Error::AuthenticationError);
    assert_eq!(establish_session_key(&alice, &[]).unwrap_err(), Error::AuthenticationError);
    assert_eq!(
        wrap_key_for_recipient(&alice, &[7u8; 32], &[0u8; 5], b"context").unwrap_err(),
        Error::AuthenticationError
    );
    assert_eq!(
        wrap_key_for_recipient(&alice, &[7u8; 16], &[1u8; 32], b"context").unwrap_err(),
        Error::AuthenticationError
    );
}

#[test]
fn the_recipient_unwraps_what_was_wrapped_for_it() {
    let author = derive_identity("AUTHOR");
    let recipient = derive_identity("RECIPIENT");
    let session_key = [42u8; 32];
    let wrapped =
        wrap_key_for_recipient(&author, &session_key, recipient.exchange_key(), b"keyload").unwrap();
    assert_eq!(wrapped.len(), 48);
    assert_ne!(&wrapped[..32], &session_key[..]);
    let unwrapped = unwrap_key(&wrapped, &recipient, author.exchange_key(), b"keyload").unwrap();
    assert_eq!(unwrapped, session_key.to_vec());
}

#[test]
fn nobody_else_unwraps_it_and_nowhere_else() {
    let author = derive_identity("AUTHOR");
    let recipient = derive_identity("RECIPIENT");
    let stranger = derive_identity("STRANGER");
    let wrapped =
        wrap_key_for_recipient(&author, &[42u8; 32], recipient.exchange_key(), b"keyload").unwrap();
    assert_eq!(
        unwrap_key(&wrapped, &stranger, author.exchange_key(), b"keyload").unwrap_err(),
        Error::AuthenticationError
    );
    assert_eq!(
        unwrap_key(&wrapped, &recipient, stranger.exchange_key(), b"keyload").unwrap_err(),
        Error::AuthenticationError
    );
    assert_eq!(
        unwrap_key(&wrapped, &recipient, author.exchange_key(), b"another").unwrap_err(),
        Error::AuthenticationError
    );
    let mut altered = wrapped.clone();
    altered[0] ^= 1;
    assert_eq!(
        unwrap_key(&altered, &recipient, author.exchange_key(), b"keyload").unwrap_err(),
        Error::AuthenticationError
    );
    assert_eq!(
        unwrap_key(&wrapped[..15], &recipient, author.exchange_key(), b"keyload").unwrap_err(),
        Error::AuthenticationError
    );
    assert_eq!(
        unwrap_key(&wrapped, &recipient, &[0u8; 3], b"keyload").unwrap_err(),
        Error::AuthenticationError
    );
}

#[test]
fn an_ephemeral_identity_follows_from_the_party_and_the_context() {
    let party = derive_identity("PARTY");
    let first = ephemeral_identity(&party, b"here");
    let again = ephemeral_identity(&party, b"here");
    let elsewhere = ephemeral_identity(&party, b"there");
    assert_eq!(first.exchange_key(), again.exchange_key());
    assert_ne!(first.exchange_key(), elsewhere.exchange_key());
    assert_ne!(first.exchange_key(), party.exchange_key());
}

//! Identities and the keys that parties agree on: the signing and key
//! exchange keys that a seed gives, and the wrapping of a session key for one
//! recipient.

use crate::bytes::append;
use crate::bytes::copy_of;
use crate::bytes::part_of;
use crate::error::Error;
use crate::primitives::KEY_LEN;
use crate::primitives::NONCE_LEN;
use crate::primitives::TAG_LEN;
use crate::primitives::agree;
use crate::primitives::blake2b256;
use crate::primitives::blake2b_256;
use crate::primitives::ed25519_public;
use crate::primitives::exchange_public_key;
use crate::primitives::open;
use crate::primitives::seal;
use crate::primitives::signing_public_key;
use crate::primitives::x25519_public;
use crate::primitives::x25519_shared;
use crate::primitives::xchacha_opened;
use crate::primitives::xchacha_sealed;
use vstd::prelude::*;
use vstd::string::StringSliceAdditionalSpecFns;

verus! {
/// What is mixed into a seed to get the signing key.
pub const PURPOSE_SIGNING: u8 = 1;

/// What is mixed into a seed to get the key exchange key.
pub const PURPOSE_EXCHANGE: u8 = 2;

/// The secret key that a seed gives for a purpose.
pub open spec fn secret_of(seed: Seq<u8>, purpose: u8) -> Seq<u8> {
    blake2b_256(seed.push(purpose))
}

/// The nonce under which key material is sealed in a context.
pub open spec fn nonce_of(context: Seq<u8>) -> Seq<u8> {
    blake2b_256(context).subrange(0, NONCE_LEN as int)
}

/// A session key sealed for one recipient: under the secret that sender and
/// recipient share, bound to the context it is sent in.
pub open spec fn wrapped_key(
    sender_secret: Seq<u8>,
    recipient: Seq<u8>,
    context: Seq<u8>,
    session_key: Seq<u8>,
) -> Seq<u8> {
    xchacha_sealed(
        x25519_shared(sender_secret, recipient),
        nonce_of(context),
        blake2b_256(context),
        session_key,
    )
}

/// What a recipient makes of sealed key material from a sender.
pub open spec fn unwrapped_key(
    recipient_secret: Seq<u8>,
    sender: Seq<u8>,
    context: Seq<u8>,
    ciphertext: Seq<u8>,
) -> Option<Seq<u8>> {
    if sender.len() == KEY_LEN && ciphertext.len() >= TAG_LEN {
        xchacha_opened(
            x25519_shared(recipient_secret, sender),
            nonce_of(context),
            blake2b_256(context),
            ciphertext,
        )
    } else {
        None
    }
}

/// The two public keys of a party: what it signs with and what keys are
/// agreed with.
#[derive(Debug)]
pub struct PublicIdentity {
    pub signing: Vec<u8>,
    pub exchange: Vec<u8>,
}

/// The public keys of a party as a mathematical value.
pub struct PublicIdentityView {
    pub signing: Seq<u8>,
    pub exchange: Seq<u8>,
}

impl View for PublicIdentity {
    type V = PublicIdentityView;

    open spec fn view(&self) -> PublicIdentityView {
        PublicIdentityView { signing: self.signing@, exchange: self.exchange@ }
    }
}

impl Clone for PublicIdentity {
    fn clone(&self) -> (copy: Self)
        ensures
            copy@ == self@,
    {
        PublicIdentity {
            signing: copy_of(self.signing.as_slice()),
            exchange: copy_of(self.exchange.as_slice()),
        }
    }
}

/// The key pairs of one party. The secret halves never leave the value.
pub struct Identity {
    signing_secret: Vec<u8>,
    signing_public: Vec<u8>,
    exchange_secret: Vec<u8>,
    exchange_public: Vec<u8>,
}

impl Identity {
    /// The secret signing key.
    pub closed spec fn signing_secret(&self) -> Seq<u8> {
        self.signing_secret@
    }

    /// The secret key exchange key.
    pub closed spec fn exchange_secret(&self) -> Seq<u8> {
        self.exchange_secret@
    }

    /// The two public keys.
    pub closed spec fn public(&self) -> PublicIdentityView {
        PublicIdentityView { signing: self.signing_public@, exchange: self.exchange_public@ }
    }

    /// The keys have their length, and the public keys belong to the secret ones.
    #[verifier::type_invariant]
    pub closed spec fn wf(&self) -> bool {
        &&& self.signing_secret@.len() == KEY_LEN
        &&& self.exchange_secret@.len() == KEY_LEN
        &&& self.signing_public@ == ed25519_public(self.signing_secret@)
        &&& self.exchange_public@ == x25519_public(self.exchange_secret@)
        &&& self.signing_public@.len() == KEY_LEN
        &&& self.exchange_public@.len() == KEY_LEN
    }

    /// Whether the keys are those that `seed` gives.
    pub open spec fn derived_from(&self, seed: Seq<u8>) -> bool {
        &&& self.signing_secret() == secret_of(seed, PURPOSE_SIGNING)
        &&& self.exchange_secret() == secret_of(seed, PURPOSE_EXCHANGE)
    }

    /// Whether the public keys belong to the secret keys, all of them of the
    /// length of a key.
    pub open spec fn keys_match(&self) -> bool {
        &&& self.signing_secret().len() == KEY_LEN
        &&& self.exchange_secret().len() == KEY_LEN
        &&& self.public().signing == ed25519_public(self.signing_secret())
        &&& self.public().exchange == x25519_public(self.exchange_secret())
        &&& self.public().signing.len() == KEY_LEN
        &&& self.public().exchange.len() == KEY_LEN
    }

    /// The public signing key.
    pub fn signing_key(&self) -> (key: &[u8])
        ensures
            key@ == self.public().signing,
            self.keys_match(),
    {
        proof {
            use_type_invariant(self);
        }
        self.signing_public.as_slice()
    }

    /// The public key exchange key.
    pub fn exchange_key(&self) -> (key: &[u8])
        ensures
            key@ == self.public().exchange,
            self.keys_match(),
    {
        proof {
            use_type_invariant(self);
        }
        self.exchange_public.as_slice()
    }

    /// The secret signing key, for the signing of frames.
    pub(crate) fn signing_secret_key(&self) -> (key: &[u8])
        ensures
            key@ == self.signing_secret(),
            self.keys_match(),
    {
        proof {
            use_type_invariant(self);
        }
        self.signing_secret.as_slice()
    }

    /// The secret key exchange key, for the derivation of session keys.
    pub(crate) fn exchange_secret_key(&self) -> (key: &[u8])
        ensures
            key@ == self.exchange_secret(),
            self.keys_match(),
    {
        proof {
            use_type_invariant(self);
        }
        self.exchange_secret.as_slice()
    }

    /// Both public keys.
    pub fn public_identity(&self) -> (public: PublicIdentity)
        ensures
            public@ == self.public(),
            self.keys_match(),
    {
        proof {
            use_type_invariant(self);
        }
        PublicIdentity {
            signing: copy_of(self.signing_public.as_slice()),
            exchange: copy_of(self.exchange_public.as_slice()),
        }
    }
}

/// The identity that secret material gives.
pub fn identity_of(material: &[u8]) -> (identity: Identity)
    ensures
        identity.derived_from(material@),
        identity.keys_match(),
{
    let mut mixed = copy_of(material);
    mixed.push(PURPOSE_SIGNING);
    let signing_secret = blake2b256(mixed.as_slice());
    mixed.pop();
    mixed.push(PURPOSE_EXCHANGE);
    assert(mixed@ == material@.push(PURPOSE_EXCHANGE));
    let exchange_secret = blake2b256(mixed.as_slice());
    let signing_public = signing_public_key(signing_secret.as_slice());
    let exchange_public = exchange_public_key(exchange_secret.as_slice());
    Identity { signing_secret, signing_public, exchange_secret, exchange_public }
}

/// The identity that a seed gives: the same seed always gives the same keys.
pub fn derive_identity(seed: &str) -> (identity: Identity)
    ensures
        identity.derived_from(seed.spec_bytes()),
        identity.keys_match(),
{
    identity_of(seed.as_bytes())
}

/// The secret material of the identity that a party uses once, in a context.
pub open spec fn ephemeral_material(exchange_secret: Seq<u8>, context: Seq<u8>) -> Seq<u8> {
    exchange_secret + context
}

/// The identity that a party uses once, in a context: it follows from the
/// party's secret and the context, and tells nothing of the party.
pub fn ephemeral_identity(local: &Identity, context: &[u8]) -> (identity: Identity)
    ensures
        identity.derived_from(ephemeral_material(local.exchange_secret(), context@)),
        identity.keys_match(),
{
    let mut material = copy_of(local.exchange_secret_key());
    append(&mut material, context);
    identity_of(material.as_slice())
}

/// The key that `local` shares with the owner of `peer_public_key`. The peer
/// gets the same key from its own secret and the public key of `local`. A
/// key that has not the length of a key is refused.
pub fn establish_session_key(local: &Identity, peer_public_key: &[u8]) -> (shared: Result<
    Vec<u8>,
    Error,
>)
    ensures
        local.keys_match(),
        match shared {
            Ok(key) => {
                &&& peer_public_key@.len() == KEY_LEN
                &&& key@ == x25519_shared(local.exchange_secret(), peer_public_key@)
                &&& key@.len() == KEY_LEN
                &&& forall|peer_secret: Seq<u8>|
                    peer_secret.len() == KEY_LEN && peer_public_key@ == #[trigger] x25519_public(
                        peer_secret,
                    ) ==> key@ == x25519_shared(peer_secret, local.public().exchange)
            },
            Err(error) => error == Error::AuthenticationError && peer_public_key@.len() != KEY_LEN,
        },
{
    proof {
        use_type_invariant(local);
    }
    if peer_public_key.len() != KEY_LEN {
        return Err(Error::AuthenticationError);
    }
    Ok(agree(local.exchange_secret_key(), peer_public_key))
}

/// The first bytes of the digest of `context`: the nonce for key material
/// that is sealed in that context.
fn context_nonce(digest: &[u8]) -> (nonce: Vec<u8>)
    requires
        digest@.len() == KEY_LEN,
    ensures
        nonce@ == digest@.subrange(0, NONCE_LEN as int),
        nonce@.len() == NONCE_LEN,
{
    part_of(digest, 0, NONCE_LEN)
}

/// Seals `session_key` for the owner of `recipient_public_key`, bound to
/// `context`. Whoever holds the secret key that belongs to
/// `recipient_public_key` unwraps the same session key from the result with
/// the public key of `local`. A recipient key or a session key that has not
/// the length of a key is refused.
pub fn wrap_key_for_recipient(
    local: &Identity,
    session_key: &[u8],
    recipient_public_key: &[u8],
    context: &[u8],
) -> (wrapped: Result<Vec<u8>, Error>)
    ensures
        local.keys_match(),
        match wrapped {
            Ok(ciphertext) => {
                &&& recipient_public_key@.len() == KEY_LEN
                &&& session_key@.len() == KEY_LEN
                &&& ciphertext@ == wrapped_key(
                    local.exchange_secret(),
                    recipient_public_key@,
                    context@,
                    session_key@,
                )
                &&& ciphertext@.len() == KEY_LEN + TAG_LEN
                &&& forall|recipient_secret: Seq<u8>|
                    recipient_secret.len() == KEY_LEN && recipient_public_key@
                        == #[trigger] x25519_public(recipient_secret) ==> unwrapped_key(
                        recipient_secret,
                        local.public().exchange,
                        context@,
                        ciphertext@,
                    ) == Some(session_key@)
            },
            Err(error) => {
                &&& error == Error::AuthenticationError
                &&& (recipient_public_key@.len() != KEY_LEN || session_key@.len() != KEY_LEN)
            },
        },
{
    if session_key.len() != KEY_LEN {
        proof {
            use_type_invariant(local);
        }
        return Err(Error::AuthenticationError);
    }
    match establish_session_key(local, recipient_public_key) {
        Ok(shared) => {
            let digest = blake2b256(context);
            let nonce = context_nonce(digest.as_slice());
            let ciphertext = seal(
                shared.as_slice(),
                nonce.as_slice(),
                digest.as_slice(),
                session_key,
            );
            Ok(ciphertext)
        },
        Err(error) => Err(error),
    }
}

/// Opens key material that the owner of `sender_public_key` sealed for
/// `local_identity` in `context`. Material that does not open (sealed for
/// someone else, in another context, or altered) is refused.
pub fn unwrap_key(
    ciphertext: &[u8],
    local_identity: &Identity,
    sender_public_key: &[u8],
    context: &[u8],
) -> (unwrapped: Result<Vec<u8>, Error>)
    ensures
        local_identity.keys_match(),
        match unwrapped {
            Ok(key) => unwrapped_key(
                local_identity.exchange_secret(),
                sender_public_key@,
                context@,
                ciphertext@,
            ) == Some(key@),
            Err(error) => {
                &&& error == Error::AuthenticationError
                &&& unwrapped_key(
                    local_identity.exchange_secret(),
                    sender_public_key@,
                    context@,
                    ciphertext@,
                ) is None
            },
        },
{
    if ciphertext.len() < TAG_LEN {
        proof {
            use_type_invariant(local_identity);
        }
        return Err(Error::AuthenticationError);
    }
    match establish_session_key(local_identity, sender_public_key) {
        Ok(shared) => {
            let digest = blake2b256(context);
            let nonce = context_nonce(digest.as_slice());
            match open(shared.as_slice(), nonce.as_slice(), digest.as_slice(), ciphertext) {
                Some(key) => Ok(key),
                None => Err(Error::AuthenticationError),
            }
        },
        Err(error) => Err(error),
    }
}
} // verus!

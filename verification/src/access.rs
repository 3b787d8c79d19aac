//! Access control: the sealing of masked payloads under the session key of
//! an epoch, and the keyload that hands a session key to its recipients.
//!
//! A keyload starts an epoch. Its public payload is a list of entries, one
//! for each recipient: the recipient's signing key, then the session key
//! sealed for the recipient's key exchange key. Who is not among the
//! recipients learns from a keyload only that a new epoch starts there.

use crate::bytes::append;
use crate::bytes::copy_of;
use crate::bytes::part_of;
use crate::bytes::same_bytes;
use crate::error::Error;
use crate::identity::Identity;
use crate::identity::PublicIdentity;
use crate::identity::PublicIdentityView;
use crate::identity::unwrapped_key;
use crate::identity::wrap_key_for_recipient;
use crate::identity::wrapped_key;
use crate::link::Link;
use crate::link::LinkView;
use crate::message::Header;
use crate::message::HeaderView;
use crate::message::sized;
use crate::message::view_of_bytes;
use crate::primitives::KEY_LEN;
use crate::primitives::NONCE_LEN;
use crate::primitives::TAG_LEN;
use crate::primitives::blake2b256;
use crate::primitives::blake2b_256;
use crate::primitives::open;
use crate::primitives::seal;
use crate::primitives::x25519_public;
use crate::primitives::xchacha_opened;
use crate::primitives::xchacha_sealed;
use vstd::bytes::u32_to_le_bytes;
use vstd::prelude::*;

verus! {
/// Length in bytes of a session key sealed for one recipient.
pub const WRAPPED_LEN: usize = 48;

/// Length in bytes of one entry of a keyload.
pub const ENTRY_LEN: usize = 80;

/// The key of the messages that no keyload stands in front of. Everyone who
/// knows the channel can compute it: a payload that is masked before the
/// first keyload is masked from nobody.
pub open spec fn open_key(appinst: Seq<u8>) -> Seq<u8> {
    blake2b_256(appinst)
}

/// The session key of the epoch that a keyload at `link` starts.
pub open spec fn session_key(author_secret: Seq<u8>, link: LinkView) -> Seq<u8> {
    blake2b_256(author_secret + link.bytes())
}

/// The nonce under which the masked payload of the message at `link` is sealed.
pub open spec fn mask_nonce(link: LinkView) -> Seq<u8> {
    blake2b_256(link.bytes()).subrange(0, NONCE_LEN as int)
}

/// What the sealing of a masked payload is bound to: the header and the
/// public payload of its message.
pub open spec fn mask_binding(header: HeaderView, public_payload: Seq<u8>) -> Seq<u8> {
    blake2b_256(header.bytes() + sized(public_payload))
}

/// A masked payload as it stands in a frame: sealed under the key of its epoch.
pub open spec fn masked(
    key: Seq<u8>,
    header: HeaderView,
    public_payload: Seq<u8>,
    plain: Seq<u8>,
) -> Seq<u8> {
    xchacha_sealed(key, mask_nonce(header.link), mask_binding(header, public_payload), plain)
}

/// What a holder of `key` reads from the masked payload of a frame.
pub open spec fn unmasked(
    key: Seq<u8>,
    header: HeaderView,
    public_payload: Seq<u8>,
    sealed: Seq<u8>,
) -> Option<Seq<u8>> {
    if sealed.len() >= TAG_LEN {
        xchacha_opened(key, mask_nonce(header.link), mask_binding(header, public_payload), sealed)
    } else {
        None
    }
}

/// The number of entries of a keyload's payload.
pub open spec fn entry_count(payload: Seq<u8>) -> int {
    payload.len() as int / ENTRY_LEN as int
}

/// The signing key of the recipient of an entry.
pub open spec fn entry_recipient(payload: Seq<u8>, entry: int) -> Seq<u8> {
    payload.subrange(entry * ENTRY_LEN, entry * ENTRY_LEN + KEY_LEN)
}

/// The sealed session key of an entry.
pub open spec fn entry_wrapped(payload: Seq<u8>, entry: int) -> Seq<u8> {
    payload.subrange(entry * ENTRY_LEN + KEY_LEN, entry * ENTRY_LEN + ENTRY_LEN)
}

/// The first of the first `count` entries that is for `recipient`.
pub open spec fn entry_for(payload: Seq<u8>, recipient: Seq<u8>, count: int) -> Option<int>
    decreases count,
{
    if count <= 0 {
        None
    } else {
        match entry_for(payload, recipient, count - 1) {
            Some(entry) => Some(entry),
            None => if entry_recipient(payload, count - 1) == recipient {
                Some(count - 1)
            } else {
                None
            },
        }
    }
}

/// An entry that is found among the first entries is the one found among more.
pub proof fn lemma_entry_stays(payload: Seq<u8>, recipient: Seq<u8>, count: int, more: int)
    requires
        0 <= count <= more,
        entry_for(payload, recipient, count) is Some,
    ensures
        entry_for(payload, recipient, more) == entry_for(payload, recipient, count),
    decreases more - count,
{
    if count < more {
        lemma_entry_stays(payload, recipient, count, more - 1);
    }
}

/// Where an entry names a recipient, the first entry that does is found,
/// and it names the recipient.
pub proof fn lemma_entry_found(payload: Seq<u8>, recipient: Seq<u8>, count: int, place: int)
    requires
        0 <= place < count,
        entry_recipient(payload, place) == recipient,
    ensures
        entry_for(payload, recipient, count) matches Some(entry) && 0 <= entry <= place
            && entry_recipient(payload, entry) == recipient,
    decreases count,
{
    if place < count - 1 {
        lemma_entry_found(payload, recipient, count - 1, place);
    } else {
        lemma_entry_first(payload, recipient, count - 1);
    }
}

/// The entry that is found among the first entries names the recipient and
/// stands among them.
pub proof fn lemma_entry_first(payload: Seq<u8>, recipient: Seq<u8>, count: int)
    ensures
        entry_for(payload, recipient, count) matches Some(entry) ==> 0 <= entry < count
            && entry_recipient(payload, entry) == recipient,
    decreases count,
{
    if count > 0 {
        lemma_entry_first(payload, recipient, count - 1);
    }
}

/// Whether a payload is the payload of a keyload: a whole number of entries.
pub open spec fn is_keyload_payload(payload: Seq<u8>) -> bool {
    payload.len() % ENTRY_LEN as nat == 0
}

/// What the keyload at `link` holds for a recipient: nothing where no entry
/// names the recipient, else what the recipient's entry opens to, which is
/// nothing where it was not sealed for the recipient by the author.
pub open spec fn keyload_entry_of(payload: Seq<u8>, recipient: Seq<u8>) -> Option<Seq<u8>> {
    match entry_for(payload, recipient, entry_count(payload)) {
        Some(entry) => Some(entry_wrapped(payload, entry)),
        None => None,
    }
}

/// The digest that the sealing of a masked payload is bound to.
fn binding_of(header: &Header, public_payload: &[u8]) -> (binding: Vec<u8>)
    requires
        public_payload@.len() <= u32::MAX,
    ensures
        binding@ == mask_binding(header@, public_payload@),
        binding@.len() == KEY_LEN,
{
    let mut material = header.bytes();
    let length = u32_to_le_bytes(public_payload.len() as u32);
    append(&mut material, length.as_slice());
    append(&mut material, public_payload);
    assert(material@ =~= header@.bytes() + sized(public_payload@));
    blake2b256(material.as_slice())
}

/// The nonce for the masked payload of the message that `header` stands on.
fn nonce_for(header: &Header) -> (nonce: Vec<u8>)
    ensures
        nonce@ == mask_nonce(header@.link),
        nonce@.len() == NONCE_LEN,
{
    let link = header.link.bytes();
    let digest = blake2b256(link.as_slice());
    part_of(digest.as_slice(), 0, NONCE_LEN)
}

/// Seals a masked payload for the frame of a message. Whoever holds `key`
/// reads `plain` back from the result.
pub fn mask(key: &[u8], header: &Header, public_payload: &[u8], plain: &[u8]) -> (sealed: Vec<u8>)
    requires
        key@.len() == KEY_LEN,
        public_payload@.len() <= u32::MAX,
        plain@.len() <= u32::MAX,
    ensures
        sealed@ == masked(key@, header@, public_payload@, plain@),
        sealed@.len() == plain@.len() + TAG_LEN,
        unmasked(key@, header@, public_payload@, sealed@) == Some(plain@),
{
    let binding = binding_of(header, public_payload);
    let nonce = nonce_for(header);
    seal(key, nonce.as_slice(), binding.as_slice(), plain)
}

/// Opens the masked payload of a frame with the key of its epoch. Nothing
/// comes of a payload that was sealed under another key, for another message
/// or beside another public payload, or that is too short to be sealed at all.
pub fn unmask(key: &[u8], header: &Header, public_payload: &[u8], sealed: &[u8]) -> (plain: Option<
    Vec<u8>,
>)
    requires
        key@.len() == KEY_LEN,
        public_payload@.len() <= u32::MAX,
    ensures
        view_of_bytes(plain) == unmasked(key@, header@, public_payload@, sealed@),
{
    if sealed.len() < TAG_LEN {
        return None;
    }
    let binding = binding_of(header, public_payload);
    let nonce = nonce_for(header);
    open(key, nonce.as_slice(), binding.as_slice(), sealed)
}

/// The key of the messages that no keyload stands in front of.
pub fn channel_open_key(appinst: &[u8]) -> (key: Vec<u8>)
    ensures
        key@ == open_key(appinst@),
        key@.len() == KEY_LEN,
{
    blake2b256(appinst)
}

/// The session key that an author gives to the epoch of the keyload at `link`.
pub fn derive_session_key(author: &Identity, link: &[u8]) -> (key: Vec<u8>)
    ensures
        key@ == blake2b_256(author.exchange_secret() + link@),
        key@.len() == KEY_LEN,
{
    let mut material = copy_of(author.exchange_secret_key());
    append(&mut material, link);
    blake2b256(material.as_slice())
}

/// The place of the first entry for `recipient` in the payload of a keyload.
pub fn find_entry(payload: &[u8], recipient: &[u8]) -> (place: Option<usize>)
    requires
        is_keyload_payload(payload@),
    ensures
        match place {
            Some(entry) => entry_for(payload@, recipient@, entry_count(payload@)) == Some(
                entry as int,
            ) && entry < entry_count(payload@),
            None => entry_for(payload@, recipient@, entry_count(payload@)) is None,
        },
{
    let total = payload.len();
    let count = total / ENTRY_LEN;
    let mut i: usize = 0;
    while i < count
        invariant
            i <= count,
            total == payload@.len(),
            count == entry_count(payload@),
            entry_for(payload@, recipient@, i as int) is None,
        decreases count - i,
    {
        assert(i * ENTRY_LEN + ENTRY_LEN <= total) by (nonlinear_arith)
            requires
                i < count,
                count == total / ENTRY_LEN,
        ;
        let key = part_of(payload, i * ENTRY_LEN, i * ENTRY_LEN + KEY_LEN);
        if same_bytes(key.as_slice(), recipient) {
            proof {
                lemma_entry_stays(payload@, recipient@, i + 1, count as int);
            }
            return Some(i);
        }
        i += 1;
    }
    None
}

/// The sealed session key of an entry of a keyload's payload.
pub fn read_wrapped(payload: &[u8], entry: usize) -> (wrapped: Vec<u8>)
    requires
        entry < entry_count(payload@),
    ensures
        wrapped@ == entry_wrapped(payload@, entry as int),
        wrapped@.len() == WRAPPED_LEN,
{
    let total = payload.len();
    assert(entry * ENTRY_LEN + ENTRY_LEN <= total) by (nonlinear_arith)
        requires
            entry < total / ENTRY_LEN,
    ;
    part_of(payload, entry * ENTRY_LEN + KEY_LEN, entry * ENTRY_LEN + ENTRY_LEN)
}

/// The signing key of the recipient of an entry of a keyload's payload.
pub fn read_recipient(payload: &[u8], entry: usize) -> (recipient: Vec<u8>)
    requires
        entry < entry_count(payload@),
    ensures
        recipient@ == entry_recipient(payload@, entry as int),
        recipient@.len() == KEY_LEN,
{
    let total = payload.len();
    assert(entry * ENTRY_LEN + ENTRY_LEN <= total) by (nonlinear_arith)
        requires
            entry < total / ENTRY_LEN,
    ;
    part_of(payload, entry * ENTRY_LEN, entry * ENTRY_LEN + KEY_LEN)
}

/// The entry of a keyload at `link` for one recipient.
pub open spec fn entry_of(
    author_secret: Seq<u8>,
    link: LinkView,
    recipient: PublicIdentityView,
) -> Seq<u8> {
    recipient.signing + wrapped_key(
        author_secret,
        recipient.exchange,
        link.bytes(),
        session_key(author_secret, link),
    )
}

/// The entries of a keyload at `link` for the first `count` of `recipients`.
pub open spec fn entries_of(
    author_secret: Seq<u8>,
    link: LinkView,
    recipients: Seq<PublicIdentity>,
    count: int,
) -> Seq<u8>
    decreases count,
{
    if count <= 0 {
        Seq::empty()
    } else {
        entries_of(author_secret, link, recipients, count - 1) + entry_of(
            author_secret,
            link,
            recipients[count - 1]@,
        )
    }
}

/// Whether every one of `recipients` has keys of the length of a key.
pub open spec fn recipients_wf(recipients: Seq<PublicIdentity>) -> bool {
    forall|i: int|
        0 <= i < recipients.len() ==> (#[trigger] recipients[i])@.signing.len() == KEY_LEN
            && recipients[i]@.exchange.len() == KEY_LEN
}

/// Whether `payload` hands the session key of the keyload at `link` to the
/// first `count` of `recipients`: entry by entry it names the recipient and
/// holds the session key, sealed so that the holder of the recipient's
/// secret key, and the author, open it.
pub open spec fn hands_out(
    payload: Seq<u8>,
    author: PublicIdentityView,
    author_secret: Seq<u8>,
    link: LinkView,
    recipients: Seq<PublicIdentity>,
    count: int,
) -> bool {
    &&& payload.len() == count * ENTRY_LEN
    &&& forall|i: int|
        0 <= i < count ==> {
            &&& #[trigger] entry_recipient(payload, i) == recipients[i]@.signing
            &&& entry_wrapped(payload, i) == wrapped_key(
                author_secret,
                recipients[i]@.exchange,
                link.bytes(),
                session_key(author_secret, link),
            )
        }
    &&& forall|i: int, secret: Seq<u8>|
        0 <= i < count && secret.len() == KEY_LEN && recipients[i]@.exchange
            == #[trigger] x25519_public(secret) ==> unwrapped_key(
            secret,
            author.exchange,
            link.bytes(),
            #[trigger] entry_wrapped(payload, i),
        ) == Some(session_key(author_secret, link))
}

/// The entries of a payload stay what they are when more entries follow.
pub proof fn lemma_entries_stay(payload: Seq<u8>, more: Seq<u8>, entry: int)
    requires
        0 <= entry,
        (entry + 1) * ENTRY_LEN <= payload.len(),
    ensures
        entry_recipient(payload + more, entry) == entry_recipient(payload, entry),
        entry_wrapped(payload + more, entry) == entry_wrapped(payload, entry),
{
    assert(entry * ENTRY_LEN >= 0) by (nonlinear_arith)
        requires
            entry >= 0,
    ;
}

/// The payload of the keyload at `link` that hands the session key of its
/// epoch to `recipients`, one entry for each in their order. A recipient
/// whose keys have not the length of a key is refused.
pub fn keyload_payload(author: &Identity, link: &Link, recipients: &Vec<PublicIdentity>) -> (payload:
    Result<Vec<u8>, Error>)
    ensures
        author.keys_match(),
        match payload {
            Ok(bytes) => {
                &&& recipients_wf(recipients@)
                &&& bytes@ == entries_of(
                    author.exchange_secret(),
                    link@,
                    recipients@,
                    recipients@.len() as int,
                )
                &&& hands_out(
                    bytes@,
                    author.public(),
                    author.exchange_secret(),
                    link@,
                    recipients@,
                    recipients@.len() as int,
                )
                &&& is_keyload_payload(bytes@)
                &&& entry_count(bytes@) == recipients@.len()
            },
            Err(error) => error == Error::AuthenticationError && !recipients_wf(recipients@),
        },
{
    let context = link.bytes();
    let key = derive_session_key(author, context.as_slice());
    let mut payload: Vec<u8> = Vec::new();
    let mut i: usize = 0;
    let _ = author.exchange_key();
    while i < recipients.len()
        invariant
            i <= recipients@.len(),
            author.keys_match(),
            context@ == link@.bytes(),
            key@ == session_key(author.exchange_secret(), link@),
            key@.len() == KEY_LEN,
            payload@ == entries_of(author.exchange_secret(), link@, recipients@, i as int),
            hands_out(
                payload@,
                author.public(),
                author.exchange_secret(),
                link@,
                recipients@,
                i as int,
            ),
            forall|k: int|
                0 <= k < i ==> (#[trigger] recipients@[k])@.signing.len() == KEY_LEN
                    && recipients@[k]@.exchange.len() == KEY_LEN,
        decreases recipients@.len() - i,
    {
        let recipient = &recipients[i];
        if recipient.signing.len() != KEY_LEN {
            return Err(Error::AuthenticationError);
        }
        let wrapped = match wrap_key_for_recipient(
            author,
            key.as_slice(),
            recipient.exchange.as_slice(),
            context.as_slice(),
        ) {
            Ok(wrapped) => wrapped,
            Err(error) => {
                return Err(error);
            },
        };
        let ghost before = payload@;
        append(&mut payload, recipient.signing.as_slice());
        append(&mut payload, wrapped.as_slice());
        proof {
            let entry = entry_of(author.exchange_secret(), link@, recipient@);
            let after = payload@;
            assert(entry_recipient(after, i as int) =~= recipient@.signing);
            assert(entry_wrapped(after, i as int) =~= wrapped@);
            assert forall|k: int| 0 <= k < i implies #[trigger] entry_recipient(after, k)
                == entry_recipient(before, k) && entry_wrapped(after, k) == entry_wrapped(
                before,
                k,
            ) by {
                assert((k + 1) * ENTRY_LEN <= i * ENTRY_LEN) by (nonlinear_arith)
                    requires
                        k < i,
                ;
                lemma_entries_stay(before, entry, k);
            }
            assert forall|k: int, secret: Seq<u8>|
                0 <= k < i + 1 && secret.len() == KEY_LEN && recipients@[k]@.exchange
                    == #[trigger] x25519_public(secret) implies unwrapped_key(
                secret,
                author.public().exchange,
                link@.bytes(),
                #[trigger] entry_wrapped(after, k),
            ) == Some(session_key(author.exchange_secret(), link@)) by {
                if k < i {
                    assert(entry_wrapped(after, k) == entry_wrapped(before, k));
                }
            }
        }
        i += 1;
    }
    Ok(payload)
}
} // verus!

//! What holds of every party whatever the ledger holds: the order in which
//! messages are taken in, that none is taken in twice, and who reads what.
//!
//! The statements speak of the states before and after a call of
//! `fetch_next_msgs` as its contract relates them (`PartyView::fetched`, with
//! `PartyView::followed` and `PartyView::extended`), of a single step on a
//! branch (`PartyView::steps_on`), of the state after a message was taken in
//! (`PartyView::took_in`), and of the invariant of a party's state.

use crate::access::entry_count;
use crate::access::entry_for;
use crate::access::entry_recipient;
use crate::access::lemma_entry_first;
use crate::access::lemma_entry_found;
use crate::access::session_key;
use crate::access::unmasked;
use crate::author::AuthorView;
use crate::author::Member;
use crate::author::keys_of;
use crate::author::serves;
use crate::delivery::Delivery;
use crate::delivery::DeliveryView;
use crate::delivery::content_of;
use crate::error::DecodeError;
use crate::error::Error;
use crate::identity::PublicIdentityView;
use crate::link::Link;
use crate::link::LinkView;
use crate::message::MessageType;
use crate::message::MessageView;
use crate::message::decoded;
use crate::message::encoded;
use crate::message::view_of_bytes;
use crate::primitives::KEY_LEN;
use crate::primitives::x25519_public;
use crate::state::PartyView;
use crate::state::brought_by;
use crate::state::lemma_key_among_more;
use crate::state::masked_part;
use crate::state::told;
use crate::transport::Entry;
use crate::transport::published;
use vstd::prelude::*;

verus! {
/// Parents first: every message in the journal is linked to the
/// announcement or to a message that stands before it in the journal.
pub proof fn lemma_parents_first(party: PartyView, place: int)
    requires
        party.wf(),
        party.channel is Some,
        0 <= place < party.seen.len(),
    ensures
        party.seen[place].previous@ == party.channel.unwrap().announcement.msgid || exists|
            earlier: int,
        |
            0 <= earlier < place && (#[trigger] party.seen[earlier]).msgid@
                == party.seen[place].previous@,
{
    assert(party.line_wf(place));
}

/// Parents first, of what is handed out: every message that a call of
/// `fetch_next_msgs` delivers is linked to the announcement, or to a message
/// that the same call delivers before it, or to a message that was in the
/// journal before the call, which an earlier call delivered or the party
/// published itself.
pub proof fn lemma_delivered_after_parent(
    before: PartyView,
    after: PartyView,
    deliveries: Seq<Delivery>,
    ledger: Seq<Entry>,
    place: int,
)
    requires
        after.wf(),
        after.channel is Some,
        before.extended(after, deliveries, ledger),
        0 <= place < deliveries.len(),
    ensures
        ({
            let previous = deliveries[place]@.previous_link.msgid;
            ||| previous == after.channel.unwrap().announcement.msgid
            ||| before.has_seen(previous)
            ||| exists|earlier: int|
                0 <= earlier < place && (#[trigger] deliveries[earlier])@.link.msgid == previous
        }),
{
    let start = before.seen.len() as int;
    let line = after.seen[start + place];
    assert(after.line_wf(start + place));
    match line.parent {
        Some(parent) => {
            if parent >= start {
                let earlier = parent - start;
                assert(deliveries[earlier]@.link.msgid == line.previous@);
            }
        },
        None => {},
    }
}

/// At most once, within a call: no two messages that a call of
/// `fetch_next_msgs` delivers stand at the same link.
pub proof fn lemma_delivered_once(
    before: PartyView,
    after: PartyView,
    deliveries: Seq<Delivery>,
    ledger: Seq<Entry>,
    first: int,
    second: int,
)
    requires
        after.wf(),
        after.channel is Some,
        before.extended(after, deliveries, ledger),
        0 <= first < second < deliveries.len(),
    ensures
        deliveries[first]@.link != deliveries[second]@.link,
        deliveries[first]@.link.msgid != deliveries[second]@.link.msgid,
{
}

/// At most once, against what went before: a message that a call of
/// `fetch_next_msgs` delivers was not in the journal before the call, and is
/// not the announcement.
pub proof fn lemma_delivered_is_new(
    before: PartyView,
    after: PartyView,
    deliveries: Seq<Delivery>,
    ledger: Seq<Entry>,
    place: int,
)
    requires
        after.wf(),
        after.channel is Some,
        before.extended(after, deliveries, ledger),
        0 <= place < deliveries.len(),
    ensures
        !before.has_seen(deliveries[place]@.link.msgid),
        deliveries[place]@.link.msgid != after.channel.unwrap().announcement.msgid,
{
    let start = before.seen.len() as int;
    let line = after.seen[start + place];
    assert(after.line_wf(start + place));
    if before.has_seen(line.msgid@) {
        let earlier = before.place_of(line.msgid@);
        assert(after.seen[earlier].msgid@ != after.seen[start + place].msgid@);
    }
}

/// At most once, over calls: what a later call of `fetch_next_msgs` delivers
/// is nothing that an earlier call delivered, whatever happened to the party
/// and the ledger in between, as long as the journal was kept.
pub proof fn lemma_delivered_never_again(
    first: PartyView,
    second: PartyView,
    third: PartyView,
    fourth: PartyView,
    earlier: Seq<Delivery>,
    later: Seq<Delivery>,
    ledger_then: Seq<Entry>,
    ledger_now: Seq<Entry>,
    then: int,
    now: int,
)
    requires
        fourth.wf(),
        fourth.channel is Some,
        first.extended(second, earlier, ledger_then),
        second.seen.len() <= third.seen.len(),
        forall|i: int| 0 <= i < second.seen.len() ==> #[trigger] third.seen[i] == second.seen[i],
        third.extended(fourth, later, ledger_now),
        0 <= then < earlier.len(),
        0 <= now < later.len(),
    ensures
        earlier[then]@.link.msgid != later[now]@.link.msgid,
{
    let old_place = first.seen.len() + then;
    let new_place = third.seen.len() + now;
    assert(fourth.seen[old_place].msgid@ != fourth.seen[new_place].msgid@);
}

/// The order of a branch: of two messages of one branch, the one in the
/// lower slot stands first in the journal, so the messages of a publisher
/// come in the order in which the publisher sent them.
pub proof fn lemma_branch_in_order(party: PartyView, first: int, second: int)
    requires
        party.wf(),
        party.channel is Some,
        0 <= first < second < party.seen.len(),
        party.same_branch(first, second),
    ensures
        party.seen[first].slot < party.seen[second].slot,
{
}

/// The epoch of a message is that of the latest keyload on the way from
/// the announcement to it: a keyload starts its own epoch, every other
/// message has the epoch of the message it is linked to, and a message that
/// is linked to the announcement has none.
pub proof fn lemma_epoch_follows_links(party: PartyView, place: int)
    requires
        party.wf(),
        party.channel is Some,
        0 <= place < party.seen.len(),
    ensures
        ({
            let line = party.seen[place];
            view_of_bytes(line.epoch) == if line.message_type is Keyload {
                Some(line.msgid@)
            } else {
                match line.parent {
                    Some(parent) => view_of_bytes(party.seen[parent as int].epoch),
                    None => None,
                }
            }
        }),
{
    assert(party.line_wf(place));
}

/// The boundary of an epoch, from outside: a party that does not hold the
/// key of a packet's epoch reads nothing of the packet's masked payload.
/// The public payload is not touched by that.
pub proof fn lemma_no_key_no_reading(party: PartyView, message: MessageView)
    requires
        party.channel is Some,
        party.epoch_key(party.epoch_of(message)) is None,
    ensures
        party.reading(message) is None,
{
}

/// Keys come with keyloads only: a call of `fetch_next_msgs` that does not
/// deliver the keyload of an epoch leaves it as it was whether the party
/// holds the key of that epoch. A party that was not handed the key of an
/// earlier epoch does not get it from a later keyload.
pub proof fn lemma_fetch_keeps_other_keys(
    before: PartyView,
    after: PartyView,
    deliveries: Seq<Delivery>,
    ledger: Seq<Entry>,
    epoch: Seq<u8>,
)
    requires
        before.extended(after, deliveries, ledger),
        !brought_by(deliveries, epoch),
    ensures
        after.key_of(epoch) == before.key_of(epoch),
{
    lemma_key_among_more(before.keys, after.keys, epoch);
}

/// A key that a party holds it holds for good: whatever a call of
/// `fetch_next_msgs` delivers, the key of an epoch that the party held
/// before the call is the key that it holds after it. A party that was
/// handed the key of an epoch keeps reading that epoch after later keyloads.
pub proof fn lemma_fetch_keeps_keys(
    before: PartyView,
    after: PartyView,
    deliveries: Seq<Delivery>,
    ledger: Seq<Entry>,
    epoch: Seq<u8>,
)
    requires
        before.extended(after, deliveries, ledger),
        before.key_of(epoch) is Some,
    ensures
        after.key_of(epoch) == before.key_of(epoch),
{
    lemma_key_among_more(before.keys, after.keys, epoch);
}

/// A recipient is served: where the keyload of an author serves the
/// recipients it names, a party that is among them, and whose secret key
/// exchange key belongs to the key that the author has for it, is handed the
/// session key of the keyload's epoch when it takes the keyload in.
pub proof fn lemma_recipient_is_handed_key(
    party: PartyView,
    message: MessageView,
    author: PublicIdentityView,
    author_secret: Seq<u8>,
    members: Seq<Member>,
    recipients: Seq<Vec<u8>>,
    place: int,
)
    requires
        party.channel is Some,
        party.channel.unwrap().author.exchange == author.exchange,
        party.exchange_secret.len() == KEY_LEN,
        message.header.message_type is Keyload,
        serves(
            message.public_payload,
            author,
            author_secret,
            message.header.link,
            members,
            recipients,
        ),
        0 <= place < recipients.len(),
        recipients[place]@ == party.public.signing,
        keys_of(members, party.public.signing).exchange == x25519_public(party.exchange_secret),
        session_key(author_secret, message.header.link).len() == KEY_LEN,
    ensures
        party.handed_key(message, false) == Some(session_key(author_secret, message.header.link)),
{
    let payload = message.public_payload;
    let me = party.public.signing;
    lemma_entry_found(payload, me, entry_count(payload), place);
}

/// Who holds the key reads the payload: two parties that hold the same key
/// for the epoch of a packet read the same of its masked payload. What the
/// publisher of a packet reads of it, which is the payload that it masked,
/// is what every holder of the epoch's key reads.
pub proof fn lemma_key_holders_read_the_same(
    publisher: PartyView,
    reader: PartyView,
    message: MessageView,
)
    requires
        publisher.channel is Some,
        reader.channel is Some,
        message.header.message_type.packet(),
        reader.epoch_key(reader.epoch_of(message)) == publisher.epoch_key(
            publisher.epoch_of(message),
        ),
    ensures
        reader.reading(message) == publisher.reading(message),
{
}

/// The boundary of an epoch, in what is delivered: of a packet of an epoch
/// whose key the party does not hold when the call of `fetch_next_msgs`
/// ends, the call delivers the public payload and no masked payload.
pub proof fn lemma_no_key_no_masked_payload(
    before: PartyView,
    after: PartyView,
    deliveries: Seq<Delivery>,
    ledger: Seq<Entry>,
    place: int,
)
    requires
        before.extended(after, deliveries, ledger),
        0 <= place < deliveries.len(),
        delivered_message(ledger, deliveries[place]@).header.message_type.packet(),
        after.epoch_key(view_of_bytes(after.seen[before.seen.len() + place].epoch)) is None,
    ensures
        deliveries[place]@.body == content_of(
            delivered_message(ledger, deliveries[place]@),
            None,
        ),
{
}

/// Inside an epoch, in what is delivered: of a packet of an epoch whose key
/// the party holds when the call of `fetch_next_msgs` begins, the call
/// delivers the masked payload as that key opens it.
pub proof fn lemma_key_holder_gets_masked_payload(
    before: PartyView,
    after: PartyView,
    deliveries: Seq<Delivery>,
    ledger: Seq<Entry>,
    place: int,
)
    requires
        before.extended(after, deliveries, ledger),
        0 <= place < deliveries.len(),
        delivered_message(ledger, deliveries[place]@).header.message_type.packet(),
        before.epoch_key(view_of_bytes(after.seen[before.seen.len() + place].epoch)) is Some,
    ensures
        ({
            let message = delivered_message(ledger, deliveries[place]@);
            let key = before.epoch_key(
                view_of_bytes(after.seen[before.seen.len() + place].epoch),
            ).unwrap();
            let plain = unmasked(
                key,
                message.header,
                message.public_payload,
                message.masked_payload,
            );
            plain is Some && deliveries[place]@.body == content_of(message, plain)
        }),
{
    let line = after.seen[before.seen.len() + place];
    before.lemma_epoch_key_stays(after, view_of_bytes(line.epoch));
}

/// The message that a delivery from the ledger tells of.
pub open spec fn delivered_message(ledger: Seq<Entry>, delivery: DeliveryView) -> MessageView {
    decoded(published(ledger, delivery.link).unwrap()).unwrap()
}

/// A step takes the frame that waits: what a step on a branch delivers is
/// the message of the frame that stands on the ledger where the next message
/// of the branch has to be, which is where the next message of its sender
/// has to be; it goes into the slot behind the last one that the party had
/// taken in of the sender, and is told as the party reads it when the step
/// is made.
pub proof fn lemma_step_takes_the_waiting_frame(
    before: PartyView,
    after: PartyView,
    delivery: DeliveryView,
    ledger: Seq<Entry>,
    branch: int,
)
    requires
        before.steps_on(after, delivery, ledger, branch),
    ensures
        ({
            let link = before.next_link(before.cursors[branch].publisher@);
            let message = delivered_message(ledger, delivery);
            &&& delivery.link == link
            &&& published(ledger, link) is Some
            &&& decoded(published(ledger, link).unwrap()) == Ok::<MessageView, DecodeError>(message)
            &&& message.header.link == link
            &&& link == before.next_link(message.header.sender)
            &&& Some(delivery.previous_link) == message.header.previous_link
            &&& delivery.body == content_of(message, before.reading(message))
            &&& before.took_in(after, link, message, false)
            &&& after.seen.last().slot == before.slot_of(
                before.branch_of(message.header.sender),
            ) + 1
            &&& after.wf()
        }),
{
    reveal(PartyView::steps_on);
}

/// What waits is taken: where the ledger is within reach and holds, for a
/// branch, a frame that the party neither refuses nor puts off, a call of
/// `fetch_next_msgs` that succeeds delivers something; and from a state in
/// which nothing is to be had, a call that succeeds delivers nothing and
/// changes nothing.
pub proof fn lemma_what_waits_is_taken(
    before: PartyView,
    after: PartyView,
    ledger: Seq<Entry>,
    online: bool,
    outcome: Result<Vec<Delivery>, Error>,
    branch: int,
)
    requires
        before.fetched(after, ledger, online, outcome),
        outcome is Ok,
    ensures
        before.idle(ledger) ==> outcome.unwrap()@.len() == 0 && after == before,
        0 <= branch < before.cursors.len() && before.waiting(ledger, branch) && !before.deferral(
            before.next_link(before.cursors[branch].publisher@),
            before.waiting_frame(ledger, branch),
            false,
        ) ==> outcome.unwrap()@.len() > 0,
{
    let deliveries = outcome.unwrap()@;
    if deliveries.len() == 0 {
        let states = choose|states: Seq<PartyView>|
            #[trigger] before.trail(after, deliveries, ledger, states);
        assert(states[0] == after);
    }
}

/// A keyload gives its key to whom it names, and to nobody else: when a
/// party takes in a keyload that hands it a key, it holds from then on a
/// key for the keyload's epoch, which is that key unless it held one for the
/// epoch before; when it takes in any other message, or a keyload that
/// hands it none, the keys that it holds are the keys that it held.
pub proof fn lemma_keys_come_with_keyloads(
    before: PartyView,
    after: PartyView,
    link: LinkView,
    message: MessageView,
    own: bool,
)
    requires
        before.took_in(after, link, message, own),
    ensures
        match before.handed_key(message, own) {
            Some(key) => after.key_of(link.msgid) == if before.key_of(link.msgid) is Some {
                before.key_of(link.msgid)
            } else {
                Some(key)
            },
            None => after.keys == before.keys,
        },
        forall|epoch: Seq<u8>|
            epoch != link.msgid ==> #[trigger] after.key_of(epoch) == before.key_of(epoch),
{
    match before.handed_key(message, own) {
        Some(key) => {
            assert(after.keys.drop_last() =~= before.keys);
            assert forall|epoch: Seq<u8>| epoch != link.msgid implies #[trigger] after.key_of(
                epoch,
            ) == before.key_of(epoch) by {
                lemma_key_among_more(before.keys, after.keys, epoch);
            }
        },
        None => {},
    }
}

/// A packet is read with the key of its epoch: what a step delivers of a
/// packet's masked payload is what the key that the party holds for the
/// packet's epoch opens it to, and nothing where the party holds none.
pub proof fn lemma_packet_is_read_with_the_epoch_key(
    before: PartyView,
    after: PartyView,
    delivery: DeliveryView,
    ledger: Seq<Entry>,
    branch: int,
)
    requires
        before.steps_on(after, delivery, ledger, branch),
        delivered_message(ledger, delivery).header.message_type.packet(),
    ensures
        ({
            let message = delivered_message(ledger, delivery);
            masked_part(delivery.body) == match before.epoch_key(before.epoch_of(message)) {
                Some(key) => unmasked(
                    key,
                    message.header,
                    message.public_payload,
                    message.masked_payload,
                ),
                None => None,
            }
        }),
{
    reveal(PartyView::steps_on);
}

/// Whether a reader is in step with a publisher for the publisher's next
/// message, linked to `anchor`: both are in the same channel, the reader
/// knows the publisher and has followed its branch as far as the publisher
/// has filled it, and the reader has taken in the message that `anchor`
/// names and not yet a message with the id of the next one.
pub open spec fn in_step(reader: PartyView, publisher: PartyView, anchor: LinkView) -> bool {
    let sender = publisher.public.signing;
    &&& reader.wf()
    &&& publisher.wf()
    &&& reader.channel is Some
    &&& reader.channel == publisher.channel
    &&& reader.knows(sender)
    &&& publisher.knows(sender)
    &&& reader.slot_of(reader.branch_of(sender)) == publisher.slot_of(publisher.branch_of(sender))
    &&& reader.reachable(anchor.msgid)
    &&& !reader.reachable(publisher.next_link(sender).msgid)
}

/// What is sent is taken in and read: a packet that a publisher has
/// published is, for a reader in step with the publisher, a frame that
/// waits at the next link of the publisher's branch and that the reader
/// neither refuses nor puts off; and a reader who holds for the epoch of the
/// packet the key that the publisher holds reads the masked payload that the
/// publisher gave.
pub proof fn lemma_sent_packet_is_taken(
    publisher: PartyView,
    publisher_after: PartyView,
    reader: PartyView,
    ledger_before: Seq<Entry>,
    ledger: Seq<Entry>,
    online: bool,
    message_type: MessageType,
    anchor: LinkView,
    public_payload: Seq<u8>,
    masked_payload: Seq<u8>,
    sent: Result<Link, Error>,
)
    requires
        message_type.packet(),
        sent is Ok,
        publisher.sent(
            publisher_after,
            ledger_before,
            ledger,
            online,
            message_type,
            anchor,
            public_payload,
            masked_payload,
            sent,
        ),
        in_step(reader, publisher, anchor),
        reader.epoch_key(reader.epoch_at(reader.parent_of(anchor.msgid))) == publisher.epoch_key(
            publisher.epoch_at(publisher.parent_of(anchor.msgid)),
        ),
    ensures
        ({
            let link = reader.next_link(publisher.public.signing);
            let message = publisher.drafted(
                message_type,
                anchor,
                public_payload,
                masked_payload,
            );
            &&& sent.unwrap()@ == link
            &&& published(ledger, link) == Some(message.frame())
            &&& reader.waiting(ledger, reader.branch_of(publisher.public.signing))
            &&& reader.refusal(link, message.frame(), false) is None
            &&& !reader.deferral(link, message.frame(), false)
            &&& reader.reading(message) == Some(masked_payload)
            &&& content_of(message, reader.reading(message)) == content_of(
                encoded(
                    publisher.next_header(message_type, anchor),
                    public_payload,
                    Seq::empty(),
                    None,
                ),
                Some(masked_payload),
            )
        }),
{
    let sender = publisher.public.signing;
    let link = publisher.next_link(sender);
    let message = publisher.drafted(message_type, anchor, public_payload, masked_payload);
    assert(reader.next_link(sender) == link);
    assert(publisher.content_refusal(message, true) is None);
    reader.lemma_branch(reader.branch_of(sender));
}

/// A keyload reaches whom it names: a keyload that the author has published
/// is, for a reader in step with the author, a frame that waits at the next
/// link of the author's branch and that the reader neither refuses nor puts
/// off, as long as the reader, if the keyload names it, holds the secret key
/// that belongs to the key which the membership set has for it. Such a
/// reader is handed the session key of the keyload's epoch where the keyload
/// names it, and nothing where it does not.
pub proof fn lemma_sent_keyload_is_taken(
    author: AuthorView,
    author_after: AuthorView,
    reader: PartyView,
    ledger_before: Seq<Entry>,
    ledger: Seq<Entry>,
    online: bool,
    anchor: LinkView,
    recipients: Seq<Vec<u8>>,
    sent: Result<Link, Error>,
)
    requires
        author.wf(),
        author_after.wf(),
        sent is Ok,
        author.keyload_outcome(
            author_after,
            ledger_before,
            ledger,
            online,
            anchor,
            recipients,
            sent,
        ),
        in_step(reader, author.party, anchor),
        reader.public.signing != author.party.public.signing,
        reader.exchange_secret.len() == KEY_LEN,
        named(recipients, reader.public.signing) ==> keys_of(
            author.members,
            reader.public.signing,
        ).exchange == x25519_public(reader.exchange_secret),
    ensures
        ({
            let link = reader.next_link(author.party.public.signing);
            let message = author.party.drafted(
                MessageType::Keyload,
                anchor,
                author.keyload_entries(recipients),
                Seq::empty(),
            );
            &&& sent.unwrap()@ == link
            &&& published(ledger, link) == Some(message.frame())
            &&& reader.waiting(ledger, reader.branch_of(author.party.public.signing))
            &&& reader.refusal(link, message.frame(), false) is None
            &&& !reader.deferral(link, message.frame(), false)
            &&& reader.handed_key(message, false) == if named(
                recipients,
                reader.public.signing,
            ) {
                Some(session_key(author.party.exchange_secret, link))
            } else {
                None
            }
        }),
{
    let sender = author.party.public.signing;
    let me = reader.public.signing;
    let link = author.party.next_link(sender);
    let payload = author.keyload_entries(recipients);
    let message = author.party.drafted(MessageType::Keyload, anchor, payload, Seq::empty());
    assert(reader.next_link(sender) == link);
    assert(author.party.content_refusal(message, true) is None);
    reader.lemma_branch(reader.branch_of(sender));
    assert(message.header.link == link);
    assert(message.public_payload == payload);
    if named(recipients, me) {
        let place = choose|i: int| 0 <= i < recipients.len() && (#[trigger] recipients[i])@ == me;
        assert(author_after.party.keys.last().key@.len() == KEY_LEN);
        lemma_recipient_is_handed_key(
            reader,
            message,
            author.party.public,
            author.party.exchange_secret,
            author.members,
            recipients,
            place,
        );
    } else {
        lemma_entry_first(payload, me, entry_count(payload));
        if entry_for(payload, me, entry_count(payload)) is Some {
            let entry = entry_for(payload, me, entry_count(payload)).unwrap();
            assert(entry_recipient(payload, entry) == recipients[entry]@);
        }
    }
}

/// Whether a signing key is among `recipients`.
pub open spec fn named(recipients: Seq<Vec<u8>>, signing: Seq<u8>) -> bool {
    exists|i: int| 0 <= i < recipients.len() && (#[trigger] recipients[i])@ == signing
}
} // verus!

//! Parties made ready for use, and what they take in told in lines of text.

use crate::author::Author;
use crate::author::AuthorState;
use crate::bytes::copy_of;
use crate::delivery::ContentView;
use crate::delivery::Delivery;
use crate::delivery::DeliveryView;
use crate::delivery::MessageContent;
use crate::error::Error;
use crate::link::get_hash;
use crate::link::index_of;
use crate::state::PartyView;
use crate::subscriber::Subscriber;
use crate::text::hex_encode;
use crate::text::hex_text;
use crate::text::is_seed;
use crate::text::random_seed;
use crate::text::utf8_text;
use crate::transport::Ledger;
use vstd::prelude::*;
use vstd::string::StringExecFns;
use vstd::utf8::decode_utf8;
use vstd::utf8::encode_utf8;
use vstd::utf8::encode_utf8_decode_utf8;
use vstd::utf8::valid_utf8;

verus! {
/// A subscriber with an identity of its own: the identity of a seed drawn
/// at random.
pub fn create_subscriber() -> (subscriber: Subscriber)
    ensures
        subscriber.wf(),
        subscriber.identity().keys_match(),
        subscriber@.state is Created,
        exists|seed: Seq<char>|
            is_seed(seed) && subscriber.identity().derived_from(#[trigger] encode_utf8(seed)),
{
    let seed = random_seed();
    Subscriber::new(seed.as_str())
}

/// An author with an identity of its own, the identity of a seed drawn at
/// random, for a channel with one branch or with many.
pub fn create_author(multi_branching: bool) -> (author: Author)
    ensures
        author.wf(),
        author.identity().keys_match(),
        author@.state() == AuthorState::Created,
        author@.multi_branching == multi_branching,
        author@.channel_index == 0,
        exists|seed: Seq<char>|
            is_seed(seed) && author.identity().derived_from(#[trigger] encode_utf8(seed)),
{
    let seed = random_seed();
    Author::new(seed.as_str(), multi_branching)
}

/// A payload as text: the text that it encodes, or, where it encodes none,
/// its bytes in hexadecimal behind `0x`.
pub open spec fn payload_text(payload: Seq<u8>) -> Seq<char> {
    if valid_utf8(payload) {
        decode_utf8(payload)
    } else {
        "0x"@ + hex_text(payload)
    }
}

/// A masked payload as text: the text of the payload for who reads it, and
/// a note for who does not.
pub open spec fn masked_text(payload: Option<Seq<u8>>) -> Seq<char> {
    match payload {
        Some(bytes) => payload_text(bytes),
        None => "(not accessible)"@,
    }
}

/// What is told of the content of a message.
pub open spec fn content_lines(body: ContentView) -> Seq<Seq<char>> {
    match body {
        ContentView::Announce => seq!["    Announcement"@],
        ContentView::Keyload => seq!["    Keyload"@],
        ContentView::Sequence => seq!["    Sequence"@],
        ContentView::SignedPacket { pk, public_payload, masked_payload } => seq![
            "    Public Message: "@ + payload_text(public_payload),
            "    Masked Message: "@ + masked_text(masked_payload),
        ],
        ContentView::Subscribe => seq!["    Subscription"@],
        ContentView::TaggedPacket { public_payload, masked_payload } => seq![
            "    Public Message: "@ + payload_text(public_payload),
            "    Masked Message: "@ + masked_text(masked_payload),
        ],
        ContentView::Unsubscribe => seq!["    Unsubscribtion"@],
    }
}

/// What is told of a message that was taken in: the index of its link, its
/// id, and its content.
pub open spec fn described(delivery: DeliveryView) -> Seq<Seq<char>> {
    seq![
        "Message Index: "@ + index_of(delivery.link),
        "Message ID: "@ + hex_text(delivery.link.msgid),
    ] + content_lines(delivery.body)
}

/// What is told of the first `count` of `deliveries`, one after the other.
pub open spec fn reported(deliveries: Seq<Delivery>, count: int) -> Seq<Seq<char>>
    decreases count,
{
    if count <= 0 {
        Seq::empty()
    } else {
        reported(deliveries, count - 1) + described(deliveries[count - 1]@)
    }
}

/// The lines in front of what is told of the messages.
pub open spec fn heading(tag: Seq<char>) -> Seq<Seq<char>> {
    seq![Seq::empty(), "Receiving messages for "@ + tag + "..."@]
}

/// Lines of text as mathematical values.
pub open spec fn texts(lines: Seq<String>) -> Seq<Seq<char>> {
    lines.map_values(|line: String| line@)
}

/// A payload as text.
pub fn payload_to_text(payload: &[u8]) -> (text: String)
    ensures
        text@ == payload_text(payload@),
{
    match utf8_text(copy_of(payload)) {
        Some(text) => {
            proof {
                encode_utf8_decode_utf8(text@);
            }
            text
        },
        None => {
            let mut text = "0x".to_owned();
            let digits = hex_encode(payload);
            text.append(digits.as_str());
            text
        },
    }
}

/// A line made of a label and what stands behind it.
fn labelled(label: &str, value: &str) -> (line: String)
    ensures
        line@ == label@ + value@,
{
    let mut line = label.to_owned();
    line.append(value);
    line
}

/// Adds to `lines` what is told of a packet's payloads.
fn push_payloads(lines: &mut Vec<String>, public_payload: &[u8], masked_payload: Option<&[u8]>)
    ensures
        texts(final(lines)@) == texts(old(lines)@) + seq![
            "    Public Message: "@ + payload_text(public_payload@),
            "    Masked Message: "@ + masked_text(
                match masked_payload {
                    Some(bytes) => Some(bytes@),
                    None => None,
                },
            ),
        ],
{
    let public_text = payload_to_text(public_payload);
    let masked = match masked_payload {
        Some(bytes) => payload_to_text(bytes),
        None => "(not accessible)".to_owned(),
    };
    lines.push(labelled("    Public Message: ", public_text.as_str()));
    lines.push(labelled("    Masked Message: ", masked.as_str()));
    assert(texts(lines@) =~= texts(old(lines)@) + seq![
        "    Public Message: "@ + payload_text(public_payload@),
        "    Masked Message: "@ + masked_text(
            match masked_payload {
                Some(bytes) => Some(bytes@),
                None => None,
            },
        ),
    ]);
}

/// Adds to `lines` what is told of a message that was taken in.
pub fn describe(lines: &mut Vec<String>, delivery: &Delivery)
    ensures
        texts(final(lines)@) == texts(old(lines)@) + described(delivery@),
{
    let index = get_hash(&delivery.link);
    let id = delivery.link.msgid_text();
    lines.push(labelled("Message Index: ", index.as_str()));
    lines.push(labelled("Message ID: ", id.as_str()));
    let ghost labelled_lines = texts(lines@);
    assert(labelled_lines =~= texts(old(lines)@) + seq![
        "Message Index: "@ + index_of(delivery@.link),
        "Message ID: "@ + hex_text(delivery@.link.msgid),
    ]);
    match &delivery.body {
        MessageContent::Announce => {
            lines.push("    Announcement".to_owned());
        },
        MessageContent::Keyload => {
            lines.push("    Keyload".to_owned());
        },
        MessageContent::Sequence => {
            lines.push("    Sequence".to_owned());
        },
        MessageContent::SignedPacket { pk, public_payload, masked_payload } => {
            let masked: Option<&[u8]> = match masked_payload {
                Some(bytes) => Some(bytes.0.as_slice()),
                None => None,
            };
            push_payloads(lines, public_payload.0.as_slice(), masked);
        },
        MessageContent::Subscribe => {
            lines.push("    Subscription".to_owned());
        },
        MessageContent::TaggedPacket { public_payload, masked_payload } => {
            let masked: Option<&[u8]> = match masked_payload {
                Some(bytes) => Some(bytes.0.as_slice()),
                None => None,
            };
            push_payloads(lines, public_payload.0.as_slice(), masked);
        },
        MessageContent::Unsubscribe => {
            lines.push("    Unsubscribtion".to_owned());
        },
    }
}

/// What a party took in from a ledger, and the lines that tell of it.
pub struct Reception {
    /// The lines to be shown: the heading, then what is told of the messages.
    pub lines: Vec<String>,
    /// The messages that were taken in, in the order in which they were.
    pub deliveries: Vec<Delivery>,
    /// The error that ended the fetching, if one did.
    pub stopped: Option<Error>,
}

impl Reception {
    /// Whether this is what comes of a party's taking in everything that
    /// `ledger` holds for it: the deliveries that lead step by step from the
    /// state `before` to the state `after`, with the reason why the fetching
    /// ended, and the heading for `tag` with the lines that tell of the
    /// deliveries.
    pub open spec fn of(
        self,
        before: PartyView,
        after: PartyView,
        ledger: &Ledger,
        tag: Seq<char>,
    ) -> bool {
        &&& before.fetched_all(
            after,
            ledger@,
            ledger.online(),
            self.deliveries@,
            self.stopped,
        )
        &&& texts(self.lines@) == heading(tag) + reported(
            self.deliveries@,
            self.deliveries@.len() as int,
        )
    }
}

/// The heading for `tag` and the lines that tell of `deliveries`.
fn report(tag: &str, deliveries: &Vec<Delivery>) -> (lines: Vec<String>)
    ensures
        texts(lines@) == heading(tag@) + reported(deliveries@, deliveries@.len() as int),
{
    let mut lines: Vec<String> = Vec::new();
    lines.push(String::new());
    let mut title = labelled("Receiving messages for ", tag);
    title.append("...");
    lines.push(title);
    let mut i: usize = 0;
    while i < deliveries.len()
        invariant
            i <= deliveries@.len(),
            texts(lines@) == heading(tag@) + reported(deliveries@, i as int),
        decreases deliveries@.len() - i,
    {
        describe(&mut lines, &deliveries[i]);
        i += 1;
    }
    lines
}

/// Takes in everything that the ledger holds for a subscriber, and tells of
/// it in lines under a heading that names `tag`.
pub fn receive_messages_for_subscriber(
    subscriber: &mut Subscriber,
    ledger: &Ledger,
    tag: &str,
) -> (reception: Reception)
    requires
        old(subscriber).wf(),
    ensures
        final(subscriber).wf(),
        final(subscriber).identity() == old(subscriber).identity(),
        final(subscriber)@.state == old(subscriber)@.state,
        reception.of(old(subscriber)@.party, final(subscriber)@.party, ledger, tag@),
{
    let (deliveries, stopped) = subscriber.fetch_all(ledger);
    let lines = report(tag, &deliveries);
    Reception { lines, deliveries, stopped }
}

/// Takes in everything that the ledger holds for an author, and tells of it
/// in lines under a heading that names `tag`.
pub fn receive_messages_for_author(author: &mut Author, ledger: &Ledger, tag: &str) -> (reception:
    Reception)
    requires
        old(author).wf(),
    ensures
        final(author).wf(),
        final(author).identity() == old(author).identity(),
        final(author)@.multi_branching == old(author)@.multi_branching,
        final(author)@.channel_index == old(author)@.channel_index,
        final(author)@.members == old(author)@.members,
        final(author)@.active == old(author)@.active,
        reception.of(old(author)@.party, final(author)@.party, ledger, tag@),
{
    let (deliveries, stopped) = author.fetch_all(ledger);
    let lines = report(tag, &deliveries);
    Reception { lines, deliveries, stopped }
}
} // verus!

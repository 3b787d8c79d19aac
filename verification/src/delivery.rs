//! What a party hands to its caller for a message it has taken in.

use crate::bytes::Bytes;
use crate::link::Link;
use crate::link::LinkView;
use crate::message::MessageType;
use crate::message::MessageView;
use vstd::prelude::*;

verus! {
/// The content of a message as its reader sees it. The masked payload of a
/// packet is there for a reader who holds the session key of the packet's
/// epoch, and absent for everyone else.
#[derive(Debug)]
pub enum MessageContent {
    Announce,
    Keyload,
    Sequence,
    SignedPacket { pk: Vec<u8>, public_payload: Bytes, masked_payload: Option<Bytes> },
    Subscribe,
    TaggedPacket { public_payload: Bytes, masked_payload: Option<Bytes> },
    Unsubscribe,
}

/// The content of a message as a mathematical value.
pub enum ContentView {
    Announce,
    Keyload,
    Sequence,
    SignedPacket { pk: Seq<u8>, public_payload: Seq<u8>, masked_payload: Option<Seq<u8>> },
    Subscribe,
    TaggedPacket { public_payload: Seq<u8>, masked_payload: Option<Seq<u8>> },
    Unsubscribe,
}

/// The view of a payload that may be absent.
pub open spec fn view_of_payload(payload: Option<Bytes>) -> Option<Seq<u8>> {
    match payload {
        Some(bytes) => Some(bytes@),
        None => None,
    }
}

impl View for MessageContent {
    type V = ContentView;

    open spec fn view(&self) -> ContentView {
        match self {
            MessageContent::Announce => ContentView::Announce,
            MessageContent::Keyload => ContentView::Keyload,
            MessageContent::Sequence => ContentView::Sequence,
            MessageContent::SignedPacket { pk, public_payload, masked_payload } => {
                ContentView::SignedPacket {
                    pk: pk@,
                    public_payload: public_payload@,
                    masked_payload: view_of_payload(*masked_payload),
                }
            },
            MessageContent::Subscribe => ContentView::Subscribe,
            MessageContent::TaggedPacket { public_payload, masked_payload } => {
                ContentView::TaggedPacket {
                    public_payload: public_payload@,
                    masked_payload: view_of_payload(*masked_payload),
                }
            },
            MessageContent::Unsubscribe => ContentView::Unsubscribe,
        }
    }
}

/// The content that a reader sees of a message, given what the reader makes
/// of the masked payload.
pub open spec fn content_of(message: MessageView, plain: Option<Seq<u8>>) -> ContentView {
    match message.header.message_type {
        MessageType::Announce => ContentView::Announce,
        MessageType::Subscribe => ContentView::Subscribe,
        MessageType::Unsubscribe => ContentView::Unsubscribe,
        MessageType::Keyload => ContentView::Keyload,
        MessageType::Sequence => ContentView::Sequence,
        MessageType::SignedPacket => ContentView::SignedPacket {
            pk: message.header.sender,
            public_payload: message.public_payload,
            masked_payload: plain,
        },
        MessageType::TaggedPacket => ContentView::TaggedPacket {
            public_payload: message.public_payload,
            masked_payload: plain,
        },
    }
}

/// A message that a party has taken in.
#[derive(Debug)]
pub struct Delivery {
    /// Where the message is.
    pub link: Link,
    /// The message it is linked to.
    pub previous_link: Link,
    /// What the party reads of it.
    pub body: MessageContent,
}

/// A delivery as a mathematical value.
pub struct DeliveryView {
    pub link: LinkView,
    pub previous_link: LinkView,
    pub body: ContentView,
}

impl View for Delivery {
    type V = DeliveryView;

    open spec fn view(&self) -> DeliveryView {
        DeliveryView { link: self.link@, previous_link: self.previous_link@, body: self.body@ }
    }
}
} // verus!

//! How a channel begins and how subscribers come and go: the announcement,
//! the subscription and its cancelling, as frames to write and to read.
//!
//! The announcement stands at an address that follows from the author's
//! signing key and the index of the channel alone. It carries the author's
//! key exchange key and the branching mode. A subscription stands at an
//! address that follows from the channel and the subscriber's signing key;
//! it carries a key exchange key that the subscriber uses for it once, and,
//! sealed for the author under that key, the subscriber's own key exchange key.

use crate::bytes::copy_of;
use crate::bytes::part_of;
use crate::bytes::same_bytes;
use crate::error::DecodeError;
use crate::error::Error;
use crate::identity::Identity;
use crate::identity::PURPOSE_EXCHANGE;
use crate::identity::PublicIdentity;
use crate::identity::PublicIdentityView;
use crate::identity::ephemeral_identity;
use crate::identity::ephemeral_material;
use crate::identity::secret_of;
use crate::identity::unwrap_key;
use crate::identity::unwrapped_key;
use crate::identity::wrap_key_for_recipient;
use crate::identity::wrapped_key;
use crate::link::LANE_ANNOUNCE;
use crate::link::LANE_SUBSCRIBE;
use crate::link::LANE_UNSUBSCRIBE;
use crate::link::Link;
use crate::link::LinkView;
use crate::link::appinst_of;
use crate::link::application_instance;
use crate::link::derive_link;
use crate::link::link_of;
use crate::message::Header;
use crate::message::HeaderView;
use crate::message::MessageType;
use crate::message::MessageView;
use crate::message::decode_message;
use crate::message::decoded;
use crate::message::encode_message;
use crate::message::encoded;
use crate::message::lemma_frame_parse;
use crate::party::Outgoing;
use crate::primitives::KEY_LEN;
use crate::primitives::x25519_public;
use crate::state::Channel;
use crate::state::ChannelView;
use vstd::prelude::*;

verus! {
/// Length in bytes of the payload of an announcement: the author's key
/// exchange key and a byte for the branching mode.
pub const ANNOUNCE_PAYLOAD_LEN: usize = 33;

/// The byte that stands for a branching mode.
pub open spec fn branching_byte(multi_branching: bool) -> u8 {
    if multi_branching {
        1
    } else {
        0
    }
}

/// The link of the announcement of an author's channel.
pub open spec fn announce_link(author: Seq<u8>, channel: u64) -> LinkView {
    link_of(appinst_of(author, channel), author, LANE_ANNOUNCE, 0)
}

/// The announcement of an author's channel.
pub open spec fn announce_message(
    author: PublicIdentityView,
    signing_secret: Seq<u8>,
    channel: u64,
    multi_branching: bool,
) -> MessageView {
    encoded(
        HeaderView {
            link: announce_link(author.signing, channel),
            previous_link: None,
            message_type: MessageType::Announce,
            sender: author.signing,
        },
        author.exchange.push(branching_byte(multi_branching)),
        Seq::empty(),
        Some(signing_secret),
    )
}

/// Whether a message is the root of a channel at `link`: an announcement
/// that stands where the announcement of its sender has to stand, with a
/// payload of the right form.
pub open spec fn is_channel_root(link: LinkView, message: MessageView) -> bool {
    &&& message.header.message_type is Announce
    &&& message.header.link == link
    &&& link.appinst.subrange(0, KEY_LEN as int) == message.header.sender
    &&& link == link_of(link.appinst, message.header.sender, LANE_ANNOUNCE, 0)
    &&& message.public_payload.len() == ANNOUNCE_PAYLOAD_LEN
    &&& message.public_payload[KEY_LEN as int] <= 1
    &&& message.masked_payload.len() == 0
}

/// The channel that an announcement is the root of.
pub open spec fn channel_of(link: LinkView, message: MessageView) -> ChannelView {
    ChannelView {
        announcement: link,
        author: PublicIdentityView {
            signing: message.header.sender,
            exchange: message.public_payload.subrange(0, KEY_LEN as int),
        },
        multi_branching: message.public_payload[KEY_LEN as int] == 1,
    }
}

/// The channel whose announcement stands in `frame` at `link`, if the frame
/// is an announcement that is valid there.
pub open spec fn announced(link: LinkView, frame: Seq<u8>) -> Option<ChannelView> {
    match decoded(frame) {
        Ok(message) => if is_channel_root(link, message) {
            Some(channel_of(link, message))
        } else {
            None
        },
        Err(_) => None,
    }
}

/// The announcement of the channel with index `channel` of an author, ready
/// to be published. It reads back as the channel of that author.
pub fn announcement(author: &Identity, channel: u64, multi_branching: bool) -> (outgoing: Outgoing)
    ensures
        outgoing.link@ == announce_link(author.public().signing, channel),
        outgoing.link.wf(),
        outgoing.frame@ == announce_message(
            author.public(),
            author.signing_secret(),
            channel,
            multi_branching,
        ).frame(),
        announced(outgoing.link@, outgoing.frame@) == Some(
            ChannelView {
                announcement: outgoing.link@,
                author: author.public(),
                multi_branching,
            },
        ),
{
    let appinst = application_instance(author.signing_key(), channel);
    let link = derive_link(appinst.as_slice(), author.signing_key(), LANE_ANNOUNCE, 0);
    let header = Header {
        link: link.clone(),
        previous_link: None,
        message_type: MessageType::Announce,
        sender: copy_of(author.signing_key()),
    };
    let mut payload = copy_of(author.exchange_key());
    payload.push(if multi_branching {
        1u8
    } else {
        0u8
    });
    assert(appinst@.subrange(0, KEY_LEN as int) == author.public().signing);
    match encode_message(&header, payload.as_slice(), None, Some(author)) {
        Ok(frame) => {
            proof {
                let message = decoded(frame@).unwrap();
                assert(message.public_payload.subrange(0, KEY_LEN as int)
                    == author.public().exchange);
            }
            Outgoing { link, frame }
        },
        Err(_) => {
            proof {
                assert(false);
            }
            Outgoing { link, frame: Vec::new() }
        },
    }
}

/// Reads the announcement that was found at a link. Whatever is not a valid
/// announcement there is refused: a frame that does not decode or whose
/// signature fails, a message of another type, one that stands at another
/// link than the one its sender's announcement has to stand at, one whose
/// payload has not the form of an announcement's.
pub fn read_announcement(link: &Link, frame: &[u8]) -> (channel: Result<Channel, Error>)
    ensures
        match channel {
            Ok(c) => announced(link@, frame@) == Some(c@) && c@.wf(),
            Err(error) => error == Error::InvalidAnnouncement && announced(link@, frame@) is None,
        },
{
    let message = match decode_message(frame) {
        Ok(message) => message,
        Err(_) => {
            return Err(Error::InvalidAnnouncement);
        },
    };
    proof {
        lemma_frame_parse(frame@);
    }
    if !matches!(message.header.message_type, MessageType::Announce) || !message.header.link.same(
        link,
    ) {
        return Err(Error::InvalidAnnouncement);
    }
    let owner = part_of(link.appinst.as_slice(), 0, KEY_LEN);
    let expected = derive_link(
        link.appinst.as_slice(),
        message.header.sender.as_slice(),
        LANE_ANNOUNCE,
        0,
    );
    if !same_bytes(owner.as_slice(), message.header.sender.as_slice()) || !expected.same(link)
        || message.public_payload.len() != ANNOUNCE_PAYLOAD_LEN || message.public_payload[KEY_LEN]
        > 1 || message.masked_payload.len() != 0 {
        return Err(Error::InvalidAnnouncement);
    }
    Ok(
        Channel {
            announcement: link.clone(),
            author: PublicIdentity {
                signing: copy_of(message.header.sender.as_slice()),
                exchange: part_of(message.public_payload.as_slice(), 0, KEY_LEN),
            },
            multi_branching: message.public_payload[KEY_LEN] == 1,
        },
    )
}

/// The link of a subscriber's subscription to a channel.
pub open spec fn subscribe_link(appinst: Seq<u8>, subscriber: Seq<u8>) -> LinkView {
    link_of(appinst, subscriber, LANE_SUBSCRIBE, 0)
}

/// The link at which a subscriber cancels its subscription to a channel.
pub open spec fn unsubscribe_link(appinst: Seq<u8>, subscriber: Seq<u8>) -> LinkView {
    link_of(appinst, subscriber, LANE_UNSUBSCRIBE, 0)
}

/// The secret key exchange key that a subscriber uses once, for its
/// subscription at `link`.
pub open spec fn subscription_secret(exchange_secret: Seq<u8>, link: LinkView) -> Seq<u8> {
    secret_of(ephemeral_material(exchange_secret, link.bytes()), PURPOSE_EXCHANGE)
}

/// The subscription of a subscriber to a channel.
pub open spec fn subscribe_message(
    subscriber: PublicIdentityView,
    signing_secret: Seq<u8>,
    exchange_secret: Seq<u8>,
    channel: ChannelView,
) -> MessageView {
    let link = subscribe_link(channel.announcement.appinst, subscriber.signing);
    let once = subscription_secret(exchange_secret, link);
    encoded(
        HeaderView {
            link,
            previous_link: Some(channel.announcement),
            message_type: MessageType::Subscribe,
            sender: subscriber.signing,
        },
        x25519_public(once),
        wrapped_key(once, channel.author.exchange, link.bytes(), subscriber.exchange),
        Some(signing_secret),
    )
}

/// The cancelling of a subscriber's subscription to a channel.
pub open spec fn unsubscribe_message(
    subscriber: PublicIdentityView,
    signing_secret: Seq<u8>,
    channel: ChannelView,
) -> MessageView {
    encoded(
        HeaderView {
            link: unsubscribe_link(channel.announcement.appinst, subscriber.signing),
            previous_link: Some(channel.announcement),
            message_type: MessageType::Unsubscribe,
            sender: subscriber.signing,
        },
        Seq::empty(),
        Seq::empty(),
        Some(signing_secret),
    )
}

/// Whether a message is properly linked into a channel as the coming or
/// going of its sender: it is of the given type, stands where the sender's
/// message of that type has to stand, and is linked to the announcement.
pub open spec fn is_linked_to_root(
    channel: ChannelView,
    link: LinkView,
    message: MessageView,
    message_type: MessageType,
    lane: u8,
) -> bool {
    &&& message.header.message_type == message_type
    &&& message.header.link == link
    &&& message.header.previous_link == Some(channel.announcement)
    &&& link == link_of(channel.announcement.appinst, message.header.sender, lane, 0)
}

/// What the author makes of the key material of a subscription.
pub open spec fn subscription_key(
    author_secret: Seq<u8>,
    link: LinkView,
    message: MessageView,
) -> Option<Seq<u8>> {
    let opened = unwrapped_key(
        author_secret,
        message.public_payload,
        link.bytes(),
        message.masked_payload,
    );
    if opened matches Some(key) && key.len() == KEY_LEN {
        opened
    } else {
        None
    }
}

/// Why the author of a channel refuses the frame found at a link as a
/// subscription, if it does.
pub open spec fn subscription_refusal(
    author_secret: Seq<u8>,
    channel: ChannelView,
    link: LinkView,
    frame: Seq<u8>,
) -> Option<Error> {
    match decoded(frame) {
        Err(DecodeError::MalformedMessage) => Some(Error::MalformedMessage),
        Err(DecodeError::SignatureInvalid) => Some(Error::MembershipError),
        Ok(message) => if !is_linked_to_root(
            channel,
            link,
            message,
            MessageType::Subscribe,
            LANE_SUBSCRIBE,
        ) {
            Some(Error::MembershipError)
        } else if subscription_key(author_secret, link, message) is None {
            Some(Error::AuthenticationError)
        } else {
            None
        },
    }
}

/// The subscriber that a subscription tells of.
pub open spec fn subscriber_of(
    author_secret: Seq<u8>,
    link: LinkView,
    frame: Seq<u8>,
) -> PublicIdentityView {
    let message = decoded(frame).unwrap();
    PublicIdentityView {
        signing: message.header.sender,
        exchange: subscription_key(author_secret, link, message).unwrap(),
    }
}

/// The subscription of `subscriber` to a channel, ready to be published.
/// The author of the channel, and nobody else, reads the subscriber's key
/// exchange key from it.
pub fn subscription(subscriber: &Identity, channel: &Channel) -> (outgoing: Outgoing)
    requires
        channel@.wf(),
    ensures
        outgoing.link@ == subscribe_link(channel@.announcement.appinst, subscriber.public().signing),
        outgoing.link.wf(),
        outgoing.frame@ == subscribe_message(
            subscriber.public(),
            subscriber.signing_secret(),
            subscriber.exchange_secret(),
            channel@,
        ).frame(),
        forall|author_secret: Seq<u8>|
            author_secret.len() == KEY_LEN && channel@.author.exchange == #[trigger] x25519_public(
                author_secret,
            ) ==> {
                &&& subscription_refusal(author_secret, channel@, outgoing.link@, outgoing.frame@)
                    is None
                &&& subscriber_of(author_secret, outgoing.link@, outgoing.frame@)
                    == subscriber.public()
            },
{
    let link = derive_link(
        channel.announcement.appinst.as_slice(),
        subscriber.signing_key(),
        LANE_SUBSCRIBE,
        0,
    );
    let header = Header {
        link: link.clone(),
        previous_link: Some(channel.announcement.clone()),
        message_type: MessageType::Subscribe,
        sender: copy_of(subscriber.signing_key()),
    };
    let context = link.bytes();
    let once = ephemeral_identity(subscriber, context.as_slice());
    let wrapped = match wrap_key_for_recipient(
        &once,
        subscriber.exchange_key(),
        channel.author.exchange.as_slice(),
        context.as_slice(),
    ) {
        Ok(wrapped) => wrapped,
        Err(_) => {
            proof {
                assert(false);
            }
            Vec::new()
        },
    };
    match encode_message(&header, once.exchange_key(), Some(wrapped.as_slice()), Some(subscriber)) {
        Ok(frame) => Outgoing { link, frame },
        Err(_) => {
            proof {
                assert(false);
            }
            Outgoing { link, frame: Vec::new() }
        },
    }
}

/// Reads the subscription that was found at a link, for the author of a
/// channel, and gives the keys of the subscriber.
///
/// A frame that does not decode is malformed. A subscription whose signature
/// fails, or that is not properly linked to the announcement of the channel,
/// is refused for the sake of membership. One whose key material does not
/// open for the author is refused as unauthentic.
pub fn read_subscription(
    author: &Identity,
    channel: &Channel,
    link: &Link,
    frame: &[u8],
) -> (subscriber: Result<PublicIdentity, Error>)
    ensures
        match subscriber {
            Ok(keys) => {
                &&& subscription_refusal(author.exchange_secret(), channel@, link@, frame@) is None
                &&& keys@ == subscriber_of(author.exchange_secret(), link@, frame@)
                &&& keys@.signing.len() == KEY_LEN
                &&& keys@.exchange.len() == KEY_LEN
            },
            Err(error) => subscription_refusal(author.exchange_secret(), channel@, link@, frame@)
                == Some(error),
        },
{
    let message = match decode_message(frame) {
        Ok(message) => message,
        Err(DecodeError::MalformedMessage) => {
            return Err(Error::MalformedMessage);
        },
        Err(DecodeError::SignatureInvalid) => {
            return Err(Error::MembershipError);
        },
    };
    proof {
        lemma_frame_parse(frame@);
    }
    let expected = derive_link(
        channel.announcement.appinst.as_slice(),
        message.header.sender.as_slice(),
        LANE_SUBSCRIBE,
        0,
    );
    let linked = match &message.header.previous_link {
        Some(previous) => previous.same(&channel.announcement),
        None => false,
    };
    if !matches!(message.header.message_type, MessageType::Subscribe) || !message.header.link.same(
        link,
    ) || !linked || !expected.same(link) {
        return Err(Error::MembershipError);
    }
    let context = link.bytes();
    match unwrap_key(
        message.masked_payload.as_slice(),
        author,
        message.public_payload.as_slice(),
        context.as_slice(),
    ) {
        Ok(exchange) => {
            if exchange.len() != KEY_LEN {
                return Err(Error::AuthenticationError);
            }
            Ok(PublicIdentity { signing: copy_of(message.header.sender.as_slice()), exchange })
        },
        Err(_) => Err(Error::AuthenticationError),
    }
}

/// The cancelling of the subscription of `subscriber` to a channel, ready to
/// be published.
pub fn unsubscription(subscriber: &Identity, channel: &Channel) -> (outgoing: Outgoing)
    requires
        channel@.wf(),
    ensures
        outgoing.link@ == unsubscribe_link(
            channel@.announcement.appinst,
            subscriber.public().signing,
        ),
        outgoing.link.wf(),
        outgoing.frame@ == unsubscribe_message(
            subscriber.public(),
            subscriber.signing_secret(),
            channel@,
        ).frame(),
        unsubscribed(channel@, outgoing.link@, outgoing.frame@) == Some(subscriber.public().signing),
{
    let link = derive_link(
        channel.announcement.appinst.as_slice(),
        subscriber.signing_key(),
        LANE_UNSUBSCRIBE,
        0,
    );
    let header = Header {
        link: link.clone(),
        previous_link: Some(channel.announcement.clone()),
        message_type: MessageType::Unsubscribe,
        sender: copy_of(subscriber.signing_key()),
    };
    let empty: Vec<u8> = Vec::new();
    match encode_message(&header, empty.as_slice(), None, Some(subscriber)) {
        Ok(frame) => Outgoing { link, frame },
        Err(_) => {
            proof {
                assert(false);
            }
            Outgoing { link, frame: Vec::new() }
        },
    }
}

/// The signing key of the subscriber who cancels its subscription to a
/// channel with the frame found at a link, if the frame does that.
pub open spec fn unsubscribed(channel: ChannelView, link: LinkView, frame: Seq<u8>) -> Option<
    Seq<u8>,
> {
    match decoded(frame) {
        Ok(message) => if is_linked_to_root(
            channel,
            link,
            message,
            MessageType::Unsubscribe,
            LANE_UNSUBSCRIBE,
        ) {
            Some(message.header.sender)
        } else {
            None
        },
        Err(_) => None,
    }
}

/// Reads the frame found at a link as the cancelling of a subscription to a
/// channel, and gives the signing key of the subscriber who leaves. A frame
/// that does not decode is malformed; anything else that does not cancel a
/// subscription is refused for the sake of membership.
pub fn read_unsubscription(channel: &Channel, link: &Link, frame: &[u8]) -> (subscriber: Result<
    Vec<u8>,
    Error,
>)
    ensures
        match subscriber {
            Ok(key) => unsubscribed(channel@, link@, frame@) == Some(key@) && key@.len()
                == KEY_LEN,
            Err(error) => {
                &&& unsubscribed(channel@, link@, frame@) is None
                &&& error == if decoded(frame@) == Err::<MessageView, DecodeError>(
                    DecodeError::MalformedMessage,
                ) {
                    Error::MalformedMessage
                } else {
                    Error::MembershipError
                }
            },
        },
{
    let message = match decode_message(frame) {
        Ok(message) => message,
        Err(DecodeError::MalformedMessage) => {
            return Err(Error::MalformedMessage);
        },
        Err(DecodeError::SignatureInvalid) => {
            return Err(Error::MembershipError);
        },
    };
    proof {
        lemma_frame_parse(frame@);
    }
    let expected = derive_link(
        channel.announcement.appinst.as_slice(),
        message.header.sender.as_slice(),
        LANE_UNSUBSCRIBE,
        0,
    );
    let linked = match &message.header.previous_link {
        Some(previous) => previous.same(&channel.announcement),
        None => false,
    };
    if !matches!(message.header.message_type, MessageType::Unsubscribe)
        || !message.header.link.same(link) || !linked || !expected.same(link) {
        return Err(Error::MembershipError);
    }
    Ok(copy_of(message.header.sender.as_slice()))
}
} // verus!

use tangle_channels::author::Author;
use tangle_channels::author::AuthorState;
use tangle_channels::author::MemberState;
use tangle_channels::error::Error;
use tangle_channels::handshake::announcement;
use tangle_channels::handshake::read_announcement;
use tangle_channels::handshake::read_subscription;
use tangle_channels::handshake::read_unsubscription;
use tangle_channels::handshake::subscription;
use tangle_channels::handshake::unsubscription;
use tangle_channels::identity::derive_identity;
use tangle_channels::link::Link;
use tangle_channels::message::decode_message;
use tangle_channels::message::MessageType;
use tangle_channels::subscriber::Subscriber;
use tangle_channels::subscriber::SubscriberState;
use tangle_channels::transport::Ledger;

#[test]
fn an_announcement_reads_back_as_the_channel() {
    let author = derive_identity("AUTHOR");
    for (index, multi_branching) in [(0u64, false), (7u64, true)] {
        let outgoing = announcement(&author, index, multi_branching);
        assert_eq!(outgoing.link.appinst.len(), 40);
        assert_eq!(&outgoing.link.appinst[..32], author.signing_key());
        assert_eq!(&outgoing.link.appinst[32..], &index.to_le_bytes());
        assert_eq!(outgoing.link.msgid.len(), 12);
        let message = decode_message(&outgoing.frame).unwrap();
        assert_eq!(message.header.message_type, MessageType::Announce);
        assert!(message.header.previous_link.is_none());
        assert_eq!(message.public_payload.len(), 33);
        let channel = read_announcement(&outgoing.link, &outgoing.frame).unwrap();
        assert_eq!(channel.announcement.msgid, outgoing.link.msgid);
        assert_eq!(channel.author.signing, author.signing_key().to_vec());
        assert_eq!(channel.author.exchange, author.exchange_key().to_vec());
        assert_eq!(channel.multi_branching, multi_branching);
    }
}

#[test]
fn what_is_no_announcement_is_refused() {
    let author = derive_identity("AUTHOR");
    let outgoing = announcement(&author, 0, false);
    let other = announcement(&author, 1, false);
    assert_eq!(
        read_announcement(&other.link, &outgoing.frame).unwrap_err(),
        Error::InvalidAnnouncement
    );
    for at in 0..outgoing.frame.len() {
        let mut altered = outgoing.frame.clone();
        altered[at] ^= 0x04;
        assert_eq!(
            read_announcement(&outgoing.link, &altered).unwrap_err(),
            Error::InvalidAnnouncement
        );
    }
    assert_eq!(read_announcement(&outgoing.link, &[]).unwrap_err(), Error::InvalidAnnouncement);
    let channel = read_announcement(&outgoing.link, &outgoing.frame).unwrap();
    let subscribe = subscription(&derive_identity("S"), &channel);
    assert_eq!(
        read_announcement(&subscribe.link, &subscribe.frame).unwrap_err(),
        Error::InvalidAnnouncement
    );
}

#[test]
fn a_subscriber_finds_no_channel_where_nothing_is() {
    let mut ledger = Ledger::new();
    let mut author = Author::new("AUTHOR", false);
    let link = author.send_announce(&mut ledger).unwrap();
    let mut subscriber = Subscriber::new("S");
    let empty = Ledger::new();
    assert_eq!(subscriber.receive_announcement(&empty, &link).unwrap_err(), Error::ChannelNotFound);
    assert_eq!(subscriber.state(), SubscriberState::Created);
    let mut forged = Ledger::new();
    let mut frame = ledger.fetch(&link).unwrap().unwrap();
    frame[60] ^= 1;
    forged.publish(&link, &frame).unwrap();
    assert_eq!(
        subscriber.receive_announcement(&forged, &link).unwrap_err(),
        Error::InvalidAnnouncement
    );
    subscriber.receive_announcement(&ledger, &link).unwrap();
    subscriber.receive_announcement(&ledger, &link).unwrap();
    assert_eq!(subscriber.state(), SubscriberState::Joined);
    assert_eq!(subscriber.party().publisher_count(), 1);
}

#[test]
fn the_author_reads_the_keys_of_a_subscriber() {
    let author = derive_identity("AUTHOR");
    let subscriber = derive_identity("SUBSCRIBER");
    let root = announcement(&author, 0, true);
    let channel = read_announcement(&root.link, &root.frame).unwrap();
    let outgoing = subscription(&subscriber, &channel);
    let message = decode_message(&outgoing.frame).unwrap();
    assert_eq!(message.header.message_type, MessageType::Subscribe);
    assert_eq!(message.public_payload.len(), 32);
    assert_ne!(message.public_payload, subscriber.exchange_key().to_vec());
    assert_eq!(message.masked_payload.len(), 48);
    assert!(!outgoing
        .frame
        .windows(32)
        .any(|window| window == subscriber.exchange_key()));
    let keys = read_subscription(&author, &channel, &outgoing.link, &outgoing.frame).unwrap();
    assert_eq!(keys.signing, subscriber.signing_key().to_vec());
    assert_eq!(keys.exchange, subscriber.exchange_key().to_vec());
}

#[test]
fn what_is_no_subscription_is_refused() {
    let author = derive_identity("AUTHOR");
    let subscriber = derive_identity("SUBSCRIBER");
    let root = announcement(&author, 0, true);
    let channel = read_announcement(&root.link, &root.frame).unwrap();
    let other_root = announcement(&author, 1, true);
    let other_channel = read_announcement(&other_root.link, &other_root.frame).unwrap();
    let outgoing = subscription(&subscriber, &channel);

    assert_eq!(
        read_subscription(&author, &other_channel, &outgoing.link, &outgoing.frame).unwrap_err(),
        Error::MembershipError
    );
    assert_eq!(
        read_subscription(&author, &channel, &root.link, &outgoing.frame).unwrap_err(),
        Error::MembershipError
    );
    assert_eq!(
        read_subscription(&author, &channel, &root.link, &root.frame).unwrap_err(),
        Error::MembershipError
    );
    assert_eq!(
        read_subscription(&derive_identity("IMPOSTOR"), &channel, &outgoing.link, &outgoing.frame)
            .unwrap_err(),
        Error::AuthenticationError
    );
    let mut altered = outgoing.frame.clone();
    altered[150] ^= 1;
    assert_eq!(
        read_subscription(&author, &channel, &outgoing.link, &altered).unwrap_err(),
        Error::MembershipError
    );
    assert_eq!(
        read_subscription(&author, &channel, &outgoing.link, &outgoing.frame[..100]).unwrap_err(),
        Error::MalformedMessage
    );
}

#[test]
fn a_leave_names_who_leaves() {
    let author = derive_identity("AUTHOR");
    let subscriber = derive_identity("SUBSCRIBER");
    let root = announcement(&author, 0, true);
    let channel = read_announcement(&root.link, &root.frame).unwrap();
    let leave = unsubscription(&subscriber, &channel);
    let subscribe = subscription(&subscriber, &channel);
    assert_ne!(leave.link.msgid, subscribe.link.msgid);
    assert_eq!(
        read_unsubscription(&channel, &leave.link, &leave.frame).unwrap(),
        subscriber.signing_key().to_vec()
    );
    assert_eq!(
        read_unsubscription(&channel, &subscribe.link, &subscribe.frame).unwrap_err(),
        Error::MembershipError
    );
    assert_eq!(
        read_unsubscription(&channel, &leave.link, &leave.frame[..20]).unwrap_err(),
        Error::MalformedMessage
    );
    let mut altered = leave.frame.clone();
    let last = altered.len() - 1;
    altered[last] ^= 1;
    assert_eq!(
        read_unsubscription(&channel, &leave.link, &altered).unwrap_err(),
        Error::MembershipError
    );
}

#[test]
fn the_author_admits_a_subscriber_once() {
    let mut ledger = Ledger::new();
    let mut author = Author::new("AUTHOR", true);
    let nowhere = Link { appinst: vec![0; 40], msgid: vec![0; 12] };
    assert_eq!(author.receive_subscribe(&ledger, &nowhere).unwrap_err(), Error::ChannelNotFound);
    assert_eq!(author.receive_unsubscribe(&ledger, &nowhere).unwrap_err(), Error::ChannelNotFound);
    let announcement = author.send_announce(&mut ledger).unwrap();
    assert_eq!(author.receive_subscribe(&ledger, &nowhere).unwrap_err(), Error::MembershipError);
    assert_eq!(author.receive_subscribe(&ledger, &announcement).unwrap_err(), Error::MembershipError);
    assert_eq!(author.state(), AuthorState::Announced);

    let mut subscriber = Subscriber::new("S");
    subscriber.receive_announcement(&ledger, &announcement).unwrap();
    let wrong = Link { appinst: vec![0; 40], msgid: announcement.msgid.clone() };
    assert_eq!(subscriber.send_subscribe(&mut ledger, &wrong).unwrap_err(), Error::ChannelNotFound);
    let subscription = subscriber.send_subscribe(&mut ledger, &announcement).unwrap();
    let again = subscriber.send_subscribe(&mut ledger, &announcement).unwrap();
    assert_eq!(subscription.msgid, again.msgid);
    assert_eq!(ledger.len(), 2);

    author.receive_subscribe(&ledger, &subscription).unwrap();
    author.receive_subscribe(&ledger, &subscription).unwrap();
    assert_eq!(author.member_count(), 1);
    assert_eq!(author.state(), AuthorState::Active);
    let key = subscriber.party().own_identity().signing_key().to_vec();
    assert_eq!(author.member_state(&key), Some(MemberState::Pending));
    assert_eq!(author.member_state(&[0u8; 32]), None);

    let mut own = Subscriber::new("AUTHOR");
    own.receive_announcement(&ledger, &announcement).unwrap();
    let own_subscription = own.send_subscribe(&mut ledger, &announcement).unwrap();
    assert_eq!(
        author.receive_subscribe(&ledger, &own_subscription).unwrap_err(),
        Error::MembershipError
    );
}

use tangle_channels::author::Author;
use tangle_channels::bytes::create_payload;
use tangle_channels::delivery::Delivery;
use tangle_channels::delivery::MessageContent;
use tangle_channels::error::Error;
use tangle_channels::link::Link;
use tangle_channels::message::MessageType;
use tangle_channels::subscriber::Subscriber;
use tangle_channels::transport::Ledger;

fn same_link(a: &Link, b: &Link) -> bool {
    a.appinst == b.appinst && a.msgid == b.msgid
}

fn public_text(delivery: &Delivery) -> String {
    match &delivery.body {
        MessageContent::SignedPacket { public_payload, .. } => {
            String::from_utf8(public_payload.0.clone()).unwrap()
        }
        MessageContent::TaggedPacket { public_payload, .. } => {
            String::from_utf8(public_payload.0.clone()).unwrap()
        }
        MessageContent::Keyload => "keyload".to_string(),
        _ => "other".to_string(),
    }
}

fn masked_text(delivery: &Delivery) -> Option<String> {
    match &delivery.body {
        MessageContent::SignedPacket { masked_payload, .. } => {
            masked_payload.as_ref().map(|m| String::from_utf8(m.0.clone()).unwrap())
        }
        MessageContent::TaggedPacket { masked_payload, .. } => {
            masked_payload.as_ref().map(|m| String::from_utf8(m.0.clone()).unwrap())
        }
        _ => None,
    }
}

fn drain(subscriber: &mut Subscriber, ledger: &Ledger) -> Vec<Delivery> {
    let (deliveries, stopped) = subscriber.fetch_all(ledger);
    assert_eq!(stopped, None);
    deliveries
}

fn copy_with(ledger: &Ledger, target: &Link, change: impl Fn(&mut Vec<u8>)) -> Ledger {
    let mut copy = Ledger::new();
    for link in ledger.links() {
        let mut frame = ledger.fetch(&link).unwrap().unwrap();
        if same_link(&link, target) {
            change(&mut frame);
        }
        copy.publish(&link, &frame).unwrap();
    }
    copy
}

fn channel(multi_branching: bool, subscribers: &[&str]) -> (Ledger, Author, Vec<Subscriber>, Link, Link) {
    let mut ledger = Ledger::new();
    let mut author = Author::new("AUTHOR", multi_branching);
    let announcement = author.send_announce(&mut ledger).unwrap();
    let mut parties = Vec::new();
    for seed in subscribers {
        let mut subscriber = Subscriber::new(seed);
        subscriber.receive_announcement(&ledger, &announcement).unwrap();
        let subscription = subscriber.send_subscribe(&mut ledger, &announcement).unwrap();
        author.receive_subscribe(&ledger, &subscription).unwrap();
        parties.push(subscriber);
    }
    let keyload = author.send_keyload_for_everyone(&mut ledger, &announcement).unwrap();
    for subscriber in parties.iter_mut() {
        assert_eq!(drain(subscriber, &ledger).len(), 1);
    }
    (ledger, author, parties, announcement, keyload)
}

#[test]
fn every_message_is_delivered_once() {
    for multi_branching in [false, true] {
        let (mut ledger, mut author, mut parties, _, keyload) = channel(multi_branching, &["S"]);
        let subscriber = &mut parties[0];
        let mut anchor = keyload;
        let mut seen: Vec<Vec<u8>> = Vec::new();
        for round in 0..4 {
            for n in 0..3 {
                let text = create_payload(&format!("message {} of round {}", n, round));
                anchor = author.send_signed_packet(&mut ledger, &anchor, &text, &text).unwrap();
            }
            loop {
                let batch = subscriber.fetch_next_msgs(&ledger).unwrap();
                if batch.is_empty() {
                    break;
                }
                for delivery in batch {
                    assert!(!seen.contains(&delivery.link.msgid));
                    seen.push(delivery.link.msgid);
                }
            }
            assert_eq!(seen.len(), 3 * (round + 1));
            assert!(subscriber.fetch_next_msgs(&ledger).unwrap().is_empty());
        }
        assert_eq!(subscriber.party().seen_count(), 13);
    }
}

#[test]
fn a_party_is_not_told_of_its_own_messages() {
    let (mut ledger, mut author, _, _, keyload) = channel(true, &["S"]);
    let text = create_payload("mine");
    author.send_signed_packet(&mut ledger, &keyload, &text, &text).unwrap();
    assert!(author.fetch_next_msgs(&ledger).unwrap().is_empty());
    assert_eq!(author.party().seen_count(), 2);
}

#[test]
fn a_message_comes_after_the_one_it_is_linked_to() {
    let (mut ledger, mut author, mut parties, _, keyload) = channel(true, &["FIRST", "SECOND"]);
    let one = author
        .send_signed_packet(&mut ledger, &keyload, &create_payload("author 1"), &create_payload(""))
        .unwrap();
    let two = author
        .send_signed_packet(&mut ledger, &one, &create_payload("author 2"), &create_payload(""))
        .unwrap();
    {
        let first = &mut parties[0];
        assert_eq!(drain(first, &ledger).len(), 2);
        first
            .send_signed_packet(&mut ledger, &two, &create_payload("reply"), &create_payload(""))
            .unwrap();
    }
    author
        .send_signed_packet(&mut ledger, &two, &create_payload("author 3"), &create_payload(""))
        .unwrap();

    let reader = &mut parties[1];
    let first_call: Vec<String> =
        reader.fetch_next_msgs(&ledger).unwrap().iter().map(public_text).collect();
    assert_eq!(first_call, vec!["author 1"]);
    let second_call: Vec<String> =
        reader.fetch_next_msgs(&ledger).unwrap().iter().map(public_text).collect();
    assert_eq!(second_call, vec!["author 2", "reply"]);
    let third_call: Vec<String> =
        reader.fetch_next_msgs(&ledger).unwrap().iter().map(public_text).collect();
    assert_eq!(third_call, vec!["author 3"]);
    assert!(reader.fetch_next_msgs(&ledger).unwrap().is_empty());
}

#[test]
fn two_messages_for_one_slot_of_the_one_branch_are_ambiguous() {
    let (mut ledger, mut author, mut parties, _, keyload) = channel(false, &["WRITER", "READER"]);
    let text = create_payload("text");
    author.send_signed_packet(&mut ledger, &keyload, &text, &text).unwrap();
    parties[0].send_signed_packet(&mut ledger, &keyload, &text, &text).unwrap();

    let reader = &mut parties[1];
    let before = reader.party().seen_count();
    assert_eq!(reader.fetch_next_msgs(&ledger).unwrap_err(), Error::AmbiguousLink);
    assert_eq!(reader.fetch_next_msgs(&ledger).unwrap_err(), Error::AmbiguousLink);
    assert_eq!(reader.party().seen_count(), before);
    let (deliveries, stopped) = reader.fetch_all(&ledger);
    assert!(deliveries.is_empty());
    assert_eq!(stopped, Some(Error::AmbiguousLink));
}

#[test]
fn on_the_one_branch_a_message_is_linked_to_any_message_that_came() {
    let mut ledger = Ledger::new();
    let mut author = Author::new("AUTHOR", false);
    let announcement = author.send_announce(&mut ledger).unwrap();
    let mut reader = Subscriber::new("READER");
    reader.receive_announcement(&ledger, &announcement).unwrap();
    let subscription = reader.send_subscribe(&mut ledger, &announcement).unwrap();
    author.receive_subscribe(&ledger, &subscription).unwrap();

    let public = create_payload("PUBLIC MESSAGE");
    let masked = create_payload("MASKED MESSAGE");
    let early = author.send_signed_packet(&mut ledger, &announcement, &public, &masked).unwrap();
    let keyload = author.send_keyload_for_everyone(&mut ledger, &announcement).unwrap();
    let late = author.send_signed_packet(&mut ledger, &keyload, &public, &masked).unwrap();
    let aside = author.send_signed_packet(&mut ledger, &early, &public, &masked).unwrap();

    let mut told: Vec<Delivery> = Vec::new();
    loop {
        let batch = reader.fetch_next_msgs(&ledger).unwrap();
        if batch.is_empty() {
            break;
        }
        assert_eq!(batch.len(), 1);
        told.extend(batch);
    }
    assert_eq!(told.len(), 4);
    assert!(same_link(&told[0].link, &early) && same_link(&told[0].previous_link, &announcement));
    assert!(same_link(&told[1].link, &keyload) && same_link(&told[1].previous_link, &announcement));
    assert!(same_link(&told[2].link, &late) && same_link(&told[2].previous_link, &keyload));
    assert!(same_link(&told[3].link, &aside) && same_link(&told[3].previous_link, &early));
    assert_eq!(masked_text(&told[0]), Some("MASKED MESSAGE".to_string()));
    assert_eq!(masked_text(&told[2]), Some("MASKED MESSAGE".to_string()));
    assert_eq!(masked_text(&told[3]), Some("MASKED MESSAGE".to_string()));
}

#[test]
fn nothing_is_fetched_or_sent_while_the_ledger_is_out_of_reach() {
    let (mut ledger, mut author, mut parties, announcement, keyload) = channel(true, &["S"]);
    let text = create_payload("text");
    author.send_signed_packet(&mut ledger, &keyload, &text, &text).unwrap();
    ledger.set_online(false);
    let before = author.party().seen_count();
    assert_eq!(
        author.send_signed_packet(&mut ledger, &keyload, &text, &text).unwrap_err(),
        Error::TransportError
    );
    assert_eq!(
        author.send_keyload_for_everyone(&mut ledger, &keyload).unwrap_err(),
        Error::TransportError
    );
    assert_eq!(author.send_announce(&mut ledger).unwrap_err(), Error::TransportError);
    assert_eq!(author.party().seen_count(), before);
    let reader = &mut parties[0];
    assert_eq!(reader.fetch_next_msgs(&ledger).unwrap_err(), Error::TransportError);
    let (deliveries, stopped) = reader.fetch_all(&ledger);
    assert!(deliveries.is_empty());
    assert_eq!(stopped, Some(Error::TransportError));
    assert_eq!(reader.send_unsubscribe(&mut ledger).unwrap_err(), Error::TransportError);
    let mut late = Subscriber::new("LATE");
    assert_eq!(late.receive_announcement(&ledger, &announcement).unwrap_err(), Error::TransportError);
    assert_eq!(author.receive_subscribe(&ledger, &announcement).unwrap_err(), Error::TransportError);
    assert_eq!(author.receive_unsubscribe(&ledger, &announcement).unwrap_err(), Error::TransportError);

    ledger.set_online(true);
    assert_eq!(reader.fetch_next_msgs(&ledger).unwrap().len(), 1);
    author.send_signed_packet(&mut ledger, &keyload, &text, &text).unwrap();
    author.send_announce(&mut ledger).unwrap();
}

#[test]
fn a_state_in_which_nothing_is_to_be_had_delivers_nothing() {
    let (mut ledger, mut author, mut parties, _, keyload) = channel(true, &["S"]);
    let reader = &mut parties[0];
    for _ in 0..3 {
        assert!(reader.fetch_next_msgs(&ledger).unwrap().is_empty());
    }
    let text = create_payload("text");
    author.send_signed_packet(&mut ledger, &keyload, &text, &text).unwrap();
    assert_eq!(reader.fetch_next_msgs(&ledger).unwrap().len(), 1);
    for _ in 0..3 {
        assert!(reader.fetch_next_msgs(&ledger).unwrap().is_empty());
    }
}

#[test]
fn an_altered_frame_is_refused_and_met_again() {
    let (mut ledger, mut author, mut parties, _, keyload) = channel(true, &["S"]);
    let first = author
        .send_signed_packet(&mut ledger, &keyload, &create_payload("first"), &create_payload("1"))
        .unwrap();
    let second = author
        .send_signed_packet(&mut ledger, &first, &create_payload("second"), &create_payload("2"))
        .unwrap();
    let forged = copy_with(&ledger, &second, |frame| {
        let last = frame.len() - 1;
        frame[last] ^= 0x80;
    });
    let reader = &mut parties[0];
    let batch = reader.fetch_next_msgs(&forged).unwrap();
    assert_eq!(batch.iter().map(public_text).collect::<Vec<_>>(), vec!["first"]);
    assert_eq!(reader.fetch_next_msgs(&forged).unwrap_err(), Error::SignatureInvalid);
    assert_eq!(reader.fetch_next_msgs(&forged).unwrap_err(), Error::SignatureInvalid);
    assert_eq!(reader.party().seen_count(), 2);
    let batch = reader.fetch_next_msgs(&ledger).unwrap();
    assert_eq!(batch.iter().map(public_text).collect::<Vec<_>>(), vec!["second"]);
    assert_eq!(masked_text(&batch[0]), Some("2".to_string()));
}

#[test]
fn a_cut_frame_is_malformed() {
    let (mut ledger, mut author, mut parties, _, keyload) = channel(true, &["S"]);
    let packet = author
        .send_tagged_packet(&mut ledger, &keyload, &create_payload("tagged"), &create_payload("t"))
        .unwrap();
    let cut = copy_with(&ledger, &packet, |frame| {
        frame.pop();
    });
    assert_eq!(parties[0].fetch_next_msgs(&cut).unwrap_err(), Error::MalformedMessage);
    let altered = copy_with(&ledger, &packet, |frame| {
        let last = frame.len() - 1;
        frame[last] ^= 1;
    });
    assert_eq!(parties[0].fetch_next_msgs(&altered).unwrap_err(), Error::AuthenticationError);
    let batch = parties[0].fetch_next_msgs(&ledger).unwrap();
    assert_eq!(public_text(&batch[0]), "tagged");
    assert_eq!(masked_text(&batch[0]), Some("t".to_string()));
    assert!(matches!(batch[0].body, MessageContent::TaggedPacket { .. }));
}

#[test]
fn a_frame_at_the_wrong_link_is_refused() {
    let (mut ledger, mut author, mut parties, _, keyload) = channel(true, &["S"]);
    let first = author
        .send_signed_packet(&mut ledger, &keyload, &create_payload("first"), &create_payload(""))
        .unwrap();
    let first_frame = ledger.fetch(&first).unwrap().unwrap();
    let outgoing = author
        .party()
        .draft(MessageType::SignedPacket, &first, b"second", b"")
        .unwrap();
    let mut misplaced = Ledger::new();
    for link in ledger.links() {
        misplaced.publish(&link, &ledger.fetch(&link).unwrap().unwrap()).unwrap();
    }
    misplaced.publish(&outgoing.link, &first_frame).unwrap();
    let reader = &mut parties[0];
    assert_eq!(reader.fetch_next_msgs(&misplaced).unwrap().len(), 1);
    assert_eq!(reader.fetch_next_msgs(&misplaced).unwrap_err(), Error::MalformedMessage);
}

#[test]
fn what_cannot_be_published() {
    let mut ledger = Ledger::new();
    let text = create_payload("text");
    let mut author = Author::new("AUTHOR", true);
    let nowhere = Link { appinst: vec![0; 40], msgid: vec![0; 12] };
    assert_eq!(
        author.send_signed_packet(&mut ledger, &nowhere, &text, &text).unwrap_err(),
        Error::ChannelNotFound
    );
    assert_eq!(
        author.send_keyload_for_everyone(&mut ledger, &nowhere).unwrap_err(),
        Error::ChannelNotFound
    );
    assert_eq!(author.fetch_next_msgs(&ledger).unwrap_err(), Error::ChannelNotFound);

    let announcement = author.send_announce(&mut ledger).unwrap();
    let mut subscriber = Subscriber::new("S");
    assert_eq!(
        subscriber.send_subscribe(&mut ledger, &announcement).unwrap_err(),
        Error::ChannelNotFound
    );
    assert_eq!(subscriber.send_unsubscribe(&mut ledger).unwrap_err(), Error::ChannelNotFound);
    assert_eq!(subscriber.fetch_next_msgs(&ledger).unwrap_err(), Error::ChannelNotFound);
    subscriber.receive_announcement(&ledger, &announcement).unwrap();
    assert_eq!(subscriber.send_unsubscribe(&mut ledger).unwrap_err(), Error::MembershipError);
    assert_eq!(
        subscriber.send_signed_packet(&mut ledger, &announcement, &text, &text).unwrap_err(),
        Error::MembershipError
    );

    let unknown = Link { appinst: announcement.appinst.clone(), msgid: vec![9; 12] };
    assert_eq!(
        author.send_signed_packet(&mut ledger, &unknown, &text, &text).unwrap_err(),
        Error::MalformedMessage
    );
    let elsewhere = Link { appinst: vec![1; 40], msgid: announcement.msgid.clone() };
    assert_eq!(
        author.send_signed_packet(&mut ledger, &elsewhere, &text, &text).unwrap_err(),
        Error::MalformedMessage
    );
    let short = Link { appinst: announcement.appinst.clone(), msgid: vec![9; 3] };
    assert_eq!(
        author.send_signed_packet(&mut ledger, &short, &text, &text).unwrap_err(),
        Error::MalformedMessage
    );
    assert_eq!(
        author.party().draft(MessageType::Subscribe, &announcement, b"", b"").unwrap_err(),
        Error::MalformedMessage
    );
    assert_eq!(
        author.party().draft(MessageType::Keyload, &announcement, &[0u8; 81], b"").unwrap_err(),
        Error::MalformedMessage
    );
    assert_eq!(ledger.len(), 1);
}

#[test]
fn the_ledger_refuses_a_link_that_is_taken() {
    let mut ledger = Ledger::new();
    let mut author = Author::new("AUTHOR", true);
    let announcement = author.send_announce(&mut ledger).unwrap();
    let outgoing = author.party().draft(MessageType::SignedPacket, &announcement, b"a", b"").unwrap();
    ledger.publish(&outgoing.link, b"squatter").unwrap();
    let before = author.party().seen_count();
    assert_eq!(
        author
            .send_signed_packet(&mut ledger, &announcement, &create_payload("a"), &create_payload(""))
            .unwrap_err(),
        Error::TransportError
    );
    assert_eq!(author.party().seen_count(), before);
    assert_eq!(ledger.len(), 2);
}

#[test]
fn before_the_first_keyload_a_masked_payload_is_masked_from_nobody() {
    let mut ledger = Ledger::new();
    let mut author = Author::new("AUTHOR", false);
    let announcement = author.send_announce(&mut ledger).unwrap();
    let packet = author
        .send_signed_packet(
            &mut ledger,
            &announcement,
            &create_payload("PUBLIC MESSAGE"),
            &create_payload("MASKED MESSAGE"),
        )
        .unwrap();
    let frame = ledger.fetch(&packet).unwrap().unwrap();
    assert!(!frame.windows(14).any(|window| window == b"MASKED MESSAGE"));
    assert!(frame.windows(14).any(|window| window == b"PUBLIC MESSAGE"));

    let mut stranger = Subscriber::new("STRANGER");
    stranger.receive_announcement(&ledger, &announcement).unwrap();
    let batch = stranger.fetch_next_msgs(&ledger).unwrap();
    assert_eq!(batch.len(), 1);
    assert_eq!(public_text(&batch[0]), "PUBLIC MESSAGE");
    assert_eq!(masked_text(&batch[0]), Some("MASKED MESSAGE".to_string()));
}

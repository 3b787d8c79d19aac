use tangle_channels::author::Author;
use tangle_channels::author::AuthorState;
use tangle_channels::bytes::create_payload;
use tangle_channels::delivery::Delivery;
use tangle_channels::delivery::MessageContent;
use tangle_channels::error::Error;
use tangle_channels::link::Link;
use tangle_channels::subscriber::Subscriber;
use tangle_channels::subscriber::SubscriberState;
use tangle_channels::transport::Ledger;

fn fetch_all(subscriber: &mut Subscriber, ledger: &Ledger) -> Vec<Delivery> {
    let mut all = Vec::new();
    loop {
        let batch = subscriber.fetch_next_msgs(ledger).unwrap();
        if batch.is_empty() {
            return all;
        }
        all.extend(batch);
    }
}

fn packet(delivery: &Delivery) -> (Vec<u8>, Option<Vec<u8>>) {
    match &delivery.body {
        MessageContent::SignedPacket { public_payload, masked_payload, .. } => {
            (public_payload.0.clone(), masked_payload.as_ref().map(|m| m.0.clone()))
        }
        MessageContent::TaggedPacket { public_payload, masked_payload } => {
            (public_payload.0.clone(), masked_payload.as_ref().map(|m| m.0.clone()))
        }
        _ => panic!("no packet"),
    }
}

fn same(a: &Link, b: &Link) -> bool {
    a.appinst == b.appinst && a.msgid == b.msgid
}

#[test]
fn a_subscriber_recovers_both_payloads() {
    for multi_branching in [false, true] {
        let mut ledger = Ledger::new();
        let mut author = Author::new("AUTHOR9SEED", multi_branching);
        let mut subscriber = Subscriber::new("SUBSCRIBER9SEED");
        assert_eq!(author.state(), AuthorState::Created);
        assert_eq!(subscriber.state(), SubscriberState::Created);

        let announcement = author.send_announce(&mut ledger).unwrap();
        assert_eq!(author.state(), AuthorState::Announced);
        subscriber.receive_announcement(&ledger, &announcement).unwrap();
        assert_eq!(subscriber.state(), SubscriberState::Joined);

        let subscription = subscriber.send_subscribe(&mut ledger, &announcement).unwrap();
        assert_eq!(subscriber.state(), SubscriberState::Subscribed);
        author.receive_subscribe(&ledger, &subscription).unwrap();
        assert_eq!(author.state(), AuthorState::Active);

        let keyload = author.send_keyload_for_everyone(&mut ledger, &announcement).unwrap();
        let sent = author
            .send_signed_packet(
                &mut ledger,
                &keyload,
                &create_payload("PUBLIC MESSAGE"),
                &create_payload("MASKED MESSAGE"),
            )
            .unwrap();

        let received = fetch_all(&mut subscriber, &ledger);
        assert_eq!(received.len(), 2);
        assert!(matches!(received[0].body, MessageContent::Keyload));
        assert!(same(&received[0].link, &keyload));
        assert!(same(&received[0].previous_link, &announcement));
        assert!(same(&received[1].link, &sent));
        assert!(same(&received[1].previous_link, &keyload));
        let (public, masked) = packet(&received[1]);
        assert_eq!(String::from_utf8(public).unwrap(), "PUBLIC MESSAGE");
        assert_eq!(String::from_utf8(masked.unwrap()).unwrap(), "MASKED MESSAGE");

        assert!(subscriber.fetch_next_msgs(&ledger).unwrap().is_empty());
        assert!(author.fetch_next_msgs(&ledger).unwrap().is_empty());
    }
}

#[test]
fn two_announcements_coexist() {
    let mut ledger = Ledger::new();
    let mut first = Author::with_index("AUTHOR9SEED", false, 0);
    let mut second = Author::with_index("AUTHOR9SEED", false, 1);
    let first_root = first.send_announce(&mut ledger).unwrap();
    let second_root = second.send_announce(&mut ledger).unwrap();
    assert!(!same(&first_root, &second_root));
    assert_eq!(ledger.len(), 2);

    let mut subscriber = Subscriber::new("SUBSCRIBER9SEED");
    subscriber.receive_announcement(&ledger, &second_root).unwrap();
    assert_eq!(subscriber.state(), SubscriberState::Joined);
    let channel = subscriber.party().channel().unwrap();
    assert!(same(&channel.announcement, &second_root));

    let mut other = Subscriber::new("OTHER9SEED");
    other.receive_announcement(&ledger, &first_root).unwrap();
    assert_eq!(
        subscriber.receive_announcement(&ledger, &first_root).unwrap_err(),
        Error::InvalidAnnouncement
    );
}

#[test]
fn announcing_again_publishes_the_same_frame_at_the_same_link() {
    let mut ledger = Ledger::new();
    let mut author = Author::new("AUTHOR9SEED", false);
    let first = author.send_announce(&mut ledger).unwrap();
    let second = author.send_announce(&mut ledger).unwrap();
    assert!(same(&first, &second));
    assert_eq!(ledger.len(), 1);

    let mut twin = Author::new("AUTHOR9SEED", false);
    let third = twin.send_announce(&mut ledger).unwrap();
    assert!(same(&first, &third));
    assert_eq!(ledger.len(), 1);

    let mut rival = Author::new("AUTHOR9SEED", true);
    assert_eq!(rival.send_announce(&mut ledger).unwrap_err(), Error::TransportError);
    assert_eq!(rival.state(), AuthorState::Created);
}

#[test]
fn who_joins_after_a_keyload_reads_public_payloads_only() {
    let mut ledger = Ledger::new();
    let mut author = Author::new("AUTHOR9SEED", true);
    let mut before = Subscriber::new("SUBSCRIBER9BEFORE");
    let mut after = Subscriber::new("SUBSCRIBER9AFTER");

    let announcement = author.send_announce(&mut ledger).unwrap();
    before.receive_announcement(&ledger, &announcement).unwrap();
    after.receive_announcement(&ledger, &announcement).unwrap();

    let subscription = before.send_subscribe(&mut ledger, &announcement).unwrap();
    author.receive_subscribe(&ledger, &subscription).unwrap();

    let public = create_payload("PUBLIC MESSAGE");
    let masked = create_payload("MASKED MESSAGE");
    let early = author.send_signed_packet(&mut ledger, &announcement, &public, &masked).unwrap();
    let keyload = author.send_keyload_for_everyone(&mut ledger, &early).unwrap();

    let late_subscription = after.send_subscribe(&mut ledger, &announcement).unwrap();
    author.receive_subscribe(&ledger, &late_subscription).unwrap();

    let late = author.send_signed_packet(&mut ledger, &keyload, &public, &masked).unwrap();

    let seen_before = fetch_all(&mut before, &ledger);
    assert_eq!(seen_before.len(), 3);
    assert!(same(&seen_before[0].link, &early));
    assert!(matches!(seen_before[1].body, MessageContent::Keyload));
    assert!(same(&seen_before[2].link, &late));
    assert_eq!(packet(&seen_before[0]), (b"PUBLIC MESSAGE".to_vec(), Some(b"MASKED MESSAGE".to_vec())));
    assert_eq!(packet(&seen_before[2]), (b"PUBLIC MESSAGE".to_vec(), Some(b"MASKED MESSAGE".to_vec())));

    let seen_after = fetch_all(&mut after, &ledger);
    assert_eq!(seen_after.len(), 3);
    assert_eq!(packet(&seen_after[0]), (b"PUBLIC MESSAGE".to_vec(), Some(b"MASKED MESSAGE".to_vec())));
    assert!(matches!(seen_after[1].body, MessageContent::Keyload));
    assert_eq!(packet(&seen_after[2]), (b"PUBLIC MESSAGE".to_vec(), None));
}

#[test]
fn multi_branch_fan_out() {
    let publishers = 4;
    let messages = 5;
    let mut ledger = Ledger::new();
    let mut author = Author::new("AUTHOR9SEED", true);
    let announcement = author.send_announce(&mut ledger).unwrap();
    let mut subscribers: Vec<Subscriber> = Vec::new();
    for i in 0..publishers - 1 {
        let mut subscriber = Subscriber::new(&format!("SUBSCRIBER9{}", i));
        subscriber.receive_announcement(&ledger, &announcement).unwrap();
        let subscription = subscriber.send_subscribe(&mut ledger, &announcement).unwrap();
        author.receive_subscribe(&ledger, &subscription).unwrap();
        subscribers.push(subscriber);
    }
    let mut reader = Subscriber::new("READER");
    reader.receive_announcement(&ledger, &announcement).unwrap();
    let subscription = reader.send_subscribe(&mut ledger, &announcement).unwrap();
    author.receive_subscribe(&ledger, &subscription).unwrap();

    let keyload = author.send_keyload_for_everyone(&mut ledger, &announcement).unwrap();
    for subscriber in subscribers.iter_mut() {
        let got = fetch_all(subscriber, &ledger);
        assert_eq!(got.len(), 1);
    }
    assert_eq!(fetch_all(&mut reader, &ledger).len(), 1);

    let mut expected: Vec<Vec<String>> = Vec::new();
    let mut anchor = keyload.clone();
    let mut branch = Vec::new();
    for m in 0..messages {
        let text = format!("author {}", m);
        anchor = author
            .send_signed_packet(&mut ledger, &anchor, &create_payload(&text), &create_payload(&text))
            .unwrap();
        branch.push(text);
    }
    expected.push(branch);
    for (i, subscriber) in subscribers.iter_mut().enumerate() {
        let mut anchor = keyload.clone();
        let mut branch = Vec::new();
        for m in 0..messages {
            let text = format!("subscriber {} message {}", i, m);
            anchor = subscriber
                .send_signed_packet(&mut ledger, &anchor, &create_payload(&text), &create_payload(&text))
                .unwrap();
            branch.push(text);
        }
        expected.push(branch);
    }

    let received = fetch_all(&mut reader, &ledger);
    assert_eq!(received.len(), publishers * messages);
    for branch in expected.iter() {
        let in_order: Vec<String> = received
            .iter()
            .map(|d| String::from_utf8(packet(d).0).unwrap())
            .filter(|text| branch.contains(text))
            .collect();
        assert_eq!(&in_order, branch);
    }
    for delivery in received.iter() {
        let (public, masked) = packet(delivery);
        assert_eq!(Some(public), masked);
    }
    let mut links: Vec<Vec<u8>> = received.iter().map(|d| d.link.msgid.clone()).collect();
    links.sort();
    links.dedup();
    assert_eq!(links.len(), publishers * messages);
    assert!(reader.fetch_next_msgs(&ledger).unwrap().is_empty());
}

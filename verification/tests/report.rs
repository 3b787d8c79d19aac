use tangle_channels::author::Author;
use tangle_channels::author::AuthorState;
use tangle_channels::bytes::create_payload;
use tangle_channels::bytes::Bytes;
use tangle_channels::delivery::Delivery;
use tangle_channels::delivery::MessageContent;
use tangle_channels::error::Error;
use tangle_channels::link::get_hash;
use tangle_channels::link::Link;
use tangle_channels::notifications::Publisher;
use tangle_channels::notifications::Recipient;
use tangle_channels::report::create_author;
use tangle_channels::report::create_subscriber;
use tangle_channels::report::describe;
use tangle_channels::report::receive_messages_for_author;
use tangle_channels::report::receive_messages_for_subscriber;
use tangle_channels::subscriber::SubscriberState;
use tangle_channels::transport::Ledger;

fn delivery(body: MessageContent) -> Delivery {
    Delivery {
        link: Link { appinst: vec![0xab; 40], msgid: vec![0xcd; 12] },
        previous_link: Link { appinst: vec![0xab; 40], msgid: vec![0xef; 12] },
        body,
    }
}

fn lines_of(body: MessageContent) -> Vec<String> {
    let mut lines = vec!["kept".to_string()];
    describe(&mut lines, &delivery(body));
    assert_eq!(lines[0], "kept");
    assert_eq!(lines[1], format!("Message Index: {}", get_hash(&delivery(MessageContent::Announce).link)));
    assert_eq!(lines[2], "Message ID: cdcdcdcdcdcdcdcdcdcdcdcd");
    lines[3..].to_vec()
}

#[test]
fn every_content_has_its_lines() {
    assert_eq!(lines_of(MessageContent::Announce), vec!["    Announcement"]);
    assert_eq!(lines_of(MessageContent::Keyload), vec!["    Keyload"]);
    assert_eq!(lines_of(MessageContent::Sequence), vec!["    Sequence"]);
    assert_eq!(lines_of(MessageContent::Subscribe), vec!["    Subscription"]);
    assert_eq!(lines_of(MessageContent::Unsubscribe), vec!["    Unsubscribtion"]);
    assert_eq!(
        lines_of(MessageContent::SignedPacket {
            pk: vec![1; 32],
            public_payload: Bytes(b"PUBLIC MESSAGE".to_vec()),
            masked_payload: Some(Bytes(b"MASKED MESSAGE".to_vec())),
        }),
        vec!["    Public Message: PUBLIC MESSAGE", "    Masked Message: MASKED MESSAGE"]
    );
    assert_eq!(
        lines_of(MessageContent::TaggedPacket {
            public_payload: Bytes(vec![0xff]),
            masked_payload: None,
        }),
        vec!["    Public Message: 0xff", "    Masked Message: (not accessible)"]
    );
}

#[test]
fn a_reception_tells_of_all_that_came() {
    let mut ledger = Ledger::new();
    let mut author = Author::new("AUTHOR", true);
    let mut subscriber = tangle_channels::subscriber::Subscriber::new("S");
    let announcement = author.send_announce(&mut ledger).unwrap();
    subscriber.receive_announcement(&ledger, &announcement).unwrap();
    let subscription = subscriber.send_subscribe(&mut ledger, &announcement).unwrap();
    author.receive_subscribe(&ledger, &subscription).unwrap();
    let keyload = author.send_keyload_for_everyone(&mut ledger, &announcement).unwrap();
    let first = author
        .send_signed_packet(&mut ledger, &keyload, &create_payload("PRIVATE 1"), &create_payload("SECRET 1"))
        .unwrap();
    let second = author
        .send_tagged_packet(&mut ledger, &first, &create_payload("PRIVATE 2"), &create_payload("SECRET 2"))
        .unwrap();

    let reception = receive_messages_for_subscriber(&mut subscriber, &ledger, "Subscriber");
    assert_eq!(reception.stopped, None);
    assert_eq!(reception.deliveries.len(), 3);
    let expected: Vec<String> = vec![
        "".to_string(),
        "Receiving messages for Subscriber...".to_string(),
        format!("Message Index: {}", get_hash(&keyload)),
        format!("Message ID: {}", keyload.msgid_text()),
        "    Keyload".to_string(),
        format!("Message Index: {}", get_hash(&first)),
        format!("Message ID: {}", first.msgid_text()),
        "    Public Message: PRIVATE 1".to_string(),
        "    Masked Message: SECRET 1".to_string(),
        format!("Message Index: {}", get_hash(&second)),
        format!("Message ID: {}", second.msgid_text()),
        "    Public Message: PRIVATE 2".to_string(),
        "    Masked Message: SECRET 2".to_string(),
    ];
    assert_eq!(reception.lines, expected);

    let again = receive_messages_for_subscriber(&mut subscriber, &ledger, "Subscriber");
    assert_eq!(again.lines, vec!["", "Receiving messages for Subscriber..."]);
    assert!(again.deliveries.is_empty());

    subscriber
        .send_signed_packet(&mut ledger, &second, &create_payload("REPLY"), &create_payload(""))
        .unwrap();
    let for_author = receive_messages_for_author(&mut author, &ledger, "Author");
    assert_eq!(for_author.stopped, None);
    assert_eq!(for_author.lines.len(), 6);
    assert_eq!(for_author.lines[1], "Receiving messages for Author...");
    assert_eq!(for_author.lines[4], "    Public Message: REPLY");
    assert_eq!(for_author.lines[5], "    Masked Message: ");
}

#[test]
fn a_reception_names_the_error_that_ended_it() {
    let ledger = Ledger::new();
    let mut subscriber = create_subscriber();
    let reception = receive_messages_for_subscriber(&mut subscriber, &ledger, "Nobody");
    assert_eq!(reception.stopped, Some(Error::ChannelNotFound));
    assert_eq!(reception.lines, vec!["", "Receiving messages for Nobody..."]);
}

#[test]
fn parties_are_created_with_identities_of_their_own() {
    let first = create_subscriber();
    let second = create_subscriber();
    assert_eq!(first.state(), SubscriberState::Created);
    assert_ne!(
        first.party().own_identity().signing_key(),
        second.party().own_identity().signing_key()
    );
    let single = create_author(false);
    let multi = create_author(true);
    assert_eq!(single.state(), AuthorState::Created);
    assert_ne!(
        single.party().own_identity().signing_key(),
        multi.party().own_identity().signing_key()
    );
    let mut ledger = Ledger::new();
    let mut single = single;
    let mut multi = multi;
    let one = single.send_announce(&mut ledger).unwrap();
    let many = multi.send_announce(&mut ledger).unwrap();
    assert!(!single.party().channel().unwrap().multi_branching);
    assert!(multi.party().channel().unwrap().multi_branching);
    assert_ne!(one.appinst, many.appinst);
}

#[test]
fn notifications_reach_the_recipient() {
    let mut ledger = Ledger::new();
    let mut publisher = Publisher::new(&"PUBLISHER".to_string());
    let mut recipient = Recipient::new(&"RECIPIENT".to_string());
    assert_eq!(
        publisher
            .publish(&mut ledger, &"00".repeat(40), &"00".repeat(12), &"too early".to_string())
            .unwrap_err(),
        Error::ChannelNotFound
    );
    let (application_instance, announcement_id) = publisher.announce(&mut ledger).unwrap();
    assert_eq!(application_instance.len(), 80);
    assert_eq!(announcement_id.len(), 24);
    assert_eq!(publisher.announce(&mut ledger).unwrap(), (application_instance.clone(), announcement_id.clone()));

    assert_eq!(
        recipient.listen(&ledger, &"zz".to_string(), &announcement_id).unwrap_err(),
        Error::MalformedMessage
    );
    assert_eq!(
        recipient.listen(&ledger, &application_instance, &"00".repeat(12)).unwrap_err(),
        Error::ChannelNotFound
    );
    assert_eq!(recipient.receive(&ledger).unwrap_err(), Error::ChannelNotFound);
    recipient.listen(&ledger, &application_instance, &announcement_id).unwrap();
    assert_eq!(recipient.receive(&ledger).unwrap(), Vec::<String>::new());

    let first = publisher
        .publish(&mut ledger, &application_instance, &announcement_id, &"first".to_string())
        .unwrap();
    let second = publisher
        .publish(&mut ledger, &application_instance, &first, &"second".to_string())
        .unwrap();
    assert_ne!(first, second);
    assert_eq!(
        publisher
            .publish(&mut ledger, &application_instance, &"nothex".to_string(), &"x".to_string())
            .unwrap_err(),
        Error::MalformedMessage
    );
    assert_eq!(recipient.receive(&ledger).unwrap(), vec!["first"]);
    assert_eq!(recipient.receive(&ledger).unwrap(), vec!["second"]);
    assert_eq!(recipient.receive(&ledger).unwrap(), Vec::<String>::new());
    assert_eq!(recipient.receive(&ledger).unwrap(), Vec::<String>::new());

    let mut other = Recipient::new(&"OTHER".to_string());
    other.listen(&ledger, &application_instance, &announcement_id).unwrap();
    assert_eq!(other.receive(&ledger).unwrap(), vec!["first"]);
    assert_eq!(other.receive(&ledger).unwrap(), vec!["second"]);

    ledger.set_online(false);
    assert_eq!(publisher.announce(&mut ledger).unwrap_err(), Error::TransportError);
    assert_eq!(
        publisher
            .publish(&mut ledger, &application_instance, &second, &"third".to_string())
            .unwrap_err(),
        Error::TransportError
    );
    assert_eq!(recipient.receive(&ledger).unwrap_err(), Error::TransportError);
    ledger.set_online(true);
    assert_eq!(
        publisher.announce(&mut ledger).unwrap(),
        (application_instance.clone(), announcement_id.clone())
    );
}

#[test]
fn equal_seeds_give_equal_links() {
    let mut ledger = Ledger::new();
    let mut first = Publisher::new(&"SEED".to_string());
    let mut second = Publisher::new(&"SEED".to_string());
    let root = first.announce(&mut ledger).unwrap();
    assert_eq!(second.announce(&mut ledger).unwrap(), root);
    assert_eq!(ledger.len(), 1);
    let mut other = Ledger::new();
    assert_eq!(second.announce(&mut other).unwrap(), root);
    let one = first.publish(&mut ledger, &root.0, &root.1, &"news".to_string()).unwrap();
    let same = second.publish(&mut other, &root.0, &root.1, &"news".to_string()).unwrap();
    assert_eq!(one, same);
    assert_eq!(
        get_hash(&Link::from_str(&root.0, &one).unwrap()).len(),
        64
    );
}

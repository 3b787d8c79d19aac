use tangle_channels::access::derive_session_key;
use tangle_channels::access::find_entry;
use tangle_channels::access::keyload_payload;
use tangle_channels::access::mask;
use tangle_channels::access::read_recipient;
use tangle_channels::access::read_wrapped;
use tangle_channels::access::unmask;
use tangle_channels::author::Author;
use tangle_channels::author::MemberState;
use tangle_channels::bytes::create_payload;
use tangle_channels::delivery::Delivery;
use tangle_channels::delivery::MessageContent;
use tangle_channels::error::Error;
use tangle_channels::identity::derive_identity;
use tangle_channels::identity::unwrap_key;
use tangle_channels::link::Link;
use tangle_channels::message::decode_message;
use tangle_channels::message::Header;
use tangle_channels::message::MessageType;
use tangle_channels::subscriber::Subscriber;
use tangle_channels::subscriber::SubscriberState;
use tangle_channels::transport::Ledger;

fn masked_of(delivery: &Delivery) -> Option<Vec<u8>> {
    match &delivery.body {
        MessageContent::SignedPacket { masked_payload, .. } => masked_payload.as_ref().map(|m| m.0.clone()),
        MessageContent::TaggedPacket { masked_payload, .. } => masked_payload.as_ref().map(|m| m.0.clone()),
        _ => panic!("no packet"),
    }
}

fn public_of(delivery: &Delivery) -> Vec<u8> {
    match &delivery.body {
        MessageContent::SignedPacket { public_payload, .. } => public_payload.0.clone(),
        MessageContent::TaggedPacket { public_payload, .. } => public_payload.0.clone(),
        _ => panic!("no packet"),
    }
}

fn join(ledger: &mut Ledger, author: &mut Author, announcement: &Link, seed: &str) -> Subscriber {
    let mut subscriber = Subscriber::new(seed);
    subscriber.receive_announcement(ledger, announcement).unwrap();
    let subscription = subscriber.send_subscribe(ledger, announcement).unwrap();
    author.receive_subscribe(ledger, &subscription).unwrap();
    subscriber
}

fn header() -> Header {
    Header {
        link: Link { appinst: vec![1; 40], msgid: vec![2; 12] },
        previous_link: Some(Link { appinst: vec![1; 40], msgid: vec![3; 12] }),
        message_type: MessageType::TaggedPacket,
        sender: vec![4; 32],
    }
}

#[test]
fn who_holds_the_key_reads_the_masked_payload() {
    let key = [5u8; 32];
    let sealed = mask(&key, &header(), b"public", b"masked");
    assert_eq!(sealed.len(), 6 + 16);
    assert_ne!(&sealed[..6], b"masked");
    assert_eq!(unmask(&key, &header(), b"public", &sealed), Some(b"masked".to_vec()));
    let empty = mask(&key, &header(), b"public", b"");
    assert_eq!(empty.len(), 16);
    assert_eq!(unmask(&key, &header(), b"public", &empty), Some(vec![]));
}

#[test]
fn a_masked_payload_is_bound_to_key_message_and_public_payload() {
    let key = [5u8; 32];
    let sealed = mask(&key, &header(), b"public", b"masked");
    assert_eq!(unmask(&[6u8; 32], &header(), b"public", &sealed), None);
    assert_eq!(unmask(&key, &header(), b"Public", &sealed), None);
    let mut moved = header();
    moved.link.msgid[0] ^= 1;
    assert_eq!(unmask(&key, &moved, b"public", &sealed), None);
    let mut relinked = header();
    relinked.previous_link = Some(Link { appinst: vec![1; 40], msgid: vec![9; 12] });
    assert_eq!(unmask(&key, &relinked, b"public", &sealed), None);
    assert_eq!(unmask(&key, &header(), b"public", &sealed[..15]), None);
    assert_eq!(unmask(&key, &header(), b"public", &[]), None);
}

#[test]
fn a_keyload_has_an_entry_for_each_recipient() {
    let author = derive_identity("AUTHOR");
    let first = derive_identity("FIRST");
    let second = derive_identity("SECOND");
    let link = Link { appinst: vec![1; 40], msgid: vec![2; 12] };
    let payload =
        keyload_payload(&author, &link, &vec![first.public_identity(), second.public_identity()]).unwrap();
    assert_eq!(payload.len(), 160);
    assert_eq!(read_recipient(&payload, 0), first.signing_key().to_vec());
    assert_eq!(read_recipient(&payload, 1), second.signing_key().to_vec());
    assert_eq!(find_entry(&payload, second.signing_key()), Some(1));
    assert_eq!(find_entry(&payload, author.signing_key()), None);
    let session_key = derive_session_key(&author, &link.bytes());
    assert_eq!(session_key.len(), 32);
    for (entry, recipient) in [(0, &first), (1, &second)] {
        let wrapped = read_wrapped(&payload, entry);
        assert_eq!(
            unwrap_key(&wrapped, recipient, author.exchange_key(), &link.bytes()).unwrap(),
            session_key
        );
    }
    assert_eq!(
        unwrap_key(&read_wrapped(&payload, 0), &second, author.exchange_key(), &link.bytes())
            .unwrap_err(),
        Error::AuthenticationError
    );
    assert_eq!(keyload_payload(&author, &link, &vec![]).unwrap(), Vec::<u8>::new());
    let mut malformed = first.public_identity();
    malformed.exchange.pop();
    assert_eq!(
        keyload_payload(&author, &link, &vec![malformed]).unwrap_err(),
        Error::AuthenticationError
    );
}

#[test]
fn every_keyload_has_a_key_of_its_own() {
    let author = derive_identity("AUTHOR");
    let here = derive_session_key(&author, b"here");
    let there = derive_session_key(&author, b"there");
    let other = derive_session_key(&derive_identity("OTHER"), b"here");
    assert_ne!(here, there);
    assert_ne!(here, other);
    assert_eq!(here, derive_session_key(&author, b"here"));
}

#[test]
fn an_epoch_is_read_by_the_recipients_of_its_keyload() {
    let mut ledger = Ledger::new();
    let mut author = Author::new("AUTHOR", true);
    let announcement = author.send_announce(&mut ledger).unwrap();
    let mut early = join(&mut ledger, &mut author, &announcement, "EARLY");
    let mut both = join(&mut ledger, &mut author, &announcement, "BOTH");
    let mut late = join(&mut ledger, &mut author, &announcement, "LATE");
    let mut never = join(&mut ledger, &mut author, &announcement, "NEVER");

    let key = |subscriber: &Subscriber| subscriber.party().own_identity().signing_key().to_vec();
    let first_keyload = author
        .send_keyload_for(&mut ledger, &announcement, &vec![key(&early), key(&both)])
        .unwrap();
    let first_packet = author
        .send_signed_packet(&mut ledger, &first_keyload, &create_payload("one"), &create_payload("ONE"))
        .unwrap();
    let second_keyload = author
        .send_keyload_for(&mut ledger, &first_packet, &vec![key(&both), key(&late)])
        .unwrap();
    author
        .send_signed_packet(&mut ledger, &second_keyload, &create_payload("two"), &create_payload("TWO"))
        .unwrap();
    author
        .send_signed_packet(&mut ledger, &first_packet, &create_payload("three"), &create_payload("THREE"))
        .unwrap();

    let read = |subscriber: &mut Subscriber| -> Vec<(Vec<u8>, Option<Vec<u8>>)> {
        let (deliveries, stopped) = subscriber.fetch_all(&ledger);
        assert_eq!(stopped, None);
        assert_eq!(deliveries.len(), 5);
        deliveries
            .iter()
            .filter(|d| !matches!(d.body, MessageContent::Keyload))
            .map(|d| (public_of(d), masked_of(d)))
            .collect()
    };
    let some = |text: &str| Some(text.as_bytes().to_vec());
    assert_eq!(
        read(&mut early),
        vec![(b"one".to_vec(), some("ONE")), (b"two".to_vec(), None), (b"three".to_vec(), some("THREE"))]
    );
    assert_eq!(
        read(&mut both),
        vec![
            (b"one".to_vec(), some("ONE")),
            (b"two".to_vec(), some("TWO")),
            (b"three".to_vec(), some("THREE"))
        ]
    );
    assert_eq!(
        read(&mut late),
        vec![(b"one".to_vec(), None), (b"two".to_vec(), some("TWO")), (b"three".to_vec(), None)]
    );
    assert_eq!(
        read(&mut never),
        vec![(b"one".to_vec(), None), (b"two".to_vec(), None), (b"three".to_vec(), None)]
    );
    assert_eq!(author.member_state(&key(&early)), Some(MemberState::Active));
    assert_eq!(author.member_state(&key(&never)), Some(MemberState::Pending));

    assert_eq!(author.member_material(&key(&never)), Some(vec![]));
    assert_eq!(author.member_material(&[0u8; 32]), None);
    let first_frame = decode_message(&ledger.fetch(&first_keyload).unwrap().unwrap()).unwrap();
    let second_frame = decode_message(&ledger.fetch(&second_keyload).unwrap().unwrap()).unwrap();
    assert_eq!(author.member_material(&key(&early)), Some(read_wrapped(&first_frame.public_payload, 0)));
    assert_eq!(author.member_material(&key(&both)), Some(read_wrapped(&second_frame.public_payload, 0)));
    assert_eq!(author.member_material(&key(&late)), Some(read_wrapped(&second_frame.public_payload, 1)));
    let material = author.member_material(&key(&late)).unwrap();
    assert_eq!(
        unwrap_key(
            &material,
            late.party().own_identity(),
            author.party().own_identity().exchange_key(),
            &second_keyload.bytes()
        )
        .unwrap(),
        author.party().find_key(&second_keyload.msgid).unwrap()
    );
}

#[test]
fn a_key_from_a_side_channel_opens_the_epoch() {
    let mut ledger = Ledger::new();
    let mut author = Author::new("AUTHOR", true);
    let announcement = author.send_announce(&mut ledger).unwrap();
    let keyload = author.send_keyload_for_everyone(&mut ledger, &announcement).unwrap();
    author
        .send_signed_packet(&mut ledger, &keyload, &create_payload("public"), &create_payload("masked"))
        .unwrap();
    let session_key = author.party().find_key(&keyload.msgid).unwrap();

    let mut outsider = Subscriber::new("OUTSIDER");
    assert_eq!(outsider.install_key(&keyload.msgid, &session_key).unwrap_err(), Error::ChannelNotFound);
    outsider.receive_announcement(&ledger, &announcement).unwrap();
    assert_eq!(outsider.install_key(&keyload.msgid, &[1u8; 31]).unwrap_err(), Error::AuthenticationError);
    outsider.install_key(&keyload.msgid, &session_key).unwrap();
    let (deliveries, _) = outsider.fetch_all(&ledger);
    assert_eq!(deliveries.len(), 2);
    assert_eq!(masked_of(&deliveries[1]), Some(b"masked".to_vec()));

    let mut blind = Subscriber::new("BLIND");
    blind.receive_announcement(&ledger, &announcement).unwrap();
    let (deliveries, _) = blind.fetch_all(&ledger);
    assert_eq!(public_of(&deliveries[1]), b"public".to_vec());
    assert_eq!(masked_of(&deliveries[1]), None);

    let mut wrong = Subscriber::new("WRONG");
    wrong.receive_announcement(&ledger, &announcement).unwrap();
    wrong.install_key(&keyload.msgid, &[7u8; 32]).unwrap();
    let (deliveries, stopped) = wrong.fetch_all(&ledger);
    assert_eq!(deliveries.len(), 1);
    assert_eq!(stopped, Some(Error::AuthenticationError));
}

#[test]
fn who_has_left_gets_no_keyload() {
    let mut ledger = Ledger::new();
    let mut author = Author::new("AUTHOR", true);
    let announcement = author.send_announce(&mut ledger).unwrap();
    let mut stays = join(&mut ledger, &mut author, &announcement, "STAYS");
    let mut leaves = join(&mut ledger, &mut author, &announcement, "LEAVES");
    let leaving = leaves.party().own_identity().signing_key().to_vec();
    let staying = stays.party().own_identity().signing_key().to_vec();
    assert_eq!(author.member_count(), 2);
    assert_eq!(author.entitled_members(), vec![staying.clone(), leaving.clone()]);

    let first = author.send_keyload_for_everyone(&mut ledger, &announcement).unwrap();
    let leave = leaves.send_unsubscribe(&mut ledger).unwrap();
    assert_eq!(leaves.state(), SubscriberState::Unsubscribed);
    author.receive_unsubscribe(&ledger, &leave).unwrap();
    assert_eq!(author.member_state(&leaving), Some(MemberState::Revoked));
    assert_eq!(author.member_state(&staying), Some(MemberState::Active));
    assert_eq!(author.entitled_members(), vec![staying.clone()]);
    assert_eq!(
        author.send_keyload_for(&mut ledger, &first, &vec![leaving.clone()]).unwrap_err(),
        Error::MembershipError
    );
    assert_eq!(
        author.send_keyload_for(&mut ledger, &first, &vec![vec![0u8; 32]]).unwrap_err(),
        Error::MembershipError
    );
    let second = author.send_keyload_for_everyone(&mut ledger, &first).unwrap();
    author
        .send_signed_packet(&mut ledger, &second, &create_payload("news"), &create_payload("NEWS"))
        .unwrap();

    let (deliveries, _) = stays.fetch_all(&ledger);
    assert_eq!(masked_of(&deliveries[2]), Some(b"NEWS".to_vec()));
    let (deliveries, _) = leaves.fetch_all(&ledger);
    assert_eq!(public_of(&deliveries[2]), b"news".to_vec());
    assert_eq!(masked_of(&deliveries[2]), None);

    assert_eq!(
        leaves.send_subscribe(&mut ledger, &announcement).unwrap_err(),
        Error::MembershipError
    );
    let subscription = ledger.links().into_iter().nth(2).unwrap();
    assert_eq!(author.receive_subscribe(&ledger, &subscription).unwrap_err(), Error::MembershipError);
    assert_eq!(author.receive_unsubscribe(&ledger, &subscription).unwrap_err(), Error::MembershipError);
}

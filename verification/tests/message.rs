use tangle_channels::error::DecodeError;
use tangle_channels::error::Error;
use tangle_channels::identity::derive_identity;
use tangle_channels::link::derive_link;
use tangle_channels::link::application_instance;
use tangle_channels::link::Link;
use tangle_channels::message::decode_message;
use tangle_channels::message::encode_message;
use tangle_channels::message::Header;
use tangle_channels::message::MessageType;

fn sample_header(message_type: MessageType, seed: &str) -> Header {
    let identity = derive_identity(seed);
    let appinst = application_instance(identity.signing_key(), 0);
    let link = derive_link(&appinst, identity.signing_key(), 3, 1);
    let previous = derive_link(&appinst, identity.signing_key(), 0, 0);
    Header {
        link,
        previous_link: if message_type == MessageType::Announce { None } else { Some(previous) },
        message_type,
        sender: identity.signing_key().to_vec(),
    }
}

#[test]
fn round_trip_of_a_signed_packet() {
    let identity = derive_identity("SEED");
    let header = sample_header(MessageType::SignedPacket, "SEED");
    let frame = encode_message(&header, b"PUBLIC MESSAGE", Some(b"MASKED MESSAGE"), Some(&identity)).unwrap();
    let message = decode_message(&frame).unwrap();
    assert_eq!(message.header.link.appinst, header.link.appinst);
    assert_eq!(message.header.link.msgid, header.link.msgid);
    assert_eq!(message.header.message_type, MessageType::SignedPacket);
    assert_eq!(message.header.sender, header.sender);
    let previous: Link = message.header.previous_link.unwrap();
    assert_eq!(previous.msgid, header.previous_link.as_ref().unwrap().msgid);
    assert_eq!(message.public_payload, b"PUBLIC MESSAGE".to_vec());
    assert_eq!(message.masked_payload, b"MASKED MESSAGE".to_vec());
    assert_eq!(message.signature.unwrap().len(), 64);
    assert_eq!(frame.len(), 1 + 52 + 52 + 32 + 4 + 14 + 4 + 14 + 64);
}

#[test]
fn flipping_any_byte_of_a_signed_frame_fails_decoding() {
    let identity = derive_identity("SEED");
    let header = sample_header(MessageType::SignedPacket, "SEED");
    let frame = encode_message(&header, b"PUBLIC MESSAGE", Some(b"MASKED MESSAGE"), Some(&identity)).unwrap();
    for at in 0..frame.len() {
        let mut altered = frame.clone();
        altered[at] ^= 0x01;
        assert!(decode_message(&altered).is_err(), "byte {} was flipped unnoticed", at);
    }
}

#[test]
fn a_foreign_signer_is_refused() {
    let other = derive_identity("OTHER");
    let header = sample_header(MessageType::SignedPacket, "SEED");
    assert_eq!(encode_message(&header, b"x", None, Some(&other)).unwrap_err(), Error::AuthenticationError);
}

#[test]
fn truncated_frames_are_malformed() {
    let header = sample_header(MessageType::TaggedPacket, "SEED");
    let frame = encode_message(&header, b"public", Some(b"masked"), None).unwrap();
    assert!(decode_message(&frame).is_ok());
    for cut in 0..frame.len() {
        assert_eq!(decode_message(&frame[..cut]).unwrap_err(), DecodeError::MalformedMessage);
    }
}

#[test]
fn every_type_makes_the_round_trip() {
    let identity = derive_identity("SEED");
    let types = [
        MessageType::Announce,
        MessageType::Subscribe,
        MessageType::Unsubscribe,
        MessageType::Keyload,
        MessageType::SignedPacket,
        MessageType::TaggedPacket,
        MessageType::Sequence,
    ];
    for (tag, message_type) in types.into_iter().enumerate() {
        assert_eq!(message_type.to_tag() as usize, tag);
        assert_eq!(MessageType::from_tag(tag as u8), Some(message_type));
        let header = sample_header(message_type, "SEED");
        let signer = if message_type.is_signed() { Some(&identity) } else { None };
        let frame = encode_message(&header, b"public", None, signer).unwrap();
        assert_eq!(frame[0] as usize, tag);
        let message = decode_message(&frame).unwrap();
        assert_eq!(message.header.message_type, message_type);
        assert_eq!(message.header.previous_link.is_none(), message_type == MessageType::Announce);
        assert_eq!(message.public_payload, b"public".to_vec());
        assert_eq!(message.masked_payload, Vec::<u8>::new());
        assert_eq!(message.signature.is_some(), message_type.is_signed());
        let with_empty = encode_message(&header, b"public", Some(b""), signer).unwrap();
        assert_eq!(frame, with_empty);
    }
    assert_eq!(MessageType::from_tag(7), None);
    assert_eq!(MessageType::from_tag(255), None);
}

#[test]
fn what_cannot_be_framed_is_malformed() {
    let identity = derive_identity("SEED");
    let good = sample_header(MessageType::SignedPacket, "SEED");
    assert!(good.is_well_formed());
    assert_eq!(encode_message(&good, b"", None, None).unwrap_err(), Error::MalformedMessage);
    let unsigned = sample_header(MessageType::TaggedPacket, "SEED");
    assert_eq!(
        encode_message(&unsigned, b"", None, Some(&identity)).unwrap_err(),
        Error::MalformedMessage
    );
    let mut no_previous = sample_header(MessageType::SignedPacket, "SEED");
    no_previous.previous_link = None;
    assert!(!no_previous.is_well_formed());
    assert_eq!(
        encode_message(&no_previous, b"", None, Some(&identity)).unwrap_err(),
        Error::MalformedMessage
    );
    let mut rooted = sample_header(MessageType::Announce, "SEED");
    rooted.previous_link = Some(good.link.clone());
    assert_eq!(
        encode_message(&rooted, b"", None, Some(&identity)).unwrap_err(),
        Error::MalformedMessage
    );
    let mut short_sender = sample_header(MessageType::SignedPacket, "SEED");
    short_sender.sender.pop();
    assert_eq!(
        encode_message(&short_sender, b"", None, Some(&identity)).unwrap_err(),
        Error::MalformedMessage
    );
    let mut long_link = sample_header(MessageType::SignedPacket, "SEED");
    long_link.link.msgid.push(0);
    assert_eq!(
        encode_message(&long_link, b"", None, Some(&identity)).unwrap_err(),
        Error::MalformedMessage
    );
}

#[test]
fn frames_with_bytes_too_many_or_of_no_type_are_malformed() {
    let header = sample_header(MessageType::Keyload, "SEED");
    let frame = encode_message(&header, b"public", Some(b"masked"), None).unwrap();
    let mut longer = frame.clone();
    longer.push(0);
    assert_eq!(decode_message(&longer).unwrap_err(), DecodeError::MalformedMessage);
    let mut typeless = frame.clone();
    typeless[0] = 7;
    assert_eq!(decode_message(&typeless).unwrap_err(), DecodeError::MalformedMessage);
    let mut signed = frame.clone();
    signed[0] = 4;
    assert_eq!(decode_message(&signed).unwrap_err(), DecodeError::MalformedMessage);
    signed.extend_from_slice(&[0u8; 64]);
    assert_eq!(decode_message(&signed).unwrap_err(), DecodeError::SignatureInvalid);
    assert_eq!(Error::from_decode(DecodeError::SignatureInvalid), Error::SignatureInvalid);
    assert_eq!(Error::from_decode(DecodeError::MalformedMessage), Error::MalformedMessage);
}

#[test]
fn errors_have_their_names() {
    assert_eq!(Error::TransportError.name(), "TransportError");
    assert_eq!(Error::AuthenticationError.name(), "AuthenticationError");
    assert_eq!(Error::SignatureInvalid.name(), "SignatureInvalid");
    assert_eq!(Error::MalformedMessage.name(), "MalformedMessage");
    assert_eq!(Error::MembershipError.name(), "MembershipError");
    assert_eq!(Error::AmbiguousLink.name(), "AmbiguousLink");
    assert_eq!(Error::ChannelNotFound.name(), "ChannelNotFound");
    assert_eq!(Error::InvalidAnnouncement.name(), "InvalidAnnouncement");
}

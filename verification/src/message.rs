//! The message envelope: what a message holds, the frame it travels in, and
//! the reading of frames.
//!
//! A frame is, in this order: one byte for the type of the message; the link
//! of the message; for every type but the announcement the link of the
//! message it is linked to; the signing key of the sender; the public
//! payload and the masked payload, each behind its length in four bytes,
//! least significant first; and for the signed types the signature, which
//! covers every byte before it.

use crate::bytes::append;
use crate::bytes::copy_of;
use crate::bytes::part_of;
use crate::bytes::same_bytes;
use crate::error::DecodeError;
use crate::error::Error;
use crate::identity::Identity;
use crate::link::APPINST_LEN;
use crate::link::LINK_LEN;
use crate::link::Link;
use crate::link::LinkView;
use crate::primitives::KEY_LEN;
use crate::primitives::SIGNATURE_LEN;
use crate::primitives::ed25519_accepts;
use crate::primitives::ed25519_signature;
use crate::primitives::sign;
use crate::primitives::verify;
use vstd::bytes::lemma_auto_spec_u32_to_from_le_bytes;
use vstd::bytes::spec_u32_from_le_bytes;
use vstd::bytes::spec_u32_to_le_bytes;
use vstd::bytes::u32_from_le_bytes;
use vstd::bytes::u32_to_le_bytes;
use vstd::prelude::*;
use vstd::slice::slice_subrange;

verus! {
/// The kinds of message of a channel.
#[derive(Clone, Copy, Debug, PartialEq, Eq, Structural)]
pub enum MessageType {
    /// The root of a channel: it carries the author's keys and the branching mode.
    Announce,
    /// A subscriber asks to be admitted.
    Subscribe,
    /// A subscriber leaves.
    Unsubscribe,
    /// The author hands a fresh session key to chosen recipients.
    Keyload,
    /// A packet that its publisher signed.
    SignedPacket,
    /// A packet without a signature, the work of someone who holds the session key.
    TaggedPacket,
    /// A record of which branch advanced.
    Sequence,
}

impl MessageType {
    /// The byte that stands for the type in a frame.
    pub open spec fn tag(self) -> u8 {
        match self {
            MessageType::Announce => 0,
            MessageType::Subscribe => 1,
            MessageType::Unsubscribe => 2,
            MessageType::Keyload => 3,
            MessageType::SignedPacket => 4,
            MessageType::TaggedPacket => 5,
            MessageType::Sequence => 6,
        }
    }

    /// The type that a byte of a frame stands for.
    pub open spec fn of_tag(tag: u8) -> Option<MessageType> {
        if tag == 0 {
            Some(MessageType::Announce)
        } else if tag == 1 {
            Some(MessageType::Subscribe)
        } else if tag == 2 {
            Some(MessageType::Unsubscribe)
        } else if tag == 3 {
            Some(MessageType::Keyload)
        } else if tag == 4 {
            Some(MessageType::SignedPacket)
        } else if tag == 5 {
            Some(MessageType::TaggedPacket)
        } else if tag == 6 {
            Some(MessageType::Sequence)
        } else {
            None
        }
    }

    /// Whether messages of the type carry a signature of their sender.
    pub open spec fn signed(self) -> bool {
        self is Announce || self is Subscribe || self is Unsubscribe || self is SignedPacket
    }

    /// Whether messages of the type are sequenced into the branches of a
    /// channel: all but the announcement and the coming and going of subscribers.
    pub open spec fn sequenced(self) -> bool {
        self is Keyload || self is SignedPacket || self is TaggedPacket || self is Sequence
    }

    /// Whether messages of the type are packets: they carry payloads for readers.
    pub open spec fn packet(self) -> bool {
        self is SignedPacket || self is TaggedPacket
    }

    /// Whether messages of the type are sequenced into branches.
    pub fn is_sequenced(self) -> (sequenced: bool)
        ensures
            sequenced == self.sequenced(),
    {
        match self {
            MessageType::Keyload => true,
            MessageType::SignedPacket => true,
            MessageType::TaggedPacket => true,
            MessageType::Sequence => true,
            _ => false,
        }
    }

    /// Whether messages of the type are packets.
    pub fn is_packet(self) -> (packet: bool)
        ensures
            packet == self.packet(),
    {
        match self {
            MessageType::SignedPacket => true,
            MessageType::TaggedPacket => true,
            _ => false,
        }
    }

    /// The byte that stands for the type in a frame.
    pub fn to_tag(self) -> (tag: u8)
        ensures
            tag == self.tag(),
    {
        match self {
            MessageType::Announce => 0,
            MessageType::Subscribe => 1,
            MessageType::Unsubscribe => 2,
            MessageType::Keyload => 3,
            MessageType::SignedPacket => 4,
            MessageType::TaggedPacket => 5,
            MessageType::Sequence => 6,
        }
    }

    /// The type that a byte of a frame stands for.
    pub fn from_tag(tag: u8) -> (message_type: Option<MessageType>)
        ensures
            message_type == MessageType::of_tag(tag),
    {
        match tag {
            0 => Some(MessageType::Announce),
            1 => Some(MessageType::Subscribe),
            2 => Some(MessageType::Unsubscribe),
            3 => Some(MessageType::Keyload),
            4 => Some(MessageType::SignedPacket),
            5 => Some(MessageType::TaggedPacket),
            6 => Some(MessageType::Sequence),
            _ => None,
        }
    }

    /// Whether messages of the type carry a signature of their sender.
    pub fn is_signed(self) -> (signed: bool)
        ensures
            signed == self.signed(),
    {
        match self {
            MessageType::Announce => true,
            MessageType::Subscribe => true,
            MessageType::Unsubscribe => true,
            MessageType::Keyload => false,
            MessageType::SignedPacket => true,
            MessageType::TaggedPacket => false,
            MessageType::Sequence => false,
        }
    }
}

/// What stands in front of the payloads of a message.
#[derive(Debug)]
pub struct Header {
    /// Where the message is.
    pub link: Link,
    /// The message that this one is linked to; none for an announcement only.
    pub previous_link: Option<Link>,
    /// The kind of message.
    pub message_type: MessageType,
    /// The signing key of the sender.
    pub sender: Vec<u8>,
}

/// A header as a mathematical value.
pub struct HeaderView {
    pub link: LinkView,
    pub previous_link: Option<LinkView>,
    pub message_type: MessageType,
    pub sender: Seq<u8>,
}

/// The view of a link that may be absent.
pub open spec fn view_of_link(link: Option<Link>) -> Option<LinkView> {
    match link {
        Some(l) => Some(l@),
        None => None,
    }
}

/// The view of bytes that may be absent.
pub open spec fn view_of_bytes(bytes: Option<Vec<u8>>) -> Option<Seq<u8>> {
    match bytes {
        Some(b) => Some(b@),
        None => None,
    }
}

impl View for Header {
    type V = HeaderView;

    open spec fn view(&self) -> HeaderView {
        HeaderView {
            link: self.link@,
            previous_link: view_of_link(self.previous_link),
            message_type: self.message_type,
            sender: self.sender@,
        }
    }
}

impl HeaderView {
    /// The links and the key have their lengths, and the header names a
    /// previous message unless it is that of an announcement.
    pub open spec fn wf(self) -> bool {
        &&& self.link.wf()
        &&& self.sender.len() == KEY_LEN
        &&& self.previous_link is None <==> self.message_type is Announce
        &&& self.previous_link matches Some(previous) ==> previous.wf()
    }

    /// The bytes of the link to the previous message, if there is one.
    pub open spec fn previous_bytes(self) -> Seq<u8> {
        match self.previous_link {
            Some(previous) => previous.bytes(),
            None => Seq::empty(),
        }
    }

    /// The header as it stands in a frame.
    pub open spec fn bytes(self) -> Seq<u8> {
        seq![self.message_type.tag()] + self.link.bytes() + self.previous_bytes() + self.sender
    }
}

/// One message of a channel. Once published it never changes.
#[derive(Debug)]
pub struct Message {
    pub header: Header,
    /// Bytes that everyone who fetches the message can read.
    pub public_payload: Vec<u8>,
    /// Bytes sealed under the session key of the message's epoch; empty when absent.
    pub masked_payload: Vec<u8>,
    /// The sender's signature over everything before it, on the signed types.
    pub signature: Option<Vec<u8>>,
}

/// A message as a mathematical value.
pub struct MessageView {
    pub header: HeaderView,
    pub public_payload: Seq<u8>,
    pub masked_payload: Seq<u8>,
    pub signature: Option<Seq<u8>>,
}

impl View for Message {
    type V = MessageView;

    open spec fn view(&self) -> MessageView {
        MessageView {
            header: self.header@,
            public_payload: self.public_payload@,
            masked_payload: self.masked_payload@,
            signature: view_of_bytes(self.signature),
        }
    }
}

/// A payload behind its length.
pub open spec fn sized(payload: Seq<u8>) -> Seq<u8> {
    spec_u32_to_le_bytes(payload.len() as u32) + payload
}

/// What a signature covers: the header and both payloads.
pub open spec fn content_bytes(
    header: HeaderView,
    public_payload: Seq<u8>,
    masked_payload: Seq<u8>,
) -> Seq<u8> {
    header.bytes() + sized(public_payload) + sized(masked_payload)
}

impl MessageView {
    /// The header is well formed, the payloads fit their length fields, and
    /// the message carries a signature of 64 bytes exactly if its type is signed.
    pub open spec fn wf(self) -> bool {
        &&& self.header.wf()
        &&& self.public_payload.len() <= u32::MAX
        &&& self.masked_payload.len() <= u32::MAX
        &&& self.signature is Some <==> self.header.message_type.signed()
        &&& self.signature matches Some(signature) ==> signature.len() == SIGNATURE_LEN
    }

    /// What the signature covers.
    pub open spec fn content(self) -> Seq<u8> {
        content_bytes(self.header, self.public_payload, self.masked_payload)
    }

    /// The bytes of the signature, if there is one.
    pub open spec fn signature_bytes(self) -> Seq<u8> {
        match self.signature {
            Some(signature) => signature,
            None => Seq::empty(),
        }
    }

    /// The frame of the message.
    pub open spec fn frame(self) -> Seq<u8> {
        self.content() + self.signature_bytes()
    }

    /// Whether the signature, if the type asks for one, verifies under the
    /// key of the sender that the header names.
    pub open spec fn authentic(self) -> bool {
        self.signature matches Some(signature) ==> ed25519_accepts(
            self.header.sender,
            self.content(),
            signature,
        )
    }
}

/// Length of the header of a message of a type.
pub open spec fn header_len(message_type: MessageType) -> int {
    if message_type is Announce {
        1 + LINK_LEN + KEY_LEN
    } else {
        1 + LINK_LEN + LINK_LEN + KEY_LEN
    }
}

/// Length of the signature of a message of a type.
pub open spec fn signature_len(message_type: MessageType) -> int {
    if message_type.signed() {
        SIGNATURE_LEN as int
    } else {
        0
    }
}

/// The link that stands at `at` in `bytes`.
pub open spec fn link_at(bytes: Seq<u8>, at: int) -> LinkView {
    LinkView {
        appinst: bytes.subrange(at, at + APPINST_LEN),
        msgid: bytes.subrange(at + APPINST_LEN, at + LINK_LEN),
    }
}

/// The length that stands at `at` in `bytes`.
pub open spec fn length_at(bytes: Seq<u8>, at: int) -> int {
    spec_u32_from_le_bytes(bytes.subrange(at, at + 4)) as int
}

/// The message that the framing of `bytes` gives, whatever its signature is
/// worth; nothing where the bytes are no frame.
pub open spec fn parse(bytes: Seq<u8>) -> Option<MessageView> {
    if bytes.len() < 1 {
        None
    } else {
        match MessageType::of_tag(bytes[0]) {
            None => None,
            Some(message_type) => {
                let payloads = header_len(message_type);
                if bytes.len() < payloads + 4 {
                    None
                } else {
                    let public_end = payloads + 4 + length_at(bytes, payloads);
                    if bytes.len() < public_end + 4 {
                        None
                    } else {
                        let masked_end = public_end + 4 + length_at(bytes, public_end);
                        if bytes.len() != masked_end + signature_len(message_type) {
                            None
                        } else {
                            Some(
                                MessageView {
                                    header: HeaderView {
                                        link: link_at(bytes, 1),
                                        previous_link: if message_type is Announce {
                                            None
                                        } else {
                                            Some(link_at(bytes, 1 + LINK_LEN))
                                        },
                                        message_type,
                                        sender: bytes.subrange(payloads - KEY_LEN, payloads),
                                    },
                                    public_payload: bytes.subrange(payloads + 4, public_end),
                                    masked_payload: bytes.subrange(public_end + 4, masked_end),
                                    signature: if message_type.signed() {
                                        Some(bytes.subrange(masked_end, bytes.len() as int))
                                    } else {
                                        None
                                    },
                                },
                            )
                        }
                    }
                }
            },
        }
    }
}

/// The message that `bytes` are the frame of: the framing has to be right,
/// and the signature of a signed message has to verify under the key of the
/// sender it names.
pub open spec fn decoded(bytes: Seq<u8>) -> Result<MessageView, DecodeError> {
    match parse(bytes) {
        None => Err(DecodeError::MalformedMessage),
        Some(message) => if message.authentic() {
            Ok(message)
        } else {
            Err(DecodeError::SignatureInvalid)
        },
    }
}

/// Whether a header, two payloads and the presence of a signing key can be
/// put into a frame.
pub open spec fn encodable(
    header: HeaderView,
    public_payload: Seq<u8>,
    masked_payload: Seq<u8>,
    signing: bool,
) -> bool {
    &&& header.wf()
    &&& public_payload.len() <= u32::MAX
    &&& masked_payload.len() <= u32::MAX
    &&& signing == header.message_type.signed()
}

/// The message that encoding puts into a frame: the signature, if a key is
/// given, is the one that the key makes on the content.
pub open spec fn encoded(
    header: HeaderView,
    public_payload: Seq<u8>,
    masked_payload: Seq<u8>,
    signing_secret: Option<Seq<u8>>,
) -> MessageView {
    MessageView {
        header,
        public_payload,
        masked_payload,
        signature: match signing_secret {
            Some(secret) => Some(
                ed25519_signature(secret, content_bytes(header, public_payload, masked_payload)),
            ),
            None => None,
        },
    }
}

/// The masked payload that is given, or the empty one.
pub open spec fn masked_or_empty(masked_payload: Option<&[u8]>) -> Seq<u8> {
    match masked_payload {
        Some(masked) => masked@,
        None => Seq::empty(),
    }
}

/// The secret signing key of the identity that is given, if one is.
pub open spec fn secret_of_signer(signing_key: Option<&Identity>) -> Option<Seq<u8>> {
    match signing_key {
        Some(identity) => Some(identity.signing_secret()),
        None => None,
    }
}

/// Whether the identity that is given, if one is, signs with the key that
/// the header names as the sender's.
pub open spec fn signer_is_sender(header: HeaderView, signing_key: Option<&Identity>) -> bool {
    signing_key matches Some(identity) ==> identity.public().signing == header.sender
}

impl Header {
    /// Whether the header is well formed.
    pub fn is_well_formed(&self) -> (well_formed: bool)
        ensures
            well_formed == self@.wf(),
    {
        let previous_fits = match &self.previous_link {
            Some(previous) => previous.is_well_formed() && !matches!(
                self.message_type,
                MessageType::Announce
            ),
            None => matches!(self.message_type, MessageType::Announce),
        };
        self.link.is_well_formed() && self.sender.len() == KEY_LEN && previous_fits
    }

    /// The header as it stands in a frame.
    pub fn bytes(&self) -> (bytes: Vec<u8>)
        ensures
            bytes@ == self@.bytes(),
    {
        let mut bytes: Vec<u8> = Vec::new();
        bytes.push(self.message_type.to_tag());
        append(&mut bytes, self.link.appinst.as_slice());
        append(&mut bytes, self.link.msgid.as_slice());
        match &self.previous_link {
            Some(previous) => {
                append(&mut bytes, previous.appinst.as_slice());
                append(&mut bytes, previous.msgid.as_slice());
            },
            None => {},
        }
        append(&mut bytes, self.sender.as_slice());
        bytes
    }
}

impl Clone for Header {
    fn clone(&self) -> (copy: Self)
        ensures
            copy@ == self@,
    {
        Header {
            link: self.link.clone(),
            previous_link: match &self.previous_link {
                Some(previous) => Some(previous.clone()),
                None => None,
            },
            message_type: self.message_type,
            sender: copy_of(self.sender.as_slice()),
        }
    }
}

impl Clone for Message {
    fn clone(&self) -> (copy: Self)
        ensures
            copy@ == self@,
    {
        Message {
            header: self.header.clone(),
            public_payload: copy_of(self.public_payload.as_slice()),
            masked_payload: copy_of(self.masked_payload.as_slice()),
            signature: match &self.signature {
                Some(signature) => Some(copy_of(signature.as_slice())),
                None => None,
            },
        }
    }
}

/// Appends a payload behind its length.
fn append_sized(target: &mut Vec<u8>, payload: &[u8])
    requires
        payload@.len() <= u32::MAX,
    ensures
        final(target)@ == old(target)@ + sized(payload@),
{
    let length = u32_to_le_bytes(payload.len() as u32);
    append(target, length.as_slice());
    append(target, payload);
}

/// Puts a message into its frame. A masked payload that is absent is the
/// empty one. The signed types take the identity of the sender and get its
/// signature over header and payloads; the other types take none.
///
/// What cannot be framed is refused as malformed: a header that is not well
/// formed, a payload of more than `u32::MAX` bytes, an identity for an
/// unsigned type or none for a signed one. An identity that is not the
/// sender's is refused as unauthentic. Everything else is encoded, and the
/// frame decodes to the message that was put into it.
pub fn encode_message(
    header: &Header,
    public_payload: &[u8],
    masked_payload: Option<&[u8]>,
    signing_key: Option<&Identity>,
) -> (frame: Result<Vec<u8>, Error>)
    ensures
        match frame {
            Ok(bytes) => {
                let message = encoded(
                    header@,
                    public_payload@,
                    masked_or_empty(masked_payload),
                    secret_of_signer(signing_key),
                );
                &&& encodable(
                    header@,
                    public_payload@,
                    masked_or_empty(masked_payload),
                    signing_key is Some,
                )
                &&& signer_is_sender(header@, signing_key)
                &&& message.wf()
                &&& bytes@ == message.frame()
                &&& decoded(bytes@) == Ok::<MessageView, DecodeError>(message)
            },
            Err(error) => {
                if encodable(
                    header@,
                    public_payload@,
                    masked_or_empty(masked_payload),
                    signing_key is Some,
                ) {
                    error == Error::AuthenticationError && !signer_is_sender(header@, signing_key)
                } else {
                    error == Error::MalformedMessage
                }
            },
        },
{
    let empty: Vec<u8> = Vec::new();
    let masked: &[u8] = match masked_payload {
        Some(masked) => masked,
        None => empty.as_slice(),
    };
    if !header.is_well_formed() || public_payload.len() > u32::MAX as usize || masked.len()
        > u32::MAX as usize || signing_key.is_some() != header.message_type.is_signed() {
        return Err(Error::MalformedMessage);
    }
    let mut bytes = header.bytes();
    append_sized(&mut bytes, public_payload);
    append_sized(&mut bytes, masked);
    match signing_key {
        Some(identity) => {
            if !same_bytes(identity.signing_key(), header.sender.as_slice()) {
                return Err(Error::AuthenticationError);
            }
            let signature = sign(identity.signing_secret_key(), bytes.as_slice());
            append(&mut bytes, signature.as_slice());
        },
        None => {},
    }
    proof {
        let message = encoded(header@, public_payload@, masked@, secret_of_signer(signing_key));
        lemma_decode_frame(message);
    }
    Ok(bytes)
}

/// The link that stands at `at` in `bytes`.
fn read_link(bytes: &[u8], at: usize) -> (link: Link)
    requires
        at + LINK_LEN <= bytes@.len(),
    ensures
        link@ == link_at(bytes@, at as int),
{
    let total = bytes.len();
    Link {
        appinst: part_of(bytes, at, at + APPINST_LEN),
        msgid: part_of(bytes, at + APPINST_LEN, at + LINK_LEN),
    }
}

/// The length that stands at `at` in `bytes`.
fn read_length(bytes: &[u8], at: usize) -> (length: usize)
    requires
        at + 4 <= bytes@.len(),
    ensures
        length == length_at(bytes@, at as int),
{
    let total = bytes.len();
    u32_from_le_bytes(slice_subrange(bytes, at, at + 4)) as usize
}

/// Reads the framing of `bytes`; the signature is taken as it stands.
fn parse_frame(bytes: &[u8]) -> (message: Option<Message>)
    ensures
        match message {
            Some(m) => parse(bytes@) == Some(m@),
            None => parse(bytes@) is None,
        },
{
    if bytes.len() < 1 {
        return None;
    }
    let message_type = match MessageType::from_tag(bytes[0]) {
        Some(message_type) => message_type,
        None => {
            return None;
        },
    };
    let announce = matches!(message_type, MessageType::Announce);
    let payloads: usize = if announce {
        1 + LINK_LEN + KEY_LEN
    } else {
        1 + LINK_LEN + LINK_LEN + KEY_LEN
    };
    if bytes.len() < payloads + 4 {
        return None;
    }
    let public_len = read_length(bytes, payloads);
    let after_public = bytes.len() - payloads - 4;
    if after_public < public_len || after_public - public_len < 4 {
        return None;
    }
    let public_end: usize = payloads + 4 + public_len;
    let masked_len = read_length(bytes, public_end);
    let after_masked = bytes.len() - public_end - 4;
    let signed = message_type.is_signed();
    let signature_length: usize = if signed {
        SIGNATURE_LEN
    } else {
        0
    };
    if after_masked < masked_len || after_masked - masked_len != signature_length {
        return None;
    }
    let masked_end: usize = public_end + 4 + masked_len;
    let header = Header {
        link: read_link(bytes, 1),
        previous_link: if announce {
            None
        } else {
            Some(read_link(bytes, 1 + LINK_LEN))
        },
        message_type,
        sender: part_of(bytes, payloads - KEY_LEN, payloads),
    };
    Some(
        Message {
            header,
            public_payload: part_of(bytes, payloads + 4, public_end),
            masked_payload: part_of(bytes, public_end + 4, masked_end),
            signature: if signed {
                Some(part_of(bytes, masked_end, bytes.len()))
            } else {
                None
            },
        },
    )
}

/// Reads a frame. Bytes that are no frame (cut short, too long, of an
/// unknown type) are malformed; a frame of a signed type whose signature
/// does not verify under the key of the sender it names is refused as such;
/// every other frame gives its message.
pub fn decode_message(bytes: &[u8]) -> (message: Result<Message, DecodeError>)
    ensures
        match message {
            Ok(m) => decoded(bytes@) == Ok::<MessageView, DecodeError>(m@),
            Err(error) => decoded(bytes@) == Err::<MessageView, DecodeError>(error),
        },
{
    match parse_frame(bytes) {
        None => Err(DecodeError::MalformedMessage),
        Some(message) => {
            proof {
                lemma_frame_parse(bytes@);
            }
            let accepted = match &message.signature {
                Some(signature) => verify(
                    message.header.sender.as_slice(),
                    slice_subrange(bytes, 0, bytes.len() - SIGNATURE_LEN),
                    signature.as_slice(),
                ),
                None => true,
            };
            if accepted {
                Ok(message)
            } else {
                Err(DecodeError::SignatureInvalid)
            }
        },
    }
}

/// The frame of a well-formed message parses as that message.
pub proof fn lemma_parse_frame(message: MessageView)
    requires
        message.wf(),
    ensures
        parse(message.frame()) == Some(message),
{
    lemma_auto_spec_u32_to_from_le_bytes();
    let bytes = message.frame();
    let header = message.header;
    let message_type = header.message_type;
    let payloads = header_len(message_type);
    let head = header.bytes();
    let public_len = spec_u32_to_le_bytes(message.public_payload.len() as u32);
    let masked_len = spec_u32_to_le_bytes(message.masked_payload.len() as u32);
    let public_end = payloads + 4 + message.public_payload.len();
    assert(bytes =~= head + public_len + message.public_payload + masked_len
        + message.masked_payload + message.signature_bytes());
    assert(bytes.subrange(payloads, payloads + 4) =~= public_len);
    assert(bytes.subrange(public_end, public_end + 4) =~= masked_len);
    let parsed = parse(bytes).unwrap();
    assert(parsed.header.link.appinst =~= header.link.appinst);
    assert(parsed.header.link.msgid =~= header.link.msgid);
    assert(parsed.header.sender =~= header.sender);
    assert(parsed.public_payload =~= message.public_payload);
    assert(parsed.masked_payload =~= message.masked_payload);
    match header.previous_link {
        Some(previous) => {
            let found = parsed.header.previous_link.unwrap();
            assert(found.appinst =~= previous.appinst);
            assert(found.msgid =~= previous.msgid);
        },
        None => {},
    }
    match message.signature {
        Some(signature) => {
            assert(parsed.signature.unwrap() =~= signature);
        },
        None => {},
    }
}

/// Bytes that parse as a message are the frame of that message, and of no
/// other: the message is well formed, and writing it out gives the bytes back.
pub proof fn lemma_frame_parse(bytes: Seq<u8>)
    requires
        parse(bytes) is Some,
    ensures
        parse(bytes).unwrap().wf(),
        parse(bytes).unwrap().frame() == bytes,
        parse(bytes).unwrap().content() == bytes.subrange(
            0,
            bytes.len() - signature_len(parse(bytes).unwrap().header.message_type),
        ),
{
    lemma_auto_spec_u32_to_from_le_bytes();
    let message = parse(bytes).unwrap();
    let message_type = message.header.message_type;
    let payloads = header_len(message_type);
    let public_end = payloads + 4 + length_at(bytes, payloads);
    assert(spec_u32_to_le_bytes(message.public_payload.len() as u32) == bytes.subrange(
        payloads,
        payloads + 4,
    ));
    assert(spec_u32_to_le_bytes(message.masked_payload.len() as u32) == bytes.subrange(
        public_end,
        public_end + 4,
    ));
}

/// Round trip: the frame of a well-formed message whose signature verifies
/// decodes to that message.
pub proof fn lemma_decode_frame(message: MessageView)
    requires
        message.wf(),
        message.authentic(),
    ensures
        decoded(message.frame()) == Ok::<MessageView, DecodeError>(message),
{
    lemma_parse_frame(message);
}

/// What decoding accepts carries a signature that verifies over exactly the
/// bytes of the frame in front of it: bytes that differ from an accepted
/// frame anywhere decode, if at all, to another message, whose signature
/// verifies over the altered bytes.
pub proof fn lemma_decoded_is_authentic(bytes: Seq<u8>)
    requires
        decoded(bytes) is Ok,
    ensures
        decoded(bytes).unwrap().wf(),
        decoded(bytes).unwrap().frame() == bytes,
        decoded(bytes).unwrap().authentic(),
        forall|other: Seq<u8>| #[trigger]
            decoded(other) == decoded(bytes) ==> other == bytes,
{
    lemma_frame_parse(bytes);
    assert forall|other: Seq<u8>| #[trigger] decoded(other) == decoded(bytes) implies other
        == bytes by {
        lemma_frame_parse(other);
    }
}
} // verus!

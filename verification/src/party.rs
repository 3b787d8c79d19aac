//! What author and subscribers have in common: a party of a channel, which
//! takes in the messages of the channel and publishes its own.

use crate::access::ENTRY_LEN;
use crate::access::channel_open_key;
use crate::access::entry_count;
use crate::access::entry_for;
use crate::access::entry_recipient;
use crate::access::find_entry;
use crate::access::is_keyload_payload;
use crate::access::lemma_entry_first;
use crate::access::lemma_entry_stays;
use crate::access::mask;
use crate::access::masked;
use crate::access::read_recipient;
use crate::access::read_wrapped;
use crate::access::unmask;
use crate::bytes::Bytes;
use crate::bytes::copy_of;
use crate::bytes::same_bytes;
use crate::delivery::Delivery;
use crate::delivery::MessageContent;
use crate::delivery::content_of;
use crate::error::DecodeError;
use crate::error::Error;
use crate::identity::Identity;
use crate::identity::unwrap_key;
use crate::link::LANE_BRANCH;
use crate::link::Link;
use crate::link::LinkView;
use crate::link::derive_link;
use crate::message::Header;
use crate::message::Message;
use crate::message::MessageType;
use crate::message::MessageView;
use crate::message::decode_message;
use crate::message::decoded;
use crate::message::encode_message;
use crate::message::lemma_frame_parse;
use crate::message::view_of_bytes;
use crate::primitives::KEY_LEN;
use crate::primitives::TAG_LEN;
use crate::state::Channel;
use crate::state::ChannelView;
use crate::state::Cursor;
use crate::state::EpochKey;
use crate::state::PartyView;
use crate::state::Seen;
use crate::state::brought_by;
use crate::state::key_among;
use crate::state::lemma_deliveries_bounded;
use crate::state::lemma_key_stays;
use crate::state::recipient_of;
use crate::state::scan_start;
use crate::state::told;
use crate::transport::Ledger;
use crate::transport::published;
use vstd::prelude::*;

verus! {
/// A message that is ready to be published: its frame and the link at which
/// it has to stand.
#[derive(Debug)]
pub struct Outgoing {
    pub link: Link,
    pub frame: Vec<u8>,
}

/// What a party has found out about a frame before it takes the message in.
struct Examined {
    message: Message,
    branch: usize,
    slot: u64,
    parent: Option<usize>,
    epoch: Option<Vec<u8>>,
    plain: Option<Vec<u8>>,
    handed: Option<Vec<u8>>,
}

impl Examined {
    /// Whether this is what `party` finds out about the frame at `link`.
    spec fn of(self, party: PartyView, link: LinkView, frame: Seq<u8>, own: bool) -> bool {
        &&& decoded(frame) == Ok::<MessageView, DecodeError>(self.message@)
        &&& self.fits(party, link, own)
    }

    /// Whether this is what `party` finds out about the message at `link`.
    spec fn fits(self, party: PartyView, link: LinkView, own: bool) -> bool {
        let message = self.message@;
        &&& message.wf()
        &&& party.on_the_way(link, message)
        &&& party.knows(message.header.sender)
        &&& self.branch == party.branch_of(message.header.sender)
        &&& self.branch < party.cursors.len()
        &&& party.slot_of(self.branch as int) < u64::MAX
        &&& self.slot == party.slot_of(self.branch as int) + 1
        &&& link == party.next_link(message.header.sender)
        &&& !party.reachable(link.msgid)
        &&& party.reachable(message.header.previous_link.unwrap().msgid)
        &&& self.parent == party.parent_of(message.header.previous_link.unwrap().msgid)
        &&& self.parent matches Some(parent) ==> parent < party.seen.len()
        &&& party.msgid_at(self.parent) == message.header.previous_link.unwrap().msgid
        &&& view_of_bytes(self.epoch) == party.epoch_of(message)
        &&& view_of_bytes(self.plain) == party.reading(message)
        &&& view_of_bytes(self.handed) == party.handed_key(message, own)
        &&& self.handed matches Some(key) ==> key@.len() == KEY_LEN
        &&& message.header.message_type is Keyload ==> is_keyload_payload(message.public_payload)
    }
}

/// A party of a channel: its identity and what it keeps of the channel.
pub struct Party {
    identity: Identity,
    channel: Option<Channel>,
    cursors: Vec<Cursor>,
    shared_slot: u64,
    keys: Vec<EpochKey>,
    seen: Vec<Seen>,
}

/// The view of a channel that may be absent.
pub open spec fn view_of_channel(channel: Option<Channel>) -> Option<ChannelView> {
    match channel {
        Some(c) => Some(c@),
        None => None,
    }
}

impl View for Party {
    type V = PartyView;

    closed spec fn view(&self) -> PartyView {
        PartyView {
            public: self.identity.public(),
            signing_secret: self.identity.signing_secret(),
            exchange_secret: self.identity.exchange_secret(),
            channel: view_of_channel(self.channel),
            cursors: self.cursors@,
            shared_slot: self.shared_slot,
            keys: self.keys@,
            seen: self.seen@,
        }
    }
}

impl Party {
    /// The invariant of the state.
    pub open spec fn wf(&self) -> bool {
        self@.wf()
    }

    /// The identity of the party, as far as the contracts speak of it.
    pub closed spec fn identity(&self) -> Identity {
        self.identity
    }

    /// A party with an identity and no channel.
    pub(crate) fn new(identity: Identity) -> (party: Party)
        ensures
            party.wf(),
            party@.channel is None,
            party@.public == identity.public(),
            party@.signing_secret == identity.signing_secret(),
            party@.exchange_secret == identity.exchange_secret(),
            party.identity() == identity,
    {
        let _ = identity.signing_key();
        Party {
            identity,
            channel: None,
            cursors: Vec::new(),
            shared_slot: 0,
            keys: Vec::new(),
            seen: Vec::new(),
        }
    }

    /// Takes up a channel: the party knows the author and nothing else yet.
    pub(crate) fn join(&mut self, channel: Channel)
        requires
            old(self).wf(),
            old(self)@.channel is None,
            channel@.wf(),
        ensures
            final(self).wf(),
            final(self)@.channel == Some(channel@),
            final(self)@.public == old(self)@.public,
            final(self)@.signing_secret == old(self)@.signing_secret,
            final(self)@.exchange_secret == old(self)@.exchange_secret,
            final(self).identity() == old(self).identity(),
            final(self)@.seen.len() == 0,
            final(self)@.keys.len() == 0,
            final(self)@.shared_slot == 0,
            final(self)@.cursors.len() == 1,
            final(self)@.cursors[0].publisher@ == channel@.author.signing,
            final(self)@.cursors[0].slot == 0,
    {
        self.cursors.push(Cursor { publisher: copy_of(channel.author.signing.as_slice()), slot: 0 });
        self.channel = Some(channel);
    }

    /// Moves the cursor of a branch to the next slot.
    fn advance(&mut self, branch: usize, slot: u64)
        requires
            old(self).wf(),
            old(self)@.channel is Some,
            branch < old(self)@.cursors.len(),
            slot == old(self)@.slot_of(branch as int) + 1,
        ensures
            final(self).wf(),
            final(self)@.public == old(self)@.public,
            final(self)@.signing_secret == old(self)@.signing_secret,
            final(self)@.exchange_secret == old(self)@.exchange_secret,
            final(self).identity() == old(self).identity(),
            final(self)@.channel == old(self)@.channel,
            final(self)@.keys == old(self)@.keys,
            final(self)@.seen == old(self)@.seen,
            final(self)@.slot_of(branch as int) == slot,
            final(self)@.cursors.len() == old(self)@.cursors.len(),
            final(self)@.shared_slot == if old(self)@.channel.unwrap().multi_branching {
                old(self)@.shared_slot
            } else {
                slot
            },
            forall|i: int|
                0 <= i < old(self)@.cursors.len() ==> {
                    let moved = i == branch && old(self)@.channel.unwrap().multi_branching;
                    &&& (#[trigger] final(self)@.cursors[i]).publisher@
                        == old(self)@.cursors[i].publisher@
                    &&& final(self)@.cursors[i].slot == if moved {
                        slot
                    } else {
                        old(self)@.cursors[i].slot
                    }
                },
    {
        let multi = match &self.channel {
            Some(channel) => channel.multi_branching,
            None => false,
        };
        if multi {
            let publisher = copy_of(self.cursors[branch].publisher.as_slice());
            self.cursors.set(branch, Cursor { publisher, slot });
        } else {
            self.shared_slot = slot;
        }
        proof {
            let before = old(self)@;
            let after = self@;
            assert forall|i: int| 0 <= i < after.seen.len() implies #[trigger] after.line_wf(
                i,
            ) by {
                assert(before.line_wf(i));
            }
            assert forall|i: int, j: int|
                0 <= i < j < after.seen.len() && #[trigger] after.same_branch(
                    i,
                    j,
                ) implies after.seen[i].slot < after.seen[j].slot by {
                assert(before.same_branch(i, j));
            }
        }
    }

    /// Adds a line to the journal.
    fn record(&mut self, line: Seen)
        requires
            old(self).wf(),
            old(self)@.channel is Some,
            old(self)@.admits(line),
        ensures
            final(self).wf(),
            final(self)@.same_party(old(self)@),
            final(self).identity() == old(self).identity(),
            final(self)@.keys == old(self)@.keys,
            final(self)@.cursors == old(self)@.cursors,
            final(self)@.shared_slot == old(self)@.shared_slot,
            final(self)@.seen == old(self)@.seen.push(line),
    {
        self.seen.push(line);
        proof {
            let before = old(self)@;
            let after = self@;
            let last = before.seen.len() as int;
            assert forall|i: int| 0 <= i < after.seen.len() implies #[trigger] after.line_wf(
                i,
            ) by {
                if i < last {
                    assert(before.line_wf(i));
                }
            }
            assert forall|i: int, j: int|
                0 <= i < j < after.seen.len() && #[trigger] after.same_branch(
                    i,
                    j,
                ) implies after.seen[i].slot < after.seen[j].slot by {
                if j < last {
                    assert(before.same_branch(i, j));
                }
            }
        }
    }

    /// Keeps a session key for an epoch. A party that got the key of an epoch
    /// on another way than in a keyload hands it in here. The first key kept
    /// for an epoch is the one that counts. A key that has not the length of
    /// a key, or any key while the party has no channel, is refused.
    pub fn install_key(&mut self, epoch: &[u8], key: &[u8]) -> (outcome: Result<(), Error>)
        requires
            old(self).wf(),
        ensures
            final(self).wf(),
            final(self)@.same_party(old(self)@),
            final(self).identity() == old(self).identity(),
            final(self)@.cursors == old(self)@.cursors,
            final(self)@.shared_slot == old(self)@.shared_slot,
            final(self)@.seen == old(self)@.seen,
            match outcome {
                Ok(()) => {
                    &&& old(self)@.channel is Some
                    &&& key@.len() == KEY_LEN
                    &&& final(self)@.keys == old(self)@.keys.push(final(self)@.keys.last())
                    &&& final(self)@.keys.last().epoch@ == epoch@
                    &&& final(self)@.keys.last().key@ == key@
                    &&& final(self)@.key_of(epoch@) == if old(self)@.key_of(epoch@) is Some {
                        old(self)@.key_of(epoch@)
                    } else {
                        Some(key@)
                    }
                },
                Err(error) => {
                    &&& final(self)@.keys == old(self)@.keys
                    &&& if old(self)@.channel is None {
                        error == Error::ChannelNotFound
                    } else {
                        error == Error::AuthenticationError && key@.len() != KEY_LEN
                    }
                },
            },
    {
        if self.channel.is_none() {
            return Err(Error::ChannelNotFound);
        }
        if key.len() != KEY_LEN {
            return Err(Error::AuthenticationError);
        }
        self.keys.push(EpochKey { epoch: copy_of(epoch), key: copy_of(key) });
        proof {
            let before = old(self)@;
            let after = self@;
            assert(after.keys.drop_last() == before.keys);
            assert forall|i: int| 0 <= i < after.seen.len() implies #[trigger] after.line_wf(
                i,
            ) by {
                assert(before.line_wf(i));
            }
            assert forall|i: int, j: int|
                0 <= i < j < after.seen.len() && #[trigger] after.same_branch(
                    i,
                    j,
                ) implies after.seen[i].slot < after.seen[j].slot by {
                assert(before.same_branch(i, j));
            }
        }
        Ok(())
    }

    /// Makes a publisher known, unless it is known already: the party then
    /// looks for the publisher's messages from the first slot on.
    fn register(&mut self, publisher: &[u8])
        requires
            old(self).wf(),
            old(self)@.channel is Some,
            publisher@.len() == KEY_LEN,
        ensures
            final(self).wf(),
            final(self)@.same_party(old(self)@),
            final(self).identity() == old(self).identity(),
            final(self)@.keys == old(self)@.keys,
            final(self)@.shared_slot == old(self)@.shared_slot,
            final(self)@.seen == old(self)@.seen,
            final(self)@.knows(publisher@),
            if old(self)@.knows(publisher@) {
                final(self)@.cursors == old(self)@.cursors
            } else {
                &&& final(self)@.cursors == old(self)@.cursors.push(final(self)@.cursors.last())
                &&& final(self)@.cursors.last().publisher@ == publisher@
                &&& final(self)@.cursors.last().slot == 0
            },
    {
        match self.find_cursor(publisher) {
            Some(place) => {
            },
            None => {
                self.cursors.push(Cursor { publisher: copy_of(publisher), slot: 0 });
                proof {
                    let before = old(self)@;
                    let after = self@;
                    let last = before.cursors.len() as int;
                    assert(after.cursors[last].publisher@ == publisher@);
                    assert forall|i: int|
                        0 <= i < after.seen.len() implies #[trigger] after.line_wf(i) by {
                        assert(before.line_wf(i));
                        assert(after.cursors[after.seen[i].branch as int]
                            == before.cursors[before.seen[i].branch as int]);
                    }
                    assert forall|i: int, j: int|
                        0 <= i < j < after.seen.len() && #[trigger] after.same_branch(
                            i,
                            j,
                        ) implies after.seen[i].slot < after.seen[j].slot by {
                        assert(before.same_branch(i, j));
                    }
                }
            },
        }
    }

    /// Looks at the frame found at a link and decides what is to be done
    /// with it. The state stays as it is.
    fn examine(&self, link: &Link, frame: &[u8], own: bool) -> (outcome: Result<
        Option<Examined>,
        Error,
    >)
        requires
            self.wf(),
        ensures
            match outcome {
                Err(error) => self@.refusal(link@, frame@, own) == Some(error),
                Ok(None) => self@.deferral(link@, frame@, own),
                Ok(Some(examined)) => {
                    &&& self@.refusal(link@, frame@, own) is None
                    &&& !self@.deferral(link@, frame@, own)
                    &&& self@.channel is Some
                    &&& examined.of(self@, link@, frame@, own)
                },
            },
    {
        let channel = match &self.channel {
            Some(channel) => channel,
            None => {
                return Err(Error::ChannelNotFound);
            },
        };
        let message = match decode_message(frame) {
            Ok(message) => message,
            Err(error) => {
                return Err(Error::from_decode(error));
            },
        };
        proof {
            lemma_frame_parse(frame@);
        }
        let previous = match &message.header.previous_link {
            Some(previous) => previous,
            None => {
                return Err(Error::MalformedMessage);
            },
        };
        if !message.header.link.same(link) || !same_bytes(
            link.appinst.as_slice(),
            channel.announcement.appinst.as_slice(),
        ) || !message.header.message_type.is_sequenced() || !same_bytes(
            previous.appinst.as_slice(),
            channel.announcement.appinst.as_slice(),
        ) {
            return Err(Error::MalformedMessage);
        }
        let branch = match self.find_cursor(message.header.sender.as_slice()) {
            Some(branch) => branch,
            None => {
                return Err(Error::MembershipError);
            },
        };
        proof {
            self@.lemma_branch(branch as int);
        }
        let last = if channel.multi_branching {
            self.cursors[branch].slot
        } else {
            self.shared_slot
        };
        if last == u64::MAX {
            return Err(Error::MalformedMessage);
        }
        let slot: u64 = last + 1;
        let expected = derive_link(
            channel.announcement.appinst.as_slice(),
            message.header.sender.as_slice(),
            LANE_BRANCH,
            slot,
        );
        if !expected.same(link) {
            return Err(Error::MalformedMessage);
        }
        if same_bytes(link.msgid.as_slice(), channel.announcement.msgid.as_slice())
            || self.find_seen(link.msgid.as_slice()).is_some() {
            return Err(Error::AmbiguousLink);
        }
        let parent: Option<usize> = if same_bytes(
            previous.msgid.as_slice(),
            channel.announcement.msgid.as_slice(),
        ) {
            None
        } else {
            match self.find_seen(previous.msgid.as_slice()) {
                Some(place) => {
                    proof {
                        self@.lemma_place(place as int);
                    }
                    Some(place)
                },
                None => {
                    return Ok(None);
                },
            }
        };
        let mut epoch: Option<Vec<u8>> = None;
        let mut plain: Option<Vec<u8>> = None;
        let mut handed: Option<Vec<u8>> = None;
        if matches!(message.header.message_type, MessageType::Keyload) {
            epoch = Some(copy_of(link.msgid.as_slice()));
        } else {
            match parent {
                Some(place) => match &self.seen[place].epoch {
                    Some(keyload) => {
                        epoch = Some(copy_of(keyload.as_slice()));
                    },
                    None => {},
                },
                None => {},
            }
        }
        if matches!(message.header.message_type, MessageType::Keyload) {
            if !same_bytes(message.header.sender.as_slice(), channel.author.signing.as_slice()) {
                return Err(Error::MembershipError);
            }
            if message.public_payload.len() % ENTRY_LEN != 0 || message.masked_payload.len() != 0 {
                return Err(Error::MalformedMessage);
            }
            if !own {
                match find_entry(message.public_payload.as_slice(), self.identity.signing_key()) {
                    Some(entry) => {
                        let wrapped = read_wrapped(message.public_payload.as_slice(), entry);
                        let context = link.bytes();
                        match unwrap_key(
                            wrapped.as_slice(),
                            &self.identity,
                            channel.author.exchange.as_slice(),
                            context.as_slice(),
                        ) {
                            Ok(key) => {
                                if key.len() != KEY_LEN {
                                    return Err(Error::AuthenticationError);
                                }
                                handed = Some(key);
                            },
                            Err(_) => {
                                return Err(Error::AuthenticationError);
                            },
                        }
                    },
                    None => {},
                }
            }
        } else if message.header.message_type.is_packet() {
            if message.masked_payload.len() < TAG_LEN {
                return Err(Error::MalformedMessage);
            }
            let key = match &epoch {
                Some(keyload) => self.find_key(keyload.as_slice()),
                None => Some(channel_open_key(channel.announcement.appinst.as_slice())),
            };
            match key {
                Some(key) => {
                    match unmask(
                        key.as_slice(),
                        &message.header,
                        message.public_payload.as_slice(),
                        message.masked_payload.as_slice(),
                    ) {
                        Some(payload) => {
                            plain = Some(payload);
                        },
                        None => {
                            return Err(Error::AuthenticationError);
                        },
                    }
                },
                None => {},
            }
        }
        Ok(Some(Examined { message, branch, slot, parent, epoch, plain, handed }))
    }

    /// Takes in the message that `examine` has passed.
    fn take_in(&mut self, examined: Examined, link: &Link, own: bool) -> (delivery: Delivery)
        requires
            old(self).wf(),
            old(self)@.channel is Some,
            examined.fits(old(self)@, link@, own),
        ensures
            final(self).wf(),
            final(self).identity() == old(self).identity(),
            old(self)@.took_in(final(self)@, link@, examined.message@, own),
            delivery@.link == link@,
            Some(delivery@.previous_link) == examined.message@.header.previous_link,
            delivery@.body == content_of(examined.message@, old(self)@.reading(examined.message@)),
    {
        let Examined { message, branch, slot, parent, epoch, plain, handed } = examined;
        let ghost before = self@;
        let ghost payload = message@.public_payload;
        self.advance(branch, slot);
        let line = Seen {
            msgid: copy_of(link.msgid.as_slice()),
            previous: match &message.header.previous_link {
                Some(previous) => copy_of(previous.msgid.as_slice()),
                None => Vec::new(),
            },
            parent,
            message_type: message.header.message_type,
            branch,
            slot,
            epoch,
            own,
        };
        proof {
            let moved = self@;
            assert forall|i: int|
                0 <= i < moved.seen.len() && (!moved.channel.unwrap().multi_branching || (
                #[trigger] moved.seen[i]).branch == line.branch) implies moved.seen[i].slot
                < line.slot by {
                assert(before.line_wf(i));
            }
        }
        self.record(line);
        match handed {
            Some(key) => {
                let _ = self.install_key(link.msgid.as_slice(), key.as_slice());
            },
            None => {},
        }
        let ghost recorded = self@;
        if matches!(message.header.message_type, MessageType::Keyload) {
            let count = message.public_payload.len() / ENTRY_LEN;
            let mut entry: usize = 0;
            while entry < count
                invariant
                    entry <= count,
                    count == entry_count(payload),
                    payload == message@.public_payload,
                    self.wf(),
                    self@.channel is Some,
                    self@.same_party(recorded),
                    self.identity() == old(self).identity(),
                    self@.keys == recorded.keys,
                    self@.seen == recorded.seen,
                    self@.shared_slot == recorded.shared_slot,
                    self@.cursors.len() >= recorded.cursors.len(),
                    forall|i: int|
                        0 <= i < recorded.cursors.len() ==> (#[trigger] self@.cursors[i])
                            == recorded.cursors[i],
                    forall|i: int|
                        recorded.cursors.len() <= i < self@.cursors.len() ==> (
                        #[trigger] self@.cursors[i]).slot == 0 && recipient_of(
                            payload,
                            self@.cursors[i].publisher@,
                        ),
                    forall|k: int|
                        0 <= k < entry ==> self@.knows(#[trigger] entry_recipient(payload, k)),
                    forall|i: int|
                        recorded.cursors.len() <= i < self@.cursors.len() ==> entry_for(
                            payload,
                            (#[trigger] self@.cursors[i]).publisher@,
                            entry as int,
                        ) is Some,
                    forall|i: int, j: int|
                        recorded.cursors.len() <= i < j < self@.cursors.len() ==> entry_for(
                            payload,
                            (#[trigger] self@.cursors[i]).publisher@,
                            entry as int,
                        ).unwrap() < entry_for(
                            payload,
                            (#[trigger] self@.cursors[j]).publisher@,
                            entry as int,
                        ).unwrap(),
                decreases count - entry,
            {
                let ghost earlier = self@;
                let recipient = read_recipient(message.public_payload.as_slice(), entry);
                self.register(recipient.as_slice());
                proof {
                    let later = self@;
                    assert forall|k: int| 0 <= k < entry + 1 implies later.knows(
                        #[trigger] entry_recipient(payload, k),
                    ) by {
                        if k < entry {
                            earlier.lemma_knows_grows(later, entry_recipient(payload, k));
                        }
                    }
                    assert forall|i: int|
                        recorded.cursors.len() <= i < later.cursors.len() implies entry_for(
                        payload,
                        (#[trigger] later.cursors[i]).publisher@,
                        entry + 1,
                    ) is Some && (i < earlier.cursors.len() ==> entry_for(
                        payload,
                        later.cursors[i].publisher@,
                        entry + 1,
                    ) == entry_for(payload, earlier.cursors[i].publisher@, entry as int)) && (i
                        >= earlier.cursors.len() ==> entry_for(
                        payload,
                        later.cursors[i].publisher@,
                        entry + 1,
                    ) == Some(entry as int)) by {
                        if i < earlier.cursors.len() {
                            lemma_entry_stays(
                                payload,
                                earlier.cursors[i].publisher@,
                                entry as int,
                                entry + 1,
                            );
                        } else {
                            lemma_entry_first(payload, recipient@, entry as int);
                        }
                    }
                    assert forall|i: int, j: int|
                        recorded.cursors.len() <= i < j < later.cursors.len() implies entry_for(
                        payload,
                        (#[trigger] later.cursors[i]).publisher@,
                        entry + 1,
                    ).unwrap() < entry_for(
                        payload,
                        (#[trigger] later.cursors[j]).publisher@,
                        entry + 1,
                    ).unwrap() by {
                        lemma_entry_first(payload, later.cursors[i].publisher@, entry as int);
                    }
                }
                entry += 1;
            }
        }
        let previous_link = match &message.header.previous_link {
            Some(previous) => previous.clone(),
            None => link.clone(),
        };
        let body = match message.header.message_type {
            MessageType::Announce => MessageContent::Announce,
            MessageType::Subscribe => MessageContent::Subscribe,
            MessageType::Unsubscribe => MessageContent::Unsubscribe,
            MessageType::Keyload => MessageContent::Keyload,
            MessageType::Sequence => MessageContent::Sequence,
            MessageType::SignedPacket => MessageContent::SignedPacket {
                pk: copy_of(message.header.sender.as_slice()),
                public_payload: Bytes(copy_of(message.public_payload.as_slice())),
                masked_payload: match plain {
                    Some(payload) => Some(Bytes(payload)),
                    None => None,
                },
            },
            MessageType::TaggedPacket => MessageContent::TaggedPacket {
                public_payload: Bytes(copy_of(message.public_payload.as_slice())),
                masked_payload: match plain {
                    Some(payload) => Some(Bytes(payload)),
                    None => None,
                },
            },
        };
        Delivery { link: link.clone(), previous_link, body }
    }

    /// Takes in the frame that was found at a link, if it holds the next
    /// message of its publisher's branch. `own` tells that the party has
    /// published the frame itself.
    ///
    /// The frame is refused, and the state stays as it is, where
    /// `PartyView::refusal` gives a reason. It is put off, and the state
    /// stays as it is, where the message it is linked to has not come yet.
    /// Else the message is taken in: it is added to the journal, the cursor
    /// of its branch moves on, and the caller gets what the party reads of it.
    pub fn accept(&mut self, link: &Link, frame: &[u8], own: bool) -> (outcome: Result<
        Option<Delivery>,
        Error,
    >)
        requires
            old(self).wf(),
        ensures
            final(self).wf(),
            final(self).identity() == old(self).identity(),
            old(self)@.accepted(final(self)@, link@, frame@, own, outcome),
    {
        match self.examine(link, frame, own) {
            Err(error) => Err(error),
            Ok(None) => Ok(None),
            Ok(Some(examined)) => Ok(Some(self.take_in(examined, link, own))),
        }
    }

    /// Where the next message of the publisher at a place among the cursors
    /// has to be.
    pub fn next_link(&self, branch: usize) -> (link: Option<Link>)
        requires
            self.wf(),
        ensures
            match link {
                Some(l) => {
                    &&& self@.channel is Some
                    &&& branch < self@.cursors.len()
                    &&& self@.slot_of(branch as int) < u64::MAX
                    &&& l@ == self@.next_link(self@.cursors[branch as int].publisher@)
                    &&& l.wf()
                },
                None => self@.channel is None || branch >= self@.cursors.len() || self@.slot_of(
                    branch as int,
                ) == u64::MAX,
            },
    {
        let channel = match &self.channel {
            Some(channel) => channel,
            None => {
                return None;
            },
        };
        if branch >= self.cursors.len() {
            return None;
        }
        let last = if channel.multi_branching {
            self.cursors[branch].slot
        } else {
            self.shared_slot
        };
        if last == u64::MAX {
            return None;
        }
        proof {
            self@.lemma_branch(branch as int);
        }
        Some(
            derive_link(
                channel.announcement.appinst.as_slice(),
                self.cursors[branch].publisher.as_slice(),
                LANE_BRANCH,
                last + 1,
            ),
        )
    }

    /// The frame that waits on the ledger for the publisher at a place among
    /// the cursors, and the link at which it waits.
    fn probe(&self, ledger: &Ledger, branch: usize) -> (found: Option<(Link, Vec<u8>)>)
        requires
            self.wf(),
            self@.channel is Some,
            branch < self@.cursors.len(),
            ledger.online(),
        ensures
            match found {
                Some((link, frame)) => {
                    &&& self@.waiting(ledger@, branch as int)
                    &&& link@ == self@.next_link(self@.cursors[branch as int].publisher@)
                    &&& frame@ == self@.waiting_frame(ledger@, branch as int)
                },
                None => !self@.waiting(ledger@, branch as int),
            },
    {
        match self.next_link(branch) {
            Some(link) => match ledger.fetch(&link) {
                Ok(Some(frame)) => Some((link, frame)),
                _ => None,
            },
            None => None,
        }
    }

    /// One round on a channel with one branch: the next slot is looked up
    /// for every publisher. One frame is taken in; two are a fork.
    fn fetch_single(&mut self, ledger: &Ledger) -> (outcome: Result<Vec<Delivery>, Error>)
        requires
            old(self).wf(),
            old(self)@.channel is Some,
            !old(self)@.channel.unwrap().multi_branching,
            ledger.online(),
        ensures
            final(self).wf(),
            final(self).identity() == old(self).identity(),
            old(self)@.fetched(final(self)@, ledger@, ledger.online(), outcome),
    {
        let count = self.cursors.len();
        let mut found: Option<(Link, Vec<u8>)> = None;
        proof {
            self@.lemma_followed_nothing(ledger@);
        }
        let ghost mut place: int = 0;
        let mut branch: usize = 0;
        while branch < count
            invariant
                self.wf(),
                self@ == old(self)@,
                self.identity() == old(self).identity(),
                self@.channel is Some,
                !self@.channel.unwrap().multi_branching,
                ledger.online(),
                count == self@.cursors.len(),
                branch <= count,
                match found {
                    Some((link, frame)) => {
                        &&& 0 <= place < branch
                        &&& self@.waiting(ledger@, place)
                        &&& link@ == self@.next_link(self@.cursors[place].publisher@)
                        &&& frame@ == self@.waiting_frame(ledger@, place)
                        &&& forall|k: int|
                            0 <= k < branch && k != place ==> !#[trigger] self@.waiting(ledger@, k)
                    },
                    None => forall|k: int| 0 <= k < branch ==> !#[trigger] self@.waiting(ledger@, k),
                },
            decreases count - branch,
        {
            match self.probe(ledger, branch) {
                Some(pair) => {
                    if found.is_some() {
                        return Err(Error::AmbiguousLink);
                    }
                    found = Some(pair);
                    proof {
                        place = branch as int;
                    }
                },
                None => {},
            }
            branch += 1;
        }
        let mut deliveries: Vec<Delivery> = Vec::new();
        match found {
            None => {},
            Some((link, frame)) => {
                match self.accept(&link, frame.as_slice(), false) {
                    Ok(Some(delivery)) => {
                        proof {
                            let before = old(self)@;
                            let after = self@;
                            let longer = deliveries@.push(delivery);
                            assert forall|i: int|
                                before.keys.len() <= i < after.keys.len() implies brought_by(
                                longer,
                                (#[trigger] after.keys[i]).epoch@,
                            ) by {
                                assert(longer[0]@.body is Keyload);
                            }
                            assert(before.steps_on(after, delivery@, ledger@, place)) by {
                                reveal(PartyView::steps_on);
                            }
                            assert(before.first_step(after, longer[0]@, ledger@, place));
                            before.lemma_followed_nothing(ledger@);
                            before.lemma_followed_one_more(
                                before,
                                after,
                                deliveries@,
                                delivery,
                                ledger@,
                                place,
                            );
                        }
                        deliveries.push(delivery);
                    },
                    Ok(None) => {},
                    Err(error) => {
                        proof {
                            assert(self@.refused_on(ledger@, place, error));
                        }
                        return Err(error);
                    },
                }
            },
        }
        Ok(deliveries)
    }

    /// One round on a channel with many branches: the next slot of every
    /// publisher's branch is looked up, and what waits there is taken in.
    #[verifier::rlimit(60)]
    fn fetch_multi(&mut self, ledger: &Ledger) -> (outcome: Result<Vec<Delivery>, Error>)
        requires
            old(self).wf(),
            old(self)@.channel is Some,
            old(self)@.channel.unwrap().multi_branching,
            ledger.online(),
        ensures
            final(self).wf(),
            final(self).identity() == old(self).identity(),
            old(self)@.fetched(final(self)@, ledger@, ledger.online(), outcome),
    {
        let count = self.cursors.len();
        let mut deliveries: Vec<Delivery> = Vec::new();
        let mut branch: usize = 0;
        let ghost mut states: Seq<PartyView> = seq![self@];
        let ghost mut branches: Seq<int> = Seq::empty();
        proof {
            self@.lemma_followed_nothing(ledger@);
        }
        while branch < count
            invariant
                self.wf(),
                self.identity() == old(self).identity(),
                self@.channel is Some,
                old(self)@.channel is Some,
                old(self)@.channel.unwrap().multi_branching,
                ledger.online(),
                count == old(self)@.cursors.len(),
                branch <= count,
                old(self)@.extended(self@, deliveries@, ledger@),
                old(self)@.followed(self@, deliveries@, ledger@),
                deliveries@.len() > 0 ==> !old(self)@.idle(ledger@),
                deliveries@.len() > 0 ==> exists|next: PartyView, first: int| #[trigger]
                    old(self)@.first_step(next, deliveries@[0]@, ledger@, first),
                old(self)@.round(self@, deliveries@, ledger@, states, branches),
                scan_start(branches, deliveries@.len() as int) <= branch,
                forall|j: int|
                    scan_start(branches, deliveries@.len() as int) <= j < branch
                        ==> #[trigger] self@.passes(ledger@, j),
                deliveries@.len() == 0 ==> self@ == old(self)@,
                deliveries@.len() == 0 ==> forall|k: int|
                    0 <= k < branch && #[trigger] self@.waiting(ledger@, k) ==> self@.deferral(
                        self@.next_link(self@.cursors[k].publisher@),
                        self@.waiting_frame(ledger@, k),
                        false,
                    ),
            decreases count - branch,
        {
            let ghost before = self@;
            match self.probe(ledger, branch) {
                Some((link, frame)) => {
                    match self.accept(&link, frame.as_slice(), false) {
                        Ok(Some(delivery)) => {
                            proof {
                                let after = self@;
                                let start = old(self)@;
                                let longer = deliveries@.push(delivery);
                                assert forall|i: int|
                                    start.keys.len() <= i < after.keys.len() implies brought_by(
                                    longer,
                                    (#[trigger] after.keys[i]).epoch@,
                                ) by {
                                    if i < before.keys.len() {
                                        let k = choose|k: int|
                                            0 <= k < deliveries@.len() && (
                                            #[trigger] deliveries@[k])@.body is Keyload
                                                && deliveries@[k]@.link.msgid
                                                == before.keys[i].epoch@;
                                        assert(longer[k] == deliveries@[k]);
                                    } else {
                                        assert(longer[deliveries@.len() as int]@.body is Keyload);
                                    }
                                }
                                assert forall|k: int| 0 <= k < longer.len() implies told(
                                    after.seen[start.seen.len() + k],
                                    #[trigger] longer[k]@,
                                    ledger@,
                                ) by {
                                    if k < deliveries@.len() {
                                        assert(told(
                                            before.seen[start.seen.len() + k],
                                            deliveries@[k]@,
                                            ledger@,
                                        ));
                                        assert(after.seen[start.seen.len() + k]
                                            == before.seen[start.seen.len() + k]);
                                    }
                                }
                                assert forall|k: int| 0 <= k < longer.len() implies start.read_as(
                                    after,
                                    after.seen[start.seen.len() + k],
                                    #[trigger] longer[k]@,
                                    ledger@,
                                ) by {
                                    let line = after.seen[start.seen.len() + k];
                                    let epoch = view_of_bytes(line.epoch);
                                    if k < deliveries@.len() {
                                        assert(start.read_as(
                                            before,
                                            before.seen[start.seen.len() + k],
                                            deliveries@[k]@,
                                            ledger@,
                                        ));
                                    } else {
                                        if start.epoch_key(epoch) is Some {
                                            start.lemma_epoch_key_stays(before, epoch);
                                        }
                                    }
                                    if before.epoch_key(epoch) is Some {
                                        before.lemma_epoch_key_stays(after, epoch);
                                    }
                                }
                                assert forall|i: int| 0 <= i < start.cursors.len() implies {
                                    &&& (#[trigger] after.cursors[i]).publisher@
                                        == start.cursors[i].publisher@
                                    &&& after.cursors[i].slot >= start.cursors[i].slot
                                } by {
                                    assert(before.cursors[i].publisher@
                                        == start.cursors[i].publisher@);
                                }
                                assert(before.steps_on(after, delivery@, ledger@, branch as int)) by {
                                    reveal(PartyView::steps_on);
                                }
                                if deliveries@.len() == 0 {
                                    assert(start.first_step(
                                        after,
                                        longer[0]@,
                                        ledger@,
                                        branch as int,
                                    ));
                                } else {
                                    assert(longer[0] == deliveries@[0]);
                                }
                                start.lemma_round_one_more(
                                    before,
                                    after,
                                    deliveries@,
                                    delivery,
                                    ledger@,
                                    states,
                                    branches,
                                    branch as int,
                                );
                                states = states.push(after);
                                branches = branches.push(branch as int);
                                start.lemma_followed_one_more(
                                    before,
                                    after,
                                    deliveries@,
                                    delivery,
                                    ledger@,
                                    branch as int,
                                );
                            }
                            deliveries.push(delivery);
                        },
                        Ok(None) => {},
                        Err(error) => {
                            if deliveries.len() == 0 {
                                proof {
                                    assert(self@.refused_on(ledger@, branch as int, error));
                                }
                                return Err(error);
                            }
                            proof {
                                assert(self@.waiting(ledger@, branch as int));
                                assert(old(self)@.round_ends(
                                    self@,
                                    ledger@,
                                    scan_start(branches, deliveries@.len() as int),
                                ));
                            }
                            return Ok(deliveries);
                        },
                    }
                },
                None => {},
            }
            branch += 1;
        }
        Ok(deliveries)
    }

    /// Takes in what has newly come on the ledger, and tells of it in the
    /// order in which it was taken in: a message comes after the one it is
    /// linked to, and the messages of a branch come in the order of their slots.
    ///
    /// A call looks once at the next slot of every branch; to get everything
    /// that is there, call until nothing more is delivered. No message is
    /// delivered twice, and none that the party published itself.
    ///
    /// Where a frame has to be refused, nothing that was taken in before is
    /// lost: the call hands out what it has, and the next call meets the
    /// frame again and fails. A call that fails leaves the state as it was.
    pub fn fetch_next_msgs(&mut self, ledger: &Ledger) -> (outcome: Result<Vec<Delivery>, Error>)
        requires
            old(self).wf(),
        ensures
            final(self).wf(),
            final(self).identity() == old(self).identity(),
            old(self)@.fetched(final(self)@, ledger@, ledger.online(), outcome),
    {
        let multi = match &self.channel {
            Some(channel) => channel.multi_branching,
            None => {
                return Err(Error::ChannelNotFound);
            },
        };
        if !ledger.is_online() {
            return Err(Error::TransportError);
        }
        if multi {
            self.fetch_multi(ledger)
        } else {
            self.fetch_single(ledger)
        }
    }

    /// Makes the next message of the party's own branch ready: a message of
    /// the given type, linked to `anchor`, with the given payloads. The
    /// party's state stays as it is; once the message is published,
    /// `accept` takes it in as the party's own.
    ///
    /// A packet's masked payload is sealed under the key of the epoch of
    /// `anchor`, which the party has to hold. A keyload takes its entries as
    /// the public payload and no masked payload, and only the author makes one.
    pub fn draft(
        &self,
        message_type: MessageType,
        anchor: &Link,
        public_payload: &[u8],
        masked_payload: &[u8],
    ) -> (outcome: Result<Outgoing, Error>)
        requires
            self.wf(),
        ensures
            match outcome {
                Ok(outgoing) => {
                    let message = self@.drafted(
                        message_type,
                        anchor@,
                        public_payload@,
                        masked_payload@,
                    );
                    &&& self@.draft_refusal(
                        message_type,
                        anchor@,
                        public_payload@,
                        masked_payload@,
                    ) is None
                    &&& outgoing.link@ == self@.next_link(self@.public.signing)
                    &&& outgoing.link.wf()
                    &&& outgoing.frame@ == message.frame()
                    &&& decoded(outgoing.frame@) == Ok::<MessageView, DecodeError>(message)
                    &&& self@.refusal(outgoing.link@, outgoing.frame@, true) is None
                    &&& !self@.deferral(outgoing.link@, outgoing.frame@, true)
                    &&& message.header.message_type.packet() ==> self@.reading(message) == Some(
                        masked_payload@,
                    )
                },
                Err(error) => self@.draft_refusal(
                    message_type,
                    anchor@,
                    public_payload@,
                    masked_payload@,
                ) == Some(error),
            },
    {
        let channel = match &self.channel {
            Some(channel) => channel,
            None => {
                return Err(Error::ChannelNotFound);
            },
        };
        if !message_type.is_sequenced() || !anchor.is_well_formed() || !same_bytes(
            anchor.appinst.as_slice(),
            channel.announcement.appinst.as_slice(),
        ) || public_payload.len() > u32::MAX as usize || masked_payload.len() > u32::MAX as usize
            - TAG_LEN {
            return Err(Error::MalformedMessage);
        }
        let branch = match self.find_cursor(self.identity.signing_key()) {
            Some(branch) => branch,
            None => {
                return Err(Error::MembershipError);
            },
        };
        proof {
            self@.lemma_branch(branch as int);
        }
        let link = match self.next_link(branch) {
            Some(link) => link,
            None => {
                return Err(Error::MalformedMessage);
            },
        };
        if same_bytes(link.msgid.as_slice(), channel.announcement.msgid.as_slice())
            || self.find_seen(link.msgid.as_slice()).is_some() {
            return Err(Error::AmbiguousLink);
        }
        let parent: Option<usize> = if same_bytes(
            anchor.msgid.as_slice(),
            channel.announcement.msgid.as_slice(),
        ) {
            None
        } else {
            match self.find_seen(anchor.msgid.as_slice()) {
                Some(place) => {
                    proof {
                        self@.lemma_place(place as int);
                    }
                    Some(place)
                },
                None => {
                    return Err(Error::MalformedMessage);
                },
            }
        };
        let header = Header {
            link: link.clone(),
            previous_link: Some(anchor.clone()),
            message_type,
            sender: copy_of(self.identity.signing_key()),
        };
        let sealed: Vec<u8>;
        if matches!(message_type, MessageType::Keyload) {
            if !same_bytes(self.identity.signing_key(), channel.author.signing.as_slice()) {
                return Err(Error::MembershipError);
            }
            if public_payload.len() % ENTRY_LEN != 0 || masked_payload.len() != 0 {
                return Err(Error::MalformedMessage);
            }
            sealed = copy_of(masked_payload);
        } else if message_type.is_packet() {
            let key = match parent {
                Some(place) => match &self.seen[place].epoch {
                    Some(keyload) => self.find_key(keyload.as_slice()),
                    None => Some(channel_open_key(channel.announcement.appinst.as_slice())),
                },
                None => Some(channel_open_key(channel.announcement.appinst.as_slice())),
            };
            match key {
                Some(key) => {
                    sealed = mask(key.as_slice(), &header, public_payload, masked_payload);
                },
                None => {
                    return Err(Error::AuthenticationError);
                },
            }
        } else {
            sealed = copy_of(masked_payload);
        }
        let signer = if message_type.is_signed() {
            Some(&self.identity)
        } else {
            None
        };
        match encode_message(&header, public_payload, Some(sealed.as_slice()), signer) {
            Ok(frame) => Ok(Outgoing { link, frame }),
            Err(error) => Err(error),
        }
    }

    /// Publishes the next message of the party's own branch on the ledger
    /// and takes it in as the party's own. Where the party cannot make the
    /// message, or the ledger does not take it, nothing has changed.
    pub fn send(
        &mut self,
        ledger: &mut Ledger,
        message_type: MessageType,
        anchor: &Link,
        public_payload: &[u8],
        masked_payload: &[u8],
    ) -> (outcome: Result<Link, Error>)
        requires
            old(self).wf(),
        ensures
            final(self).wf(),
            final(self).identity() == old(self).identity(),
            final(ledger).online() == old(ledger).online(),
            old(self)@.sent(
                final(self)@,
                old(ledger)@,
                final(ledger)@,
                old(ledger).online(),
                message_type,
                anchor@,
                public_payload@,
                masked_payload@,
                outcome,
            ),
    {
        let outgoing = match self.draft(message_type, anchor, public_payload, masked_payload) {
            Ok(outgoing) => outgoing,
            Err(error) => {
                return Err(error);
            },
        };
        match ledger.publish(&outgoing.link, outgoing.frame.as_slice()) {
            Ok(()) => {},
            Err(error) => {
                return Err(error);
            },
        }
        match self.accept(&outgoing.link, outgoing.frame.as_slice(), true) {
            Ok(Some(_)) => Ok(outgoing.link),
            Ok(None) => Err(Error::MalformedMessage),
            Err(error) => Err(error),
        }
    }

    /// Takes in everything that the ledger holds for the party: calls
    /// `fetch_next_msgs` until a call delivers nothing or fails, and gives
    /// all that was delivered, in the order in which it was, and the error
    /// that ended the fetching if one did.
    pub fn fetch_all(&mut self, ledger: &Ledger) -> (outcome: (Vec<Delivery>, Option<Error>))
        requires
            old(self).wf(),
        ensures
            final(self).wf(),
            final(self).identity() == old(self).identity(),
            old(self)@.fetched_all(final(self)@, ledger@, ledger.online(), outcome.0@, outcome.1),
    {
        let total = ledger.len();
        let mut all: Vec<Delivery> = Vec::new();
        proof {
            self@.lemma_followed_nothing(ledger@);
        }
        loop
            invariant
                self.wf(),
                self.identity() == old(self).identity(),
                old(self)@.extended(self@, all@, ledger@),
                old(self)@.followed(self@, all@, ledger@),
                total == ledger@.len(),
                all@.len() <= total,
            decreases total - all@.len(),
        {
            let ghost middle = self@;
            match self.fetch_next_msgs(ledger) {
                Err(error) => {
                    return (all, Some(error));
                },
                Ok(batch) => {
                    if batch.len() == 0 {
                        return (all, None);
                    }
                    let mut batch = batch;
                    proof {
                        old(self)@.lemma_extended_twice(middle, self@, all@, batch@, ledger@);
                        old(self)@.lemma_followed_twice(middle, self@, all@, batch@, ledger@);
                        lemma_deliveries_bounded(old(self)@, self@, all@ + batch@, ledger@);
                    }
                    all.append(&mut batch);
                },
            }
        }
    }

    /// The identity of the party.
    pub fn own_identity(&self) -> (identity: &Identity)
        ensures
            identity == self.identity(),
            identity.public() == self@.public,
            identity.signing_secret() == self@.signing_secret,
            identity.exchange_secret() == self@.exchange_secret,
    {
        &self.identity
    }

    /// The channel of the party, if it has one.
    pub fn channel(&self) -> (channel: Option<&Channel>)
        ensures
            match channel {
                Some(c) => self@.channel == Some(c@),
                None => self@.channel is None,
            },
    {
        self.channel.as_ref()
    }

    /// The number of messages in the journal.
    pub fn seen_count(&self) -> (count: usize)
        ensures
            count == self@.seen.len(),
    {
        self.seen.len()
    }

    /// The number of publishers that the party knows.
    pub fn publisher_count(&self) -> (count: usize)
        ensures
            count == self@.cursors.len(),
    {
        self.cursors.len()
    }

    /// Where in the journal a message stands.
    pub fn find_seen(&self, msgid: &[u8]) -> (place: Option<usize>)
        ensures
            match place {
                Some(i) => i < self@.seen.len() && self@.seen[i as int].msgid@ == msgid@,
                None => forall|i: int|
                    0 <= i < self@.seen.len() ==> (#[trigger] self@.seen[i]).msgid@ != msgid@,
            },
    {
        let mut i: usize = 0;
        while i < self.seen.len()
            invariant
                i <= self.seen@.len(),
                forall|k: int| 0 <= k < i ==> (#[trigger] self.seen@[k]).msgid@ != msgid@,
            decreases self.seen@.len() - i,
        {
            if same_bytes(self.seen[i].msgid.as_slice(), msgid) {
                return Some(i);
            }
            i += 1;
        }
        None
    }

    /// The place of a publisher among the cursors.
    pub fn find_cursor(&self, publisher: &[u8]) -> (place: Option<usize>)
        ensures
            match place {
                Some(i) => i < self@.cursors.len() && self@.cursors[i as int].publisher@
                    == publisher@,
                None => forall|i: int|
                    0 <= i < self@.cursors.len() ==> (#[trigger] self@.cursors[i]).publisher@
                        != publisher@,
            },
    {
        let mut i: usize = 0;
        while i < self.cursors.len()
            invariant
                i <= self.cursors@.len(),
                forall|k: int|
                    0 <= k < i ==> (#[trigger] self.cursors@[k]).publisher@ != publisher@,
            decreases self.cursors@.len() - i,
        {
            if same_bytes(self.cursors[i].publisher.as_slice(), publisher) {
                return Some(i);
            }
            i += 1;
        }
        None
    }

    /// The session key of an epoch, if the party holds it.
    pub fn find_key(&self, epoch: &[u8]) -> (key: Option<Vec<u8>>)
        ensures
            view_of_bytes(key) == self@.key_of(epoch@),
            key matches Some(k) ==> exists|i: int|
                0 <= i < self@.keys.len() && (#[trigger] self@.keys[i]).key@ == k@,
    {
        let mut i: usize = 0;
        while i < self.keys.len()
            invariant
                i <= self.keys@.len(),
                key_among(self.keys@.take(i as int), epoch@) is None,
            decreases self.keys@.len() - i,
        {
            proof {
                assert(self.keys@.take(i + 1).drop_last() == self.keys@.take(i as int));
            }
            if same_bytes(self.keys[i].epoch.as_slice(), epoch) {
                proof {
                    lemma_key_stays(self.keys@, i + 1, epoch@);
                }
                return Some(copy_of(self.keys[i].key.as_slice()));
            }
            i += 1;
        }
        assert(self.keys@.take(i as int) == self.keys@);
        None
    }
}
} // verus!

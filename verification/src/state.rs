//! The state that a party keeps of a channel, as a mathematical value, and
//! what the sequencing of messages into branches means for it.
//!
//! A party keeps a journal of the messages it has taken in, a cursor for
//! every publisher it knows, and the session keys it holds. In a channel with
//! many branches every publisher fills the slots of its own branch, one after
//! the other; in a channel with one branch all publishers fill the slots of
//! the one branch. The address of the message in a slot follows from the
//! channel, the publisher and the number of the slot, so a party finds the
//! next message of a branch without an index.

use crate::access::entry_count;
use crate::access::entry_for;
use crate::access::entry_recipient;
use crate::access::is_keyload_payload;
use crate::access::keyload_entry_of;
use crate::access::masked;
use crate::access::open_key;
use crate::access::unmasked;
use crate::delivery::ContentView;
use crate::delivery::Delivery;
use crate::delivery::DeliveryView;
use crate::delivery::content_of;
use crate::error::DecodeError;
use crate::error::Error;
use crate::identity::PublicIdentity;
use crate::identity::PublicIdentityView;
use crate::identity::unwrapped_key;
use crate::link::LANE_BRANCH;
use crate::link::Link;
use crate::link::LinkView;
use crate::link::MSGID_LEN;
use crate::link::link_of;
use crate::message::HeaderView;
use crate::message::MessageType;
use crate::message::MessageView;
use crate::message::decoded;
use crate::message::encoded;
use crate::message::view_of_bytes;
use crate::primitives::KEY_LEN;
use crate::primitives::TAG_LEN;
use crate::transport::Entry;
use crate::transport::published;
use crate::transport::refuses;
use vstd::prelude::*;

verus! {
/// What a party knows of the channel it has joined.
#[derive(Debug)]
pub struct Channel {
    /// The link of the announcement, the root of the channel.
    pub announcement: Link,
    /// The public keys of the author.
    pub author: PublicIdentity,
    /// Whether every publisher has a branch of its own.
    pub multi_branching: bool,
}

/// What a party knows of its channel, as a mathematical value.
pub struct ChannelView {
    pub announcement: LinkView,
    pub author: PublicIdentityView,
    pub multi_branching: bool,
}

impl View for Channel {
    type V = ChannelView;

    open spec fn view(&self) -> ChannelView {
        ChannelView {
            announcement: self.announcement@,
            author: self.author@,
            multi_branching: self.multi_branching,
        }
    }
}

impl ChannelView {
    /// The link and the keys have their lengths.
    pub open spec fn wf(self) -> bool {
        &&& self.announcement.wf()
        &&& self.author.signing.len() == KEY_LEN
        &&& self.author.exchange.len() == KEY_LEN
    }
}

impl Clone for Channel {
    fn clone(&self) -> (copy: Self)
        ensures
            copy@ == self@,
    {
        Channel {
            announcement: self.announcement.clone(),
            author: self.author.clone(),
            multi_branching: self.multi_branching,
        }
    }
}

/// How far a party has followed one publisher.
#[derive(Debug)]
pub struct Cursor {
    /// The signing key of the publisher.
    pub publisher: Vec<u8>,
    /// The last slot of the publisher's branch that the party has taken in.
    pub slot: u64,
}

/// The session key of one epoch.
pub struct EpochKey {
    /// The id of the keyload that started the epoch.
    pub epoch: Vec<u8>,
    /// The key under which the masked payloads of the epoch are sealed.
    pub key: Vec<u8>,
}

/// One line of the journal: a message that the party has taken in, fetched
/// or published by itself.
#[derive(Debug)]
pub struct Seen {
    /// The id of the message.
    pub msgid: Vec<u8>,
    /// The id of the message it is linked to.
    pub previous: Vec<u8>,
    /// Where in the journal the message it is linked to stands; nowhere if
    /// that is the announcement.
    pub parent: Option<usize>,
    /// The kind of message.
    pub message_type: MessageType,
    /// The place of the publisher among the cursors.
    pub branch: usize,
    /// The slot of the message in its branch.
    pub slot: u64,
    /// The id of the keyload that started the epoch of the message.
    pub epoch: Option<Vec<u8>>,
    /// Whether the party published the message itself.
    pub own: bool,
}

/// The state of a party as a mathematical value.
pub struct PartyView {
    /// The public keys of the party.
    pub public: PublicIdentityView,
    /// The secret signing key of the party.
    pub signing_secret: Seq<u8>,
    /// The secret key exchange key of the party.
    pub exchange_secret: Seq<u8>,
    /// The channel, once the party has one.
    pub channel: Option<ChannelView>,
    /// The publishers that the party knows, and how far it has followed each.
    pub cursors: Seq<Cursor>,
    /// The last slot taken in on the one branch of a channel with one branch.
    pub shared_slot: u64,
    /// The session keys that the party holds.
    pub keys: Seq<EpochKey>,
    /// The journal.
    pub seen: Seq<Seen>,
}

impl PartyView {
    /// The last slot that the party has taken in on a publisher's branch.
    pub open spec fn slot_of(self, branch: int) -> u64 {
        if self.channel.unwrap().multi_branching {
            self.cursors[branch].slot
        } else {
            self.shared_slot
        }
    }

    /// The id of the application instance of the party's channel.
    pub open spec fn appinst(self) -> Seq<u8> {
        self.channel.unwrap().announcement.appinst
    }

    /// The epoch that a message linked to `parent` belongs to, unless it
    /// starts one itself.
    pub open spec fn epoch_at(self, parent: Option<usize>) -> Option<Seq<u8>> {
        match parent {
            Some(place) => view_of_bytes(self.seen[place as int].epoch),
            None => None,
        }
    }

    /// The id of the message at a place of the journal, or of the
    /// announcement where the place is none.
    pub open spec fn msgid_at(self, parent: Option<usize>) -> Seq<u8> {
        match parent {
            Some(place) => self.seen[place as int].msgid@,
            None => self.channel.unwrap().announcement.msgid,
        }
    }

    /// What holds of every line of the journal: the message it is linked to
    /// stands before it; its publisher is known, its slot is taken in, and
    /// its epoch is that of the latest keyload on the way from the
    /// announcement to it.
    pub open spec fn line_wf(self, place: int) -> bool {
        let line = self.seen[place];
        &&& line.msgid@.len() == MSGID_LEN
        &&& line.msgid@ != self.channel.unwrap().announcement.msgid
        &&& line.parent matches Some(parent) ==> parent < place
        &&& line.previous@ == self.msgid_at(line.parent)
        &&& line.branch < self.cursors.len()
        &&& 1 <= line.slot <= self.slot_of(line.branch as int)
        &&& view_of_bytes(line.epoch) == if line.message_type is Keyload {
            Some(line.msgid@)
        } else {
            self.epoch_at(line.parent)
        }
    }

    /// Whether two lines of the journal stand on the same branch.
    pub open spec fn same_branch(self, first: int, second: int) -> bool {
        !self.channel.unwrap().multi_branching || self.seen[first].branch
            == self.seen[second].branch
    }

    /// The invariant of a party's state.
    pub open spec fn wf(self) -> bool {
        &&& self.public.signing.len() == KEY_LEN
        &&& self.public.exchange.len() == KEY_LEN
        &&& self.signing_secret.len() == KEY_LEN
        &&& self.exchange_secret.len() == KEY_LEN
        &&& match self.channel {
            None => {
                &&& self.cursors.len() == 0
                &&& self.keys.len() == 0
                &&& self.seen.len() == 0
                &&& self.shared_slot == 0
            },
            Some(channel) => {
                &&& channel.wf()
                &&& cursors_wf(self.cursors)
                &&& keys_wf(self.keys)
                &&& forall|i: int| 0 <= i < self.seen.len() ==> #[trigger] self.line_wf(i)
                &&& journal_wf(self.seen)
                &&& forall|i: int, j: int|
                    0 <= i < j < self.seen.len() && #[trigger] self.same_branch(i, j)
                        ==> self.seen[i].slot < self.seen[j].slot
            },
        }
    }

    /// The key under which the masked payloads of an epoch are sealed, if the
    /// party holds it: the first one that it took in for the epoch.
    pub open spec fn key_of(self, epoch: Seq<u8>) -> Option<Seq<u8>> {
        key_among(self.keys, epoch)
    }

    /// The key that the party holds for an epoch; before the first keyload it
    /// is the key that everyone holds.
    pub open spec fn epoch_key(self, epoch: Option<Seq<u8>>) -> Option<Seq<u8>> {
        match epoch {
            Some(keyload) => self.key_of(keyload),
            None => Some(open_key(self.appinst())),
        }
    }

    /// Whether the party knows a publisher.
    pub open spec fn knows(self, publisher: Seq<u8>) -> bool {
        exists|i: int|
            0 <= i < self.cursors.len() && (#[trigger] self.cursors[i]).publisher@ == publisher
    }

    /// The place of a publisher that the party knows among the cursors.
    pub open spec fn branch_of(self, publisher: Seq<u8>) -> int {
        choose|i: int|
            0 <= i < self.cursors.len() && (#[trigger] self.cursors[i]).publisher@ == publisher
    }

    /// Whether a message is in the journal.
    pub open spec fn has_seen(self, msgid: Seq<u8>) -> bool {
        exists|i: int| 0 <= i < self.seen.len() && (#[trigger] self.seen[i]).msgid@ == msgid
    }

    /// The place of a message in the journal.
    pub open spec fn place_of(self, msgid: Seq<u8>) -> int {
        choose|i: int| 0 <= i < self.seen.len() && (#[trigger] self.seen[i]).msgid@ == msgid
    }

    /// Whether a message can be linked to: it is the announcement or in the journal.
    pub open spec fn reachable(self, msgid: Seq<u8>) -> bool {
        msgid == self.channel.unwrap().announcement.msgid || self.has_seen(msgid)
    }

    /// Where a message that can be linked to stands: nowhere for the
    /// announcement, else its place in the journal.
    pub open spec fn parent_of(self, msgid: Seq<u8>) -> Option<usize> {
        if msgid == self.channel.unwrap().announcement.msgid {
            None
        } else {
            Some(self.place_of(msgid) as usize)
        }
    }

    /// Where the next message of a publisher that the party knows has to be.
    pub open spec fn next_link(self, publisher: Seq<u8>) -> LinkView {
        link_of(
            self.appinst(),
            publisher,
            LANE_BRANCH,
            (self.slot_of(self.branch_of(publisher)) + 1) as u64,
        )
    }

    /// The epoch of a message that the party is about to take in.
    pub open spec fn epoch_of(self, message: MessageView) -> Option<Seq<u8>> {
        if message.header.message_type is Keyload {
            Some(message.header.link.msgid)
        } else {
            self.epoch_at(self.parent_of(message.header.previous_link.unwrap().msgid))
        }
    }

    /// What the party reads of the masked payload of a packet: the payload
    /// where it holds the key of the packet's epoch, nothing where it does not.
    pub open spec fn reading(self, message: MessageView) -> Option<Seq<u8>> {
        if message.header.message_type.packet() {
            match self.epoch_key(self.epoch_of(message)) {
                Some(key) => unmasked(
                    key,
                    message.header,
                    message.public_payload,
                    message.masked_payload,
                ),
                None => None,
            }
        } else {
            None
        }
    }

    /// The session key that a keyload hands to the party: the one that the
    /// entry with the party's signing key opens to, if it is as long as a key.
    pub open spec fn handed_key(self, message: MessageView, own: bool) -> Option<Seq<u8>> {
        if message.header.message_type is Keyload && !own {
            match keyload_entry_of(message.public_payload, self.public.signing) {
                Some(wrapped) => {
                    let opened = unwrapped_key(
                        self.exchange_secret,
                        self.channel.unwrap().author.exchange,
                        message.header.link.bytes(),
                        wrapped,
                    );
                    if opened matches Some(key) && key.len() == KEY_LEN {
                        opened
                    } else {
                        None
                    }
                },
                None => None,
            }
        } else {
            None
        }
    }

    /// Whether a message lies on the way that the party follows: it is at
    /// the link it was found at, in the party's channel, of a sequenced type
    /// and linked to a message of the channel.
    pub open spec fn on_the_way(self, link: LinkView, message: MessageView) -> bool {
        &&& message.header.link == link
        &&& link.appinst == self.appinst()
        &&& message.header.message_type.sequenced()
        &&& message.header.previous_link.unwrap().appinst == self.appinst()
    }

    /// Why the content of a message that stands at the right place is refused.
    pub open spec fn content_refusal(self, message: MessageView, own: bool) -> Option<Error> {
        if message.header.message_type is Keyload {
            if message.header.sender != self.channel.unwrap().author.signing {
                Some(Error::MembershipError)
            } else if !is_keyload_payload(message.public_payload) || message.masked_payload.len()
                != 0 {
                Some(Error::MalformedMessage)
            } else if !own && keyload_entry_of(message.public_payload, self.public.signing)
                is Some && self.handed_key(message, own) is None {
                Some(Error::AuthenticationError)
            } else {
                None
            }
        } else if message.header.message_type.packet() {
            if message.masked_payload.len() < TAG_LEN {
                Some(Error::MalformedMessage)
            } else if self.epoch_key(self.epoch_of(message)) is Some && self.reading(message)
                is None {
                Some(Error::AuthenticationError)
            } else {
                None
            }
        } else {
            None
        }
    }

    /// Why the party refuses the frame that it found at a link, if it does.
    pub open spec fn refusal(self, link: LinkView, frame: Seq<u8>, own: bool) -> Option<Error> {
        if self.channel is None {
            Some(Error::ChannelNotFound)
        } else {
            match decoded(frame) {
                Err(error) => Some(Error::of_decode(error)),
                Ok(message) => {
                    let previous = message.header.previous_link.unwrap().msgid;
                    if !self.on_the_way(link, message) {
                        Some(Error::MalformedMessage)
                    } else if !self.knows(message.header.sender) {
                        Some(Error::MembershipError)
                    } else if self.slot_of(self.branch_of(message.header.sender)) == u64::MAX
                        || link != self.next_link(message.header.sender) {
                        Some(Error::MalformedMessage)
                    } else if self.reachable(link.msgid) {
                        Some(Error::AmbiguousLink)
                    } else if !self.reachable(previous) {
                        None
                    } else {
                        self.content_refusal(message, own)
                    }
                },
            }
        }
    }

    /// Whether the party puts the frame that it found at a link off: nothing
    /// is wrong with it, but the message it is linked to has not come yet.
    pub open spec fn deferral(self, link: LinkView, frame: Seq<u8>, own: bool) -> bool {
        &&& self.refusal(link, frame, own) is None
        &&& !self.reachable(decoded(frame).unwrap().header.previous_link.unwrap().msgid)
    }

    /// Whether everything but the journal, the cursors and the keys of two
    /// states is the same.
    pub open spec fn same_party(self, other: PartyView) -> bool {
        &&& self.public == other.public
        &&& self.signing_secret == other.signing_secret
        &&& self.exchange_secret == other.exchange_secret
        &&& self.channel == other.channel
    }

    /// Whether a line can be added to the journal: its message is new, what
    /// it is linked to is in the journal, and it stands in the slot that its
    /// branch has just been moved to.
    pub open spec fn admits(self, line: Seen) -> bool {
        &&& line.msgid@.len() == MSGID_LEN
        &&& !self.reachable(line.msgid@)
        &&& line.parent matches Some(parent) ==> parent < self.seen.len()
        &&& line.previous@ == self.msgid_at(line.parent)
        &&& line.branch < self.cursors.len()
        &&& line.slot == self.slot_of(line.branch as int)
        &&& line.slot >= 1
        &&& forall|i: int|
            0 <= i < self.seen.len() && (!self.channel.unwrap().multi_branching || (
            #[trigger] self.seen[i]).branch == line.branch) ==> self.seen[i].slot < line.slot
        &&& view_of_bytes(line.epoch) == if line.message_type is Keyload {
            Some(line.msgid@)
        } else {
            self.epoch_at(line.parent)
        }
    }

    /// Whether `after` is the state that comes of this one when the party
    /// takes in the message of a frame: the journal has one more line, which
    /// tells of the message; the cursor of the message's branch stands on its
    /// slot; a keyload has made its recipients known as publishers, the new
    /// ones in the order in which it names them, and has added the session
    /// key that it hands to the party; nothing else differs.
    pub open spec fn took_in(
        self,
        after: PartyView,
        link: LinkView,
        message: MessageView,
        own: bool,
    ) -> bool {
        let branch = self.branch_of(message.header.sender);
        let slot = (self.slot_of(branch) + 1) as u64;
        let line = after.seen.last();
        let multi = self.channel.unwrap().multi_branching;
        &&& after.same_party(self)
        &&& after.seen == self.seen.push(line)
        &&& line.msgid@ == link.msgid
        &&& line.previous@ == message.header.previous_link.unwrap().msgid
        &&& line.parent == self.parent_of(line.previous@)
        &&& line.message_type == message.header.message_type
        &&& line.branch == branch
        &&& line.slot == slot
        &&& view_of_bytes(line.epoch) == self.epoch_of(message)
        &&& line.own == own
        &&& after.shared_slot == if multi {
            self.shared_slot
        } else {
            slot
        }
        &&& after.cursors.len() >= self.cursors.len()
        &&& forall|i: int|
            0 <= i < self.cursors.len() ==> {
                &&& (#[trigger] after.cursors[i]).publisher@ == self.cursors[i].publisher@
                &&& after.cursors[i].slot == if multi && i == branch {
                    slot
                } else {
                    self.cursors[i].slot
                }
            }
        &&& forall|i: int|
            self.cursors.len() <= i < after.cursors.len() ==> {
                &&& (#[trigger] after.cursors[i]).slot == 0
                &&& message.header.message_type is Keyload
                &&& recipient_of(message.public_payload, after.cursors[i].publisher@)
            }
        &&& forall|i: int, j: int|
            self.cursors.len() <= i < j < after.cursors.len() ==> first_entry(
                message.public_payload,
                (#[trigger] after.cursors[i]).publisher@,
            ) < first_entry(message.public_payload, (#[trigger] after.cursors[j]).publisher@)
        &&& message.header.message_type is Keyload ==> forall|entry: int|
            0 <= entry < entry_count(message.public_payload) ==> after.knows(
                #[trigger] entry_recipient(message.public_payload, entry),
            )
        &&& match self.handed_key(message, own) {
            Some(key) => {
                &&& after.keys == self.keys.push(after.keys.last())
                &&& after.keys.last().epoch@ == link.msgid
                &&& after.keys.last().key@ == key
            },
            None => after.keys == self.keys,
        }
    }

    /// What the handing in of the frame found at a link comes to. Where the
    /// party refuses the frame or puts it off, nothing has changed. Else the
    /// party has taken the message in, and the delivery tells of it as the
    /// party reads it.
    pub open spec fn accepted(
        self,
        after: PartyView,
        link: LinkView,
        frame: Seq<u8>,
        own: bool,
        outcome: Result<Option<Delivery>, Error>,
    ) -> bool {
        match outcome {
            Err(error) => self.refusal(link, frame, own) == Some(error) && after == self,
            Ok(None) => self.deferral(link, frame, own) && after == self,
            Ok(Some(delivery)) => {
                let message = decoded(frame).unwrap();
                &&& self.refusal(link, frame, own) is None
                &&& !self.deferral(link, frame, own)
                &&& self.took_in(after, link, message, own)
                &&& delivery@.link == link
                &&& Some(delivery@.previous_link) == message.header.previous_link
                &&& delivery@.body == content_of(message, self.reading(message))
            },
        }
    }

    /// Whether the publisher at a place among the cursors has a frame waiting
    /// on the ledger where its next message has to be.
    pub open spec fn waiting(self, ledger: Seq<Entry>, branch: int) -> bool {
        &&& self.slot_of(branch) < u64::MAX
        &&& published(ledger, self.next_link(self.cursors[branch].publisher@)) is Some
    }

    /// The frame that waits for the party on the branch of a publisher.
    pub open spec fn waiting_frame(self, ledger: Seq<Entry>, branch: int) -> Seq<u8> {
        published(ledger, self.next_link(self.cursors[branch].publisher@)).unwrap()
    }

    /// Whether a delivery gives the masked payload of a packet as the party
    /// reads it: what it gives is what the key of the packet's epoch, which
    /// the party holds in the state `after`, opens the masked payload to; and
    /// it gives the payload where the party held the key of the epoch in this
    /// state already. `line` is the line of the journal for the delivery.
    pub open spec fn read_as(
        self,
        after: PartyView,
        line: Seen,
        delivery: DeliveryView,
        ledger: Seq<Entry>,
    ) -> bool {
        let message = decoded(published(ledger, delivery.link).unwrap()).unwrap();
        let epoch = view_of_bytes(line.epoch);
        message.header.message_type.packet() ==> {
            &&& masked_part(delivery.body) matches Some(plain) ==> {
                &&& after.epoch_key(epoch) matches Some(key)
                &&& unmasked(key, message.header, message.public_payload, message.masked_payload)
                    == Some(plain)
            }
            &&& self.epoch_key(epoch) is Some ==> masked_part(delivery.body) is Some
        }
    }

    /// Whether `after` comes of this state by taking in the messages that
    /// `deliveries` tell of, in this order, from `ledger`: the journal has a
    /// line more for each of them, none of them the party's own, and what
    /// was in the journal is still there; a delivery gives the masked payload
    /// of a packet as the party reads it; cursors and keys have only grown,
    /// and every key that is new is the key of a keyload among the deliveries.
    pub open spec fn extended(
        self,
        after: PartyView,
        deliveries: Seq<Delivery>,
        ledger: Seq<Entry>,
    ) -> bool {
        &&& after.same_party(self)
        &&& after.seen.len() == self.seen.len() + deliveries.len()
        &&& forall|i: int| 0 <= i < self.seen.len() ==> #[trigger] after.seen[i] == self.seen[i]
        &&& forall|k: int|
            0 <= k < deliveries.len() ==> told(
                after.seen[self.seen.len() + k],
                #[trigger] deliveries[k]@,
                ledger,
            )
        &&& forall|k: int|
            0 <= k < deliveries.len() ==> self.read_as(
                after,
                after.seen[self.seen.len() + k],
                #[trigger] deliveries[k]@,
                ledger,
            )
        &&& after.keys.len() >= self.keys.len()
        &&& forall|i: int| 0 <= i < self.keys.len() ==> #[trigger] after.keys[i] == self.keys[i]
        &&& forall|i: int|
            self.keys.len() <= i < after.keys.len() ==> brought_by(
                deliveries,
                (#[trigger] after.keys[i]).epoch@,
            )
        &&& after.cursors.len() >= self.cursors.len()
        &&& forall|i: int|
            0 <= i < self.cursors.len() ==> {
                &&& (#[trigger] after.cursors[i]).publisher@ == self.cursors[i].publisher@
                &&& after.cursors[i].slot >= self.cursors[i].slot
            }
        &&& after.shared_slot >= self.shared_slot
    }

    /// Whether the ledger holds nothing that the party could take in now: on
    /// no branch a frame is waiting, but for frames whose message is linked
    /// to one that has not come yet.
    pub open spec fn idle(self, ledger: Seq<Entry>) -> bool {
        &&& self.channel is Some
        &&& forall|branch: int|
            0 <= branch < self.cursors.len() && #[trigger] self.waiting(ledger, branch)
                ==> self.deferral(
                self.next_link(self.cursors[branch].publisher@),
                self.waiting_frame(ledger, branch),
                false,
            )
    }

    /// Whether a branch gives the party nothing to do for now: no frame waits
    /// on it, or the frame that waits is put off.
    pub open spec fn passes(self, ledger: Seq<Entry>, branch: int) -> bool {
        self.waiting(ledger, branch) ==> self.deferral(
            self.next_link(self.cursors[branch].publisher@),
            self.waiting_frame(ledger, branch),
            false,
        )
    }

    /// Whether all branches before `branch` give the party nothing to do.
    pub open spec fn passes_before(self, ledger: Seq<Entry>, branch: int) -> bool {
        forall|k: int| 0 <= k < branch ==> #[trigger] self.passes(ledger, k)
    }

    /// Whether the party refuses, for the reason `error`, the frame that
    /// waits on a branch, which is the first branch that gives it something
    /// to do.
    pub open spec fn refused_on(self, ledger: Seq<Entry>, branch: int, error: Error) -> bool {
        &&& 0 <= branch < self.cursors.len()
        &&& self.waiting(ledger, branch)
        &&& self.refusal(
            self.next_link(self.cursors[branch].publisher@),
            self.waiting_frame(ledger, branch),
            false,
        ) == Some(error)
        &&& self.passes_before(ledger, branch)
    }

    /// Whether the first step that the party makes from this state is the
    /// step on `branch` that `delivery` tells of: the branch is the first
    /// that gives the party something to do.
    pub open spec fn first_step(
        self,
        next: PartyView,
        delivery: DeliveryView,
        ledger: Seq<Entry>,
        branch: int,
    ) -> bool {
        &&& self.steps_on(next, delivery, ledger, branch)
        &&& self.passes_before(ledger, branch)
    }

    /// Whether two publishers have a frame waiting for the same slot of the
    /// one branch of a channel with one branch.
    pub open spec fn forked(self, ledger: Seq<Entry>) -> bool {
        &&& !self.channel.unwrap().multi_branching
        &&& exists|first: int, second: int|
            0 <= first < second < self.cursors.len() && #[trigger] self.waiting(ledger, first)
                && #[trigger] self.waiting(ledger, second)
    }

    /// Whether fetching fails with `error`: the party has no channel; or the
    /// ledger is out of reach; or the one branch forks; or the party refuses
    /// the frame that waits on the first branch that gives it something to do.
    pub open spec fn stuck(self, ledger: Seq<Entry>, online: bool, error: Error) -> bool {
        if self.channel is None {
            error == Error::ChannelNotFound
        } else if !online {
            error == Error::TransportError
        } else if self.forked(ledger) {
            error == Error::AmbiguousLink
        } else {
            exists|branch: int| #[trigger] self.refused_on(ledger, branch, error)
        }
    }

    /// Whether `after` comes of this state by one step on a branch: the
    /// frame that waits on the ledger where the next message of the branch
    /// has to be is neither refused nor put off, the party has taken its
    /// message in, and `delivery` tells of the message as the party reads it
    /// in this state.
    #[verifier::opaque]
    pub open spec fn steps_on(
        self,
        after: PartyView,
        delivery: DeliveryView,
        ledger: Seq<Entry>,
        branch: int,
    ) -> bool {
        let link = self.next_link(self.cursors[branch].publisher@);
        let frame = self.waiting_frame(ledger, branch);
        let message = decoded(frame).unwrap();
        &&& 0 <= branch < self.cursors.len()
        &&& self.waiting(ledger, branch)
        &&& self.refusal(link, frame, false) is None
        &&& !self.deferral(link, frame, false)
        &&& self.took_in(after, link, message, false)
        &&& after.wf()
        &&& delivery.link == link
        &&& Some(delivery.previous_link) == message.header.previous_link
        &&& delivery.body == content_of(message, self.reading(message))
    }

    /// Whether `after` comes of this state by one step on some branch.
    pub open spec fn stepped(
        self,
        after: PartyView,
        delivery: DeliveryView,
        ledger: Seq<Entry>,
    ) -> bool {
        exists|branch: int| #[trigger] self.steps_on(after, delivery, ledger, branch)
    }

    /// Whether `states` are the states that the party goes through from this
    /// state to `after`, one step for each of `deliveries` in their order.
    pub open spec fn trail(
        self,
        after: PartyView,
        deliveries: Seq<Delivery>,
        ledger: Seq<Entry>,
        states: Seq<PartyView>,
    ) -> bool {
        &&& states.len() == deliveries.len() + 1
        &&& states[0] == self
        &&& states[deliveries.len() as int] == after
        &&& forall|k: int|
            0 <= k < deliveries.len() ==> (#[trigger] states[k]).stepped(
                states[k + 1],
                deliveries[k]@,
                ledger,
            )
    }

    /// Whether `after` comes of this state step by step, one step for each
    /// of `deliveries` in their order: every delivery is the message of the
    /// frame that waited at the next link of a branch when its turn came.
    pub open spec fn followed(
        self,
        after: PartyView,
        deliveries: Seq<Delivery>,
        ledger: Seq<Entry>,
    ) -> bool {
        exists|states: Seq<PartyView>| #[trigger] self.trail(after, deliveries, ledger, states)
    }

    /// Whether step `k` of a round is made as a round makes it: on the first
    /// branch, from where the round stands, that gives the party something
    /// to do in the state that it is in.
    pub open spec fn round_step(
        states: Seq<PartyView>,
        branches: Seq<int>,
        deliveries: Seq<Delivery>,
        ledger: Seq<Entry>,
        k: int,
    ) -> bool {
        &&& scan_start(branches, k) <= branches[k] < states[0].cursors.len()
        &&& states[k].steps_on(states[k + 1], deliveries[k]@, ledger, branches[k])
        &&& forall|j: int|
            scan_start(branches, k) <= j < branches[k] ==> #[trigger] states[k].passes(ledger, j)
    }

    /// Whether `states` and `branches` are the states that the party goes
    /// through and the branches on which it steps in one round over the
    /// branches that it knows in this state, in their order.
    pub open spec fn round(
        self,
        after: PartyView,
        deliveries: Seq<Delivery>,
        ledger: Seq<Entry>,
        states: Seq<PartyView>,
        branches: Seq<int>,
    ) -> bool {
        &&& states.len() == deliveries.len() + 1
        &&& branches.len() == deliveries.len()
        &&& states[0] == self
        &&& states[deliveries.len() as int] == after
        &&& forall|k: int|
            0 <= k < deliveries.len() ==> #[trigger] PartyView::round_step(
                states,
                branches,
                deliveries,
                ledger,
                k,
            )
    }

    /// Whether a round that has come to the state `after` ends at the branch
    /// `from`: every branch from there on gives the party nothing to do, or
    /// the first that does holds a frame that the party refuses.
    pub open spec fn round_ends(self, after: PartyView, ledger: Seq<Entry>, from: int) -> bool {
        ||| forall|j: int| from <= j < self.cursors.len() ==> #[trigger] after.passes(ledger, j)
        ||| exists|j: int|
            {
                &&& from <= j < self.cursors.len()
                &&& #[trigger] after.waiting(ledger, j)
                &&& after.refusal(
                    after.next_link(after.cursors[j].publisher@),
                    after.waiting_frame(ledger, j),
                    false,
                ) is Some
                &&& forall|i: int| from <= i < j ==> #[trigger] after.passes(ledger, i)
            }
    }

    /// Whether `after` comes of this state by one round over the branches
    /// that the party knows in this state: the party looks at each of them
    /// once, in their order, steps on every branch that gives it something
    /// to do when its turn comes, and ends at a frame that it refuses or
    /// behind the last branch.
    pub open spec fn swept(
        self,
        after: PartyView,
        deliveries: Seq<Delivery>,
        ledger: Seq<Entry>,
    ) -> bool {
        exists|states: Seq<PartyView>, branches: Seq<int>|
            {
                &&& #[trigger] self.round(after, deliveries, ledger, states, branches)
                &&& self.round_ends(after, ledger, scan_start(branches, deliveries.len() as int))
            }
    }

    /// One more step of a round.
    pub proof fn lemma_round_one_more(
        self,
        middle: PartyView,
        after: PartyView,
        deliveries: Seq<Delivery>,
        delivery: Delivery,
        ledger: Seq<Entry>,
        states: Seq<PartyView>,
        branches: Seq<int>,
        branch: int,
    )
        requires
            self.round(middle, deliveries, ledger, states, branches),
            scan_start(branches, deliveries.len() as int) <= branch < self.cursors.len(),
            middle.steps_on(after, delivery@, ledger, branch),
            forall|j: int|
                scan_start(branches, deliveries.len() as int) <= j < branch
                    ==> #[trigger] middle.passes(ledger, j),
        ensures
            self.round(
                after,
                deliveries.push(delivery),
                ledger,
                states.push(after),
                branches.push(branch),
            ),
            scan_start(branches.push(branch), deliveries.len() as int + 1) == branch + 1,
    {
        let longer = deliveries.push(delivery);
        let more = states.push(after);
        let further = branches.push(branch);
        assert forall|k: int| 0 <= k < longer.len() implies #[trigger] PartyView::round_step(
            more,
            further,
            longer,
            ledger,
            k,
        ) by {
            assert(scan_start(further, k) == scan_start(branches, k));
            if k < deliveries.len() {
                assert(PartyView::round_step(states, branches, deliveries, ledger, k));
                assert(more[k] == states[k]);
                assert(more[k + 1] == states[k + 1]);
                assert(further[k] == branches[k]);
                assert(longer[k] == deliveries[k]);
            } else {
                assert(more[k] == middle);
            }
        }
    }

    /// What a call of `fetch_next_msgs` comes to. Where it succeeds, the
    /// party has followed the branches step by step and delivers what it
    /// took in; from a state in which nothing is to be had it delivers
    /// nothing, and a call that delivers nothing has changed nothing, and
    /// nothing was to be had; the first step is made on the first branch that
    /// gives the party something to do; on the one branch of a channel with
    /// one branch a call takes one step at most, and none where the branch
    /// forks; in a channel with many branches a call makes one round over
    /// the branches. Where it fails, nothing has changed,
    /// and the error is the reason why fetching is stuck. It fails whenever
    /// the party has no channel or the ledger is out of reach.
    pub open spec fn fetched(
        self,
        after: PartyView,
        ledger: Seq<Entry>,
        online: bool,
        outcome: Result<Vec<Delivery>, Error>,
    ) -> bool {
        match outcome {
            Ok(deliveries) => {
                &&& online
                &&& self.channel is Some
                &&& !self.forked(ledger)
                &&& self.followed(after, deliveries@, ledger)
                &&& self.extended(after, deliveries@, ledger)
                &&& deliveries@.len() == 0 <==> self.idle(ledger)
                &&& deliveries@.len() > 0 ==> exists|next: PartyView, branch: int| #[trigger]
                    self.first_step(next, deliveries@[0]@, ledger, branch)
                &&& !self.channel.unwrap().multi_branching ==> deliveries@.len() <= 1
                &&& self.channel.unwrap().multi_branching ==> self.swept(after, deliveries@, ledger)
            },
            Err(error) => after == self && self.stuck(ledger, online, error),
        }
    }

    /// What the fetching of everything comes to: the party has followed the
    /// branches step by step and has taken in `deliveries`; it stopped
    /// because nothing more was to be had, or for the error that is named.
    pub open spec fn fetched_all(
        self,
        after: PartyView,
        ledger: Seq<Entry>,
        online: bool,
        deliveries: Seq<Delivery>,
        stopped: Option<Error>,
    ) -> bool {
        &&& self.followed(after, deliveries, ledger)
        &&& self.extended(after, deliveries, ledger)
        &&& match stopped {
            None => online && after.idle(ledger),
            Some(error) => after.stuck(ledger, online, error),
        }
    }

    /// What is followed in two parts is followed as a whole.
    pub proof fn lemma_followed_twice(
        self,
        middle: PartyView,
        after: PartyView,
        first: Seq<Delivery>,
        second: Seq<Delivery>,
        ledger: Seq<Entry>,
    )
        requires
            self.followed(middle, first, ledger),
            middle.followed(after, second, ledger),
        ensures
            self.followed(after, first + second, ledger),
    {
        let head = choose|states: Seq<PartyView>|
            #[trigger] self.trail(middle, first, ledger, states);
        let tail = choose|states: Seq<PartyView>|
            #[trigger] middle.trail(after, second, ledger, states);
        let all = first + second;
        let states = Seq::new(
            all.len() + 1,
            |k: int|
                if k <= first.len() {
                    head[k]
                } else {
                    tail[k - first.len()]
                },
        );
        assert forall|k: int| 0 <= k < all.len() implies (#[trigger] states[k]).stepped(
            states[k + 1],
            all[k]@,
            ledger,
        ) by {
            if k < first.len() {
                assert(head[k].stepped(head[k + 1], first[k]@, ledger));
            } else {
                let j = k - first.len();
                assert(tail[j].stepped(tail[j + 1], second[j]@, ledger));
            }
        }
        assert(self.trail(after, all, ledger, states));
    }

    /// One step is followed.
    pub proof fn lemma_followed_one_more(
        self,
        middle: PartyView,
        after: PartyView,
        deliveries: Seq<Delivery>,
        delivery: Delivery,
        ledger: Seq<Entry>,
        branch: int,
    )
        requires
            self.followed(middle, deliveries, ledger),
            middle.steps_on(after, delivery@, ledger, branch),
        ensures
            self.followed(after, deliveries.push(delivery), ledger),
            deliveries.len() == 0 ==> !self.idle(ledger),
    {
        let states = choose|states: Seq<PartyView>|
            #[trigger] self.trail(middle, deliveries, ledger, states);
        let longer = deliveries.push(delivery);
        let more = states.push(after);
        assert(middle.stepped(after, delivery@, ledger));
        assert(deliveries.len() == 0 ==> !self.idle(ledger)) by {
            reveal(PartyView::steps_on);
        }
        assert forall|k: int| 0 <= k < longer.len() implies (#[trigger] more[k]).stepped(
            more[k + 1],
            longer[k]@,
            ledger,
        ) by {
            if k < deliveries.len() {
                assert(states[k].stepped(states[k + 1], deliveries[k]@, ledger));
            }
        }
        assert(self.trail(after, longer, ledger, more));
    }

    /// Nothing is followed by standing still.
    pub proof fn lemma_followed_nothing(self, ledger: Seq<Entry>)
        ensures
            self.followed(self, Seq::<Delivery>::empty(), ledger),
    {
        assert(self.trail(self, Seq::<Delivery>::empty(), ledger, seq![self]));
    }

    /// The header of the message that the party would publish next.
    pub open spec fn next_header(self, message_type: MessageType, anchor: LinkView) -> HeaderView {
        HeaderView {
            link: self.next_link(self.public.signing),
            previous_link: Some(anchor),
            message_type,
            sender: self.public.signing,
        }
    }

    /// The message that the party would publish next: linked to `anchor`,
    /// the masked payload of a packet sealed under the key of the anchor's
    /// epoch, signed where the type is a signed one.
    pub open spec fn drafted(
        self,
        message_type: MessageType,
        anchor: LinkView,
        public_payload: Seq<u8>,
        masked_payload: Seq<u8>,
    ) -> MessageView {
        let header = self.next_header(message_type, anchor);
        encoded(
            header,
            public_payload,
            if message_type.packet() {
                masked(
                    self.epoch_key(self.epoch_at(self.parent_of(anchor.msgid))).unwrap(),
                    header,
                    public_payload,
                    masked_payload,
                )
            } else {
                masked_payload
            },
            if message_type.signed() {
                Some(self.signing_secret)
            } else {
                None
            },
        )
    }

    /// Why the party cannot publish a message of a type, linked to `anchor`,
    /// with these payloads, if it cannot.
    pub open spec fn draft_refusal(
        self,
        message_type: MessageType,
        anchor: LinkView,
        public_payload: Seq<u8>,
        masked_payload: Seq<u8>,
    ) -> Option<Error> {
        if self.channel is None {
            Some(Error::ChannelNotFound)
        } else if !message_type.sequenced() || !anchor.wf() || anchor.appinst != self.appinst()
            || public_payload.len() > u32::MAX || masked_payload.len() > u32::MAX - TAG_LEN {
            Some(Error::MalformedMessage)
        } else if !self.knows(self.public.signing) {
            Some(Error::MembershipError)
        } else if self.slot_of(self.branch_of(self.public.signing)) == u64::MAX {
            Some(Error::MalformedMessage)
        } else if self.reachable(self.next_link(self.public.signing).msgid) {
            Some(Error::AmbiguousLink)
        } else if !self.reachable(anchor.msgid) {
            Some(Error::MalformedMessage)
        } else if message_type is Keyload {
            if self.public.signing != self.channel.unwrap().author.signing {
                Some(Error::MembershipError)
            } else if !is_keyload_payload(public_payload) || masked_payload.len() != 0 {
                Some(Error::MalformedMessage)
            } else {
                None
            }
        } else if message_type.packet() && self.epoch_key(
            self.epoch_at(self.parent_of(anchor.msgid)),
        ) is None {
            Some(Error::AuthenticationError)
        } else {
            None
        }
    }

    /// What the publishing of the party's next message comes to. Where it
    /// succeeds, the message stands on the ledger at the next link of the
    /// party's branch, and the party has taken it in as its own, as it takes
    /// in what it fetches: nothing is wrong with the frame. Where it
    /// fails, nothing has changed: the error is the reason why the message
    /// cannot be made, or, where it can be made, the ledger's refusal. It
    /// succeeds wherever the message can be made and the ledger does not
    /// refuse it. What was on the ledger before is still there.
    pub open spec fn sent(
        self,
        after: PartyView,
        ledger_before: Seq<Entry>,
        ledger_after: Seq<Entry>,
        online: bool,
        message_type: MessageType,
        anchor: LinkView,
        public_payload: Seq<u8>,
        masked_payload: Seq<u8>,
        outcome: Result<Link, Error>,
    ) -> bool {
        let message = self.drafted(message_type, anchor, public_payload, masked_payload);
        let refusal = self.draft_refusal(message_type, anchor, public_payload, masked_payload);
        let next = self.next_link(self.public.signing);
        &&& forall|other: LinkView|
            published(ledger_before, other) is Some ==> #[trigger] published(ledger_after, other)
                == published(ledger_before, other)
        &&& match outcome {
            Ok(link) => {
                &&& refusal is None
                &&& !refuses(ledger_before, online, next, message.frame())
                &&& link@ == next
                &&& link.wf()
                &&& published(ledger_after, link@) == Some(message.frame())
                &&& decoded(message.frame()) == Ok::<MessageView, DecodeError>(message)
                &&& forall|other: LinkView|
                    other != link@ ==> #[trigger] published(ledger_after, other) == published(
                        ledger_before,
                        other,
                    )
                &&& self.refusal(link@, message.frame(), true) is None
                &&& !self.deferral(link@, message.frame(), true)
                &&& self.took_in(after, link@, message, true)
                &&& after.wf()
                &&& message_type.packet() ==> self.reading(message) == Some(masked_payload)
            },
            Err(error) => {
                &&& after == self
                &&& ledger_after == ledger_before
                &&& refusal is Some ==> refusal == Some(error)
                &&& refusal is None ==> {
                    &&& error == Error::TransportError
                    &&& refuses(ledger_before, online, next, message.frame())
                }
            },
        }
    }

    /// In a well-formed state a publisher stands at one place only.
    pub proof fn lemma_branch(self, branch: int)
        requires
            self.wf(),
            self.channel is Some,
            0 <= branch < self.cursors.len(),
        ensures
            self.knows(self.cursors[branch].publisher@),
            self.branch_of(self.cursors[branch].publisher@) == branch,
    {
    }

    /// In a well-formed state a message stands at one place only.
    pub proof fn lemma_place(self, place: int)
        requires
            self.wf(),
            self.channel is Some,
            0 <= place < self.seen.len(),
        ensures
            self.has_seen(self.seen[place].msgid@),
            self.reachable(self.seen[place].msgid@),
            self.place_of(self.seen[place].msgid@) == place,
            self.parent_of(self.seen[place].msgid@) == Some(place as usize),
    {
        assert(self.line_wf(place));
    }

    /// A publisher that is known stays known while cursors are only added.
    pub proof fn lemma_knows_grows(self, after: PartyView, publisher: Seq<u8>)
        requires
            self.knows(publisher),
            after.cursors.len() >= self.cursors.len(),
            forall|i: int|
                0 <= i < self.cursors.len() ==> (#[trigger] after.cursors[i]).publisher@
                    == self.cursors[i].publisher@,
        ensures
            after.knows(publisher),
    {
        let place = self.branch_of(publisher);
        assert(after.cursors[place].publisher@ == publisher);
    }

    /// The key that a party holds for an epoch is the key that it holds for
    /// it after more keys have come.
    pub proof fn lemma_epoch_key_stays(self, after: PartyView, epoch: Option<Seq<u8>>)
        requires
            self.channel == after.channel,
            self.keys.len() <= after.keys.len(),
            forall|i: int| 0 <= i < self.keys.len() ==> #[trigger] after.keys[i] == self.keys[i],
            self.epoch_key(epoch) is Some,
        ensures
            after.epoch_key(epoch) == self.epoch_key(epoch),
    {
        match epoch {
            Some(keyload) => {
                lemma_key_among_more(self.keys, after.keys, keyload);
            },
            None => {},
        }
    }

    /// What two calls of `fetch_next_msgs` deliver, one after the other from
    /// the same ledger, comes to what one call would that delivers all of it.
    pub proof fn lemma_extended_twice(
        self,
        middle: PartyView,
        after: PartyView,
        first: Seq<Delivery>,
        second: Seq<Delivery>,
        ledger: Seq<Entry>,
    )
        requires
            self.extended(middle, first, ledger),
            middle.extended(after, second, ledger),
        ensures
            self.extended(after, first + second, ledger),
    {
        let all = first + second;
        let start = self.seen.len() as int;
        assert forall|k: int| 0 <= k < all.len() implies told(
            after.seen[start + k],
            #[trigger] all[k]@,
            ledger,
        ) by {
            if k >= first.len() {
                assert(told(
                    after.seen[middle.seen.len() + (k - first.len())],
                    second[k - first.len()]@,
                    ledger,
                ));
            }
        }
        assert forall|k: int| 0 <= k < all.len() implies self.read_as(
            after,
            after.seen[start + k],
            #[trigger] all[k]@,
            ledger,
        ) by {
            let line = after.seen[start + k];
            let epoch = view_of_bytes(line.epoch);
            if k < first.len() {
                if middle.epoch_key(epoch) is Some {
                    middle.lemma_epoch_key_stays(after, epoch);
                }
            } else {
                assert(middle.read_as(
                    after,
                    after.seen[middle.seen.len() + (k - first.len())],
                    second[k - first.len()]@,
                    ledger,
                ));
                if self.epoch_key(epoch) is Some {
                    self.lemma_epoch_key_stays(middle, epoch);
                }
            }
        }
        assert forall|i: int| self.keys.len() <= i < after.keys.len() implies brought_by(
            all,
            (#[trigger] after.keys[i]).epoch@,
        ) by {
            if i < middle.keys.len() {
                let k = choose|k: int|
                    0 <= k < first.len() && (#[trigger] first[k])@.body is Keyload
                        && first[k]@.link.msgid == middle.keys[i].epoch@;
                assert(all[k] == first[k]);
            } else {
                let k = choose|k: int|
                    0 <= k < second.len() && (#[trigger] second[k])@.body is Keyload
                        && second[k]@.link.msgid == after.keys[i].epoch@;
                assert(all[first.len() + k] == second[k]);
            }
        }
    }
}

/// Every publisher has a key of the right length and stands among the
/// cursors once.
pub open spec fn cursors_wf(cursors: Seq<Cursor>) -> bool {
    &&& forall|i: int|
        0 <= i < cursors.len() ==> (#[trigger] cursors[i]).publisher@.len() == KEY_LEN
    &&& forall|i: int, j: int|
        0 <= i < j < cursors.len() ==> (#[trigger] cursors[i]).publisher@ != (
        #[trigger] cursors[j]).publisher@
}

/// Every session key has the length of a key.
pub open spec fn keys_wf(keys: Seq<EpochKey>) -> bool {
    forall|i: int| 0 <= i < keys.len() ==> (#[trigger] keys[i]).key@.len() == KEY_LEN
}

/// No message stands in the journal twice.
pub open spec fn journal_wf(seen: Seq<Seen>) -> bool {
    forall|i: int, j: int|
        0 <= i < j < seen.len() ==> (#[trigger] seen[i]).msgid@ != (#[trigger] seen[j]).msgid@
}

/// The branch at which a round stands before its step `k`: the first
/// branch, or the one behind the branch of the step before.
pub open spec fn scan_start(branches: Seq<int>, k: int) -> int {
    if k == 0 {
        0
    } else {
        branches[k - 1] + 1
    }
}

/// The key of an epoch among `keys`: the first one kept for the epoch.
pub open spec fn key_among(keys: Seq<EpochKey>, epoch: Seq<u8>) -> Option<Seq<u8>>
    decreases keys.len(),
{
    if keys.len() == 0 {
        None
    } else {
        match key_among(keys.drop_last(), epoch) {
            Some(key) => Some(key),
            None => if keys.last().epoch@ == epoch {
                Some(keys.last().key@)
            } else {
                None
            },
        }
    }
}

/// A key that is held among the first keys is held among all of them.
pub proof fn lemma_key_stays(keys: Seq<EpochKey>, count: int, epoch: Seq<u8>)
    requires
        0 <= count <= keys.len(),
        key_among(keys.take(count), epoch) is Some,
    ensures
        key_among(keys, epoch) == key_among(keys.take(count), epoch),
    decreases keys.len() - count,
{
    if count == keys.len() {
        assert(keys.take(count) == keys);
    } else {
        assert(keys.take(count + 1).drop_last() == keys.take(count));
        lemma_key_stays(keys, count + 1, epoch);
    }
}

/// Keys that are added behind the keys of an epoch do not change the key of
/// the epoch; keys for other epochs do not give it one.
pub proof fn lemma_key_among_more(keys: Seq<EpochKey>, more: Seq<EpochKey>, epoch: Seq<u8>)
    requires
        keys.len() <= more.len(),
        forall|i: int| 0 <= i < keys.len() ==> #[trigger] more[i] == keys[i],
        key_among(keys, epoch) is Some || forall|i: int|
            keys.len() <= i < more.len() ==> (#[trigger] more[i]).epoch@ != epoch,
    ensures
        key_among(more, epoch) == key_among(keys, epoch),
    decreases more.len() - keys.len(),
{
    if keys.len() == more.len() {
        assert(more =~= keys);
    } else {
        let shorter = more.drop_last();
        lemma_key_among_more(keys, shorter, epoch);
    }
}

/// The place of the first entry of a keyload's payload that names a recipient.
pub open spec fn first_entry(payload: Seq<u8>, recipient: Seq<u8>) -> int {
    entry_for(payload, recipient, entry_count(payload)).unwrap()
}

/// Whether an entry of a keyload's payload names a recipient.
pub open spec fn recipient_of(payload: Seq<u8>, recipient: Seq<u8>) -> bool {
    exists|entry: int|
        0 <= entry < entry_count(payload) && #[trigger] entry_recipient(payload, entry)
            == recipient
}

/// What a reader got of the masked payload of a delivery.
pub open spec fn masked_part(body: ContentView) -> Option<Seq<u8>> {
    match body {
        ContentView::SignedPacket { masked_payload, .. } => masked_payload,
        ContentView::TaggedPacket { masked_payload, .. } => masked_payload,
        _ => None,
    }
}

/// Whether a delivery tells of the message that is published at its link:
/// the frame there decodes, and the delivery gives its links, its type, its
/// sender and its public payload as they stand in the frame.
pub open spec fn from_ledger(ledger: Seq<Entry>, delivery: DeliveryView) -> bool {
    &&& published(ledger, delivery.link) matches Some(frame)
    &&& decoded(frame) matches Ok(message)
    &&& message.header.link == delivery.link
    &&& message.header.previous_link == Some(delivery.previous_link)
    &&& delivery.body == content_of(message, masked_part(delivery.body))
}

/// Whether a line of the journal stands for a delivery from the ledger.
pub open spec fn told(line: Seen, delivery: DeliveryView, ledger: Seq<Entry>) -> bool {
    &&& line.msgid@ == delivery.link.msgid
    &&& line.previous@ == delivery.previous_link.msgid
    &&& !line.own
    &&& from_ledger(ledger, delivery)
}

/// Whether a keyload with the given id is among `deliveries`.
pub open spec fn brought_by(deliveries: Seq<Delivery>, epoch: Seq<u8>) -> bool {
    exists|k: int|
        0 <= k < deliveries.len() && (#[trigger] deliveries[k])@.body is Keyload
            && deliveries[k]@.link.msgid == epoch
}

/// What is published at a link stands at that link in an entry of the ledger.
pub proof fn lemma_published_is_entry(ledger: Seq<Entry>, link: LinkView)
    requires
        published(ledger, link) is Some,
    ensures
        exists|i: int| 0 <= i < ledger.len() && (#[trigger] ledger[i]).link@ == link,
    decreases ledger.len(),
{
    if published(ledger.drop_last(), link) is Some {
        lemma_published_is_entry(ledger.drop_last(), link);
        let i = choose|i: int|
            0 <= i < ledger.drop_last().len() && (#[trigger] ledger.drop_last()[i]).link@ == link;
    }
}

/// No more is delivered than is published: the messages that a party takes
/// in from a ledger, in however many calls, are no more than the ledger holds.
pub proof fn lemma_deliveries_bounded(
    before: PartyView,
    after: PartyView,
    deliveries: Seq<Delivery>,
    ledger: Seq<Entry>,
)
    requires
        after.wf(),
        after.channel is Some,
        before.extended(after, deliveries, ledger),
    ensures
        deliveries.len() <= ledger.len(),
{
    let ids = Seq::new(deliveries.len(), |k: int| deliveries[k]@.link.msgid);
    let held = ledger.map_values(|entry: Entry| entry.link@.msgid);
    assert forall|id: Seq<u8>| ids.to_set().contains(id) implies held.to_set().contains(id) by {
        let k = choose|k: int| 0 <= k < ids.len() && ids[k] == id;
        lemma_published_is_entry(ledger, deliveries[k]@.link);
        let i = choose|i: int|
            0 <= i < ledger.len() && (#[trigger] ledger[i]).link@ == deliveries[k]@.link;
        assert(held[i] == id);
    }
    ids.unique_seq_to_set();
    held.lemma_cardinality_of_set();
    vstd::seq_lib::seq_to_set_is_finite(held);
    vstd::set_lib::lemma_len_subset(ids.to_set(), held.to_set());
}
} // verus!

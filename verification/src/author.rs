//! The author of a channel: it announces the channel, admits subscribers,
//! and starts the epochs by handing session keys to the recipients it chooses.

use crate::access::derive_session_key;
use crate::access::entries_of;
use crate::access::entry_count;
use crate::access::entry_of;
use crate::access::entry_recipient;
use crate::access::entry_wrapped;
use crate::access::is_keyload_payload;
use crate::access::keyload_payload;
use crate::access::read_wrapped;
use crate::access::recipients_wf;
use crate::access::session_key;
use crate::bytes::Bytes;
use crate::bytes::copy_of;
use crate::bytes::same_bytes;
use crate::delivery::Delivery;
use crate::error::DecodeError;
use crate::error::Error;
use crate::handshake::announce_link;
use crate::handshake::announce_message;
use crate::handshake::announced;
use crate::handshake::announcement;
use crate::handshake::read_subscription;
use crate::handshake::read_unsubscription;
use crate::handshake::subscriber_of;
use crate::handshake::subscription_refusal;
use crate::handshake::unsubscribed;
use crate::identity::Identity;
use crate::identity::PublicIdentity;
use crate::identity::PublicIdentityView;
use crate::identity::derive_identity;
use crate::identity::unwrapped_key;
use crate::link::Link;
use crate::link::LinkView;
use crate::message::MessageType;
use crate::message::MessageView;
use crate::message::decoded;
use crate::party::Party;
use crate::primitives::KEY_LEN;
use crate::primitives::x25519_public;
use crate::state::Channel;
use crate::state::ChannelView;
use crate::state::PartyView;
use crate::transport::Entry;
use crate::transport::Ledger;
use crate::transport::published;
use crate::transport::refuses;
use vstd::prelude::*;
use vstd::string::StringSliceAdditionalSpecFns;

verus! {
/// How far an author has come with its channel.
#[derive(Clone, Copy, Debug, PartialEq, Eq, Structural)]
pub enum AuthorState {
    /// The author has an identity and no channel yet.
    Created,
    /// The channel is announced.
    Announced,
    /// The author has admitted a subscriber or published into the channel.
    Active,
}

/// Where a subscriber stands with the author.
#[derive(Clone, Copy, Debug, PartialEq, Eq, Structural)]
pub enum MemberState {
    /// Admitted, and not yet among the recipients of a keyload.
    Pending,
    /// Among the recipients of a keyload.
    Active,
    /// The subscriber has left: no keyload is made for it any more.
    Revoked,
}

/// One entry of the membership set.
#[derive(Debug)]
pub struct Member {
    /// The public keys of the subscriber.
    pub keys: PublicIdentity,
    /// Where the subscriber stands.
    pub state: MemberState,
    /// The key material that the latest keyload for the subscriber holds for
    /// it: the session key, sealed for the subscriber. Empty before the first.
    pub material: Vec<u8>,
}

/// The state of an author as a mathematical value.
pub struct AuthorView {
    pub party: PartyView,
    pub multi_branching: bool,
    pub channel_index: u64,
    pub members: Seq<Member>,
    pub active: bool,
}

/// Nobody is in the membership set twice, and every member has keys of the
/// right length.
pub open spec fn members_wf(members: Seq<Member>) -> bool {
    &&& forall|i: int|
        0 <= i < members.len() ==> (#[trigger] members[i]).keys@.signing.len() == KEY_LEN
            && members[i].keys@.exchange.len() == KEY_LEN
    &&& forall|i: int, j: int|
        0 <= i < j < members.len() ==> (#[trigger] members[i]).keys@.signing != (
        #[trigger] members[j]).keys@.signing
}

/// Whether a subscriber is in the membership set.
pub open spec fn is_member(members: Seq<Member>, signing: Seq<u8>) -> bool {
    exists|i: int| 0 <= i < members.len() && (#[trigger] members[i]).keys@.signing == signing
}

/// The place of a subscriber in the membership set.
pub open spec fn member_place(members: Seq<Member>, signing: Seq<u8>) -> int {
    choose|i: int| 0 <= i < members.len() && (#[trigger] members[i]).keys@.signing == signing
}

/// Whether a keyload can be made for a subscriber: it is a member and has
/// not left.
pub open spec fn is_entitled(members: Seq<Member>, signing: Seq<u8>) -> bool {
    is_member(members, signing) && !(members[member_place(members, signing)].state is Revoked)
}

/// Whether a signing key is among the first `count` of `recipients`.
pub open spec fn listed_before(recipients: Seq<Vec<u8>>, signing: Seq<u8>, count: int) -> bool {
    exists|i: int| 0 <= i < count && i < recipients.len() && (#[trigger] recipients[i])@ == signing
}

/// The place of the last of the first `count` of `recipients` that is the
/// signing key, or -1 where none is.
pub open spec fn last_listing(recipients: Seq<Vec<u8>>, signing: Seq<u8>, count: int) -> int
    decreases count,
{
    if count <= 0 {
        -1
    } else if count - 1 < recipients.len() && recipients[count - 1]@ == signing {
        count - 1
    } else {
        last_listing(recipients, signing, count - 1)
    }
}

/// Whether `after` is what becomes of the member `before` when a keyload
/// with the given payload is made for the first `count` of `recipients`: a
/// member among them is active and has the key material of the last entry
/// that names it; any other member is as it was.
pub open spec fn settled(
    before: Member,
    after: Member,
    payload: Seq<u8>,
    recipients: Seq<Vec<u8>>,
    count: int,
) -> bool {
    let signing = before.keys@.signing;
    &&& after.keys@ == before.keys@
    &&& if listed_before(recipients, signing, count) {
        &&& after.state is Active
        &&& after.material@ == entry_wrapped(payload, last_listing(recipients, signing, count))
    } else {
        &&& after.state == before.state
        &&& after.material@ == before.material@
    }
}

/// Whether a keyload can be made for every one of `recipients`.
pub open spec fn all_entitled(members: Seq<Member>, recipients: Seq<Vec<u8>>) -> bool {
    forall|i: int|
        0 <= i < recipients.len() ==> is_entitled(members, (#[trigger] recipients[i])@)
}

/// The keys of the member that a keyload names as a recipient.
pub open spec fn keys_of(members: Seq<Member>, signing: Seq<u8>) -> PublicIdentityView {
    members[member_place(members, signing)].keys@
}

/// The entries of a keyload at `link` for the first `count` of `recipients`,
/// each with the keys that the membership set has for it.
pub open spec fn member_entries(
    author_secret: Seq<u8>,
    link: LinkView,
    members: Seq<Member>,
    recipients: Seq<Vec<u8>>,
    count: int,
) -> Seq<u8>
    decreases count,
{
    if count <= 0 {
        Seq::empty()
    } else {
        member_entries(author_secret, link, members, recipients, count - 1) + entry_of(
            author_secret,
            link,
            keys_of(members, recipients[count - 1]@),
        )
    }
}

/// The entries for recipients are the entries for the keys that the
/// membership set has for them.
pub proof fn lemma_member_entries(
    author_secret: Seq<u8>,
    link: LinkView,
    members: Seq<Member>,
    recipients: Seq<Vec<u8>>,
    identities: Seq<PublicIdentity>,
    count: int,
)
    requires
        0 <= count <= recipients.len(),
        count <= identities.len(),
        forall|i: int|
            0 <= i < count ==> (#[trigger] identities[i])@ == keys_of(members, recipients[i]@),
    ensures
        entries_of(author_secret, link, identities, count) == member_entries(
            author_secret,
            link,
            members,
            recipients,
            count,
        ),
    decreases count,
{
    if count > 0 {
        lemma_member_entries(author_secret, link, members, recipients, identities, count - 1);
    }
}

/// Whether the keyload `payload` at `link` gives every one of `recipients`
/// the session key of its epoch: entry by entry it names the recipient, and
/// who holds the secret key of the recipient opens the entry to the key.
pub open spec fn serves(
    payload: Seq<u8>,
    author: PublicIdentityView,
    author_secret: Seq<u8>,
    link: LinkView,
    members: Seq<Member>,
    recipients: Seq<Vec<u8>>,
) -> bool {
    &&& is_keyload_payload(payload)
    &&& entry_count(payload) == recipients.len()
    &&& forall|i: int|
        0 <= i < recipients.len() ==> #[trigger] entry_recipient(payload, i) == recipients[i]@
    &&& forall|i: int, secret: Seq<u8>|
        0 <= i < recipients.len() && secret.len() == KEY_LEN && keys_of(
            members,
            recipients[i]@,
        ).exchange == #[trigger] x25519_public(secret) ==> unwrapped_key(
            secret,
            author.exchange,
            link.bytes(),
            #[trigger] entry_wrapped(payload, i),
        ) == Some(session_key(author_secret, link))
}

/// A member stands at one place only.
pub proof fn lemma_member_place(members: Seq<Member>, place: int)
    requires
        members_wf(members),
        0 <= place < members.len(),
    ensures
        is_member(members, members[place].keys@.signing),
        member_place(members, members[place].keys@.signing) == place,
{
}

impl AuthorView {
    /// The channel that the author announces.
    pub open spec fn own_channel(self) -> ChannelView {
        ChannelView {
            announcement: announce_link(self.party.public.signing, self.channel_index),
            author: self.party.public,
            multi_branching: self.multi_branching,
        }
    }

    /// The frame of the announcement of the author's channel.
    pub open spec fn announcement_frame(self) -> Seq<u8> {
        announce_message(
            self.party.public,
            self.party.signing_secret,
            self.channel_index,
            self.multi_branching,
        ).frame()
    }

    /// How far the author has come.
    pub open spec fn state(self) -> AuthorState {
        if self.party.channel is None {
            AuthorState::Created
        } else if self.active {
            AuthorState::Active
        } else {
            AuthorState::Announced
        }
    }

    /// Why the author does not admit the subscriber whose subscription is to
    /// be at `link`, given whether the ledger is within reach and what it
    /// holds there, if it does not.
    pub open spec fn subscribe_refusal(
        self,
        online: bool,
        found: Option<Seq<u8>>,
        link: LinkView,
    ) -> Option<Error> {
        if self.party.channel is None {
            Some(Error::ChannelNotFound)
        } else if !online {
            Some(Error::TransportError)
        } else {
            match found {
                None => Some(Error::MembershipError),
                Some(frame) => match subscription_refusal(
                    self.party.exchange_secret,
                    self.own_channel(),
                    link,
                    frame,
                ) {
                    Some(error) => Some(error),
                    None => {
                        let subscriber = subscriber_of(self.party.exchange_secret, link, frame);
                        if subscriber.signing == self.party.public.signing || (is_member(
                            self.members,
                            subscriber.signing,
                        ) && !is_entitled(self.members, subscriber.signing)) {
                            Some(Error::MembershipError)
                        } else {
                            None
                        }
                    },
                },
            }
        }
    }

    /// Why the author does not let the subscriber go whose leave is to be at
    /// `link`, given whether the ledger is within reach and what it holds
    /// there, if it does not.
    pub open spec fn unsubscribe_refusal(
        self,
        online: bool,
        found: Option<Seq<u8>>,
        link: LinkView,
    ) -> Option<Error> {
        if self.party.channel is None {
            Some(Error::ChannelNotFound)
        } else if !online {
            Some(Error::TransportError)
        } else {
            match found {
                None => Some(Error::MembershipError),
                Some(frame) => match unsubscribed(self.own_channel(), link, frame) {
                    Some(signing) => if is_member(self.members, signing) {
                        None
                    } else {
                        Some(Error::MembershipError)
                    },
                    None => if decoded(frame) == Err::<MessageView, DecodeError>(
                        DecodeError::MalformedMessage,
                    ) {
                        Some(Error::MalformedMessage)
                    } else {
                        Some(Error::MembershipError)
                    },
                },
            }
        }
    }

    /// The payload of the keyload that the author would publish next for
    /// `recipients`.
    pub open spec fn keyload_entries(self, recipients: Seq<Vec<u8>>) -> Seq<u8> {
        member_entries(
            self.party.exchange_secret,
            self.party.next_link(self.party.public.signing),
            self.members,
            recipients,
            recipients.len() as int,
        )
    }

    /// Why the author cannot publish a keyload for `recipients`, linked to
    /// `anchor`, if it cannot, the ledger left aside.
    pub open spec fn keyload_refusal(self, anchor: LinkView, recipients: Seq<Vec<u8>>) -> Option<
        Error,
    > {
        if self.party.channel is None {
            Some(Error::ChannelNotFound)
        } else if !all_entitled(self.members, recipients) {
            Some(Error::MembershipError)
        } else if self.party.slot_of(0) == u64::MAX {
            Some(Error::MalformedMessage)
        } else {
            self.party.draft_refusal(
                MessageType::Keyload,
                anchor,
                self.keyload_entries(recipients),
                Seq::empty(),
            )
        }
    }

    /// Whether `members` is the membership set after the members among the
    /// first `count` of `recipients` have become active and have got the key
    /// material that the entries of the keyload `payload` hold for them.
    pub open spec fn activated(
        self,
        members: Seq<Member>,
        payload: Seq<u8>,
        recipients: Seq<Vec<u8>>,
        count: int,
    ) -> bool {
        &&& members.len() == self.members.len()
        &&& forall|i: int|
            0 <= i < self.members.len() ==> settled(
                self.members[i],
                #[trigger] members[i],
                payload,
                recipients,
                count,
            )
    }

    /// Whether `after` is the state that comes of this one when the author
    /// publishes the keyload `message` at `link`: the author has taken in
    /// its own message and keeps the session key of the new epoch.
    pub open spec fn published_keyload(
        self,
        after: AuthorView,
        link: LinkView,
        message: MessageView,
    ) -> bool {
        &&& self.party.took_in(
            PartyView { keys: self.party.keys, ..after.party },
            link,
            message,
            true,
        )
        &&& after.party.keys == self.party.keys.push(after.party.keys.last())
        &&& after.party.keys.last().epoch@ == link.msgid
        &&& after.party.keys.last().key@ == session_key(self.party.exchange_secret, link)
        &&& after.multi_branching == self.multi_branching
        &&& after.channel_index == self.channel_index
        &&& after.active
    }

    /// What the publishing of a keyload for `recipients`, linked to `anchor`,
    /// comes to. Where it succeeds, the keyload stands on the ledger at the
    /// next link of the author's branch and serves every recipient, the
    /// author has taken it in and keeps the session key, and the recipients
    /// are active members. Where it fails, nothing has changed: the error is
    /// the reason why the keyload cannot be made, or, where it can be made,
    /// the ledger's refusal. It succeeds wherever the keyload can be made and
    /// the ledger does not refuse it. What was on the ledger before is still
    /// there.
    pub open spec fn keyload_outcome(
        self,
        after: AuthorView,
        ledger_before: Seq<Entry>,
        ledger_after: Seq<Entry>,
        online: bool,
        anchor: LinkView,
        recipients: Seq<Vec<u8>>,
        outcome: Result<Link, Error>,
    ) -> bool {
        &&& forall|other: LinkView|
            published(ledger_before, other) is Some ==> #[trigger] published(ledger_after, other)
                == published(ledger_before, other)
        &&& match outcome {
            Ok(link) => {
                let payload = self.keyload_entries(recipients);
                let message = self.party.drafted(
                    MessageType::Keyload,
                    anchor,
                    payload,
                    Seq::empty(),
                );
                &&& self.keyload_refusal(anchor, recipients) is None
                &&& !refuses(ledger_before, online, link@, message.frame())
                &&& link@ == self.party.next_link(self.party.public.signing)
                &&& link.wf()
                &&& published(ledger_after, link@) == Some(message.frame())
                &&& decoded(message.frame()) == Ok::<MessageView, DecodeError>(message)
                &&& forall|other: LinkView|
                    other != link@ ==> #[trigger] published(ledger_after, other) == published(
                        ledger_before,
                        other,
                    )
                &&& serves(
                    payload,
                    self.party.public,
                    self.party.exchange_secret,
                    link@,
                    self.members,
                    recipients,
                )
                &&& self.party.refusal(link@, message.frame(), true) is None
                &&& !self.party.deferral(link@, message.frame(), true)
                &&& self.published_keyload(after, link@, message)
                &&& self.activated(after.members, payload, recipients, recipients.len() as int)
            },
            Err(error) => {
                let refusal = self.keyload_refusal(anchor, recipients);
                &&& after == self
                &&& ledger_after == ledger_before
                &&& refusal is Some ==> refusal == Some(error)
                &&& refusal is None ==> {
                    &&& error == Error::TransportError
                    &&& refuses(
                        ledger_before,
                        online,
                        self.party.next_link(self.party.public.signing),
                        self.party.drafted(
                            MessageType::Keyload,
                            anchor,
                            self.keyload_entries(recipients),
                            Seq::empty(),
                        ).frame(),
                    )
                }
            },
        }
    }

    /// Whether `recipients` are all the members who have not left, each
    /// named once, in the order of the membership set.
    pub open spec fn everyone(self, recipients: Seq<Vec<u8>>) -> bool {
        &&& all_entitled(self.members, recipients)
        &&& forall|i: int|
            0 <= i < self.members.len() && !((#[trigger] self.members[i]).state is Revoked)
                ==> listed_before(
                recipients,
                self.members[i].keys@.signing,
                recipients.len() as int,
            )
        &&& forall|i: int, j: int|
            0 <= i < j < recipients.len() ==> member_place(
                self.members,
                (#[trigger] recipients[i])@,
            ) < member_place(self.members, (#[trigger] recipients[j])@)
    }

    /// What the publishing of a packet, linked to `anchor`, comes to. Where
    /// it succeeds, the packet stands on the ledger at the next link of the
    /// author's branch, and the author has taken it in as its own. Where it
    /// fails, nothing has changed: the error is the reason why the packet
    /// cannot be made, or, where it can be made, the ledger's refusal; see
    /// `PartyView::sent`.
    pub open spec fn packet_outcome(
        self,
        after: AuthorView,
        ledger_before: Seq<Entry>,
        ledger_after: Seq<Entry>,
        online: bool,
        message_type: MessageType,
        anchor: LinkView,
        public_payload: Seq<u8>,
        masked_payload: Seq<u8>,
        outcome: Result<Link, Error>,
    ) -> bool {
        &&& after.multi_branching == self.multi_branching
        &&& after.channel_index == self.channel_index
        &&& after.members == self.members
        &&& self.party.sent(
            after.party,
            ledger_before,
            ledger_after,
            online,
            message_type,
            anchor,
            public_payload,
            masked_payload,
            outcome,
        )
        &&& match outcome {
            Ok(_) => after.active,
            Err(_) => after.active == self.active,
        }
    }

    /// The invariant of an author's state.
    pub open spec fn wf(self) -> bool {
        &&& self.party.wf()
        &&& members_wf(self.members)
        &&& match self.party.channel {
            Some(channel) => {
                &&& channel == self.own_channel()
                &&& self.party.cursors.len() > 0
                &&& self.party.cursors[0].publisher@ == self.party.public.signing
            },
            None => self.members.len() == 0 && !self.active,
        }
    }
}

/// The author of a channel.
pub struct Author {
    party: Party,
    multi_branching: bool,
    channel_index: u64,
    members: Vec<Member>,
    active: bool,
}

impl View for Author {
    type V = AuthorView;

    closed spec fn view(&self) -> AuthorView {
        AuthorView {
            party: self.party@,
            multi_branching: self.multi_branching,
            channel_index: self.channel_index,
            members: self.members@,
            active: self.active,
        }
    }
}

impl Author {
    /// The invariant of the state.
    pub open spec fn wf(&self) -> bool {
        self@.wf()
    }

    /// The identity of the author, as far as the contracts speak of it.
    pub closed spec fn identity(&self) -> Identity {
        self.party.identity()
    }

    /// An author with the identity that `seed` gives, for its first channel.
    pub fn new(seed: &str, multi_branching: bool) -> (author: Author)
        ensures
            author.wf(),
            author@.state() == AuthorState::Created,
            author@.multi_branching == multi_branching,
            author@.channel_index == 0,
            author.identity().derived_from(seed.spec_bytes()),
            author.identity().keys_match(),
            author@.party.public == author.identity().public(),
            author@.party.signing_secret == author.identity().signing_secret(),
            author@.party.exchange_secret == author.identity().exchange_secret(),
    {
        Author::with_index(seed, multi_branching, 0)
    }

    /// An author with the identity that `seed` gives, for the channel with
    /// the given index among its channels.
    pub fn with_index(seed: &str, multi_branching: bool, channel_index: u64) -> (author: Author)
        ensures
            author.wf(),
            author@.state() == AuthorState::Created,
            author@.multi_branching == multi_branching,
            author@.channel_index == channel_index,
            author.identity().derived_from(seed.spec_bytes()),
            author.identity().keys_match(),
            author@.party.public == author.identity().public(),
            author@.party.signing_secret == author.identity().signing_secret(),
            author@.party.exchange_secret == author.identity().exchange_secret(),
    {
        let party = Party::new(derive_identity(seed));
        Author { party, multi_branching, channel_index, members: Vec::new(), active: false }
    }

    /// How far the author has come with its channel.
    pub fn state(&self) -> (state: AuthorState)
        ensures
            state == self@.state(),
    {
        if self.party.channel().is_none() {
            AuthorState::Created
        } else if self.active {
            AuthorState::Active
        } else {
            AuthorState::Announced
        }
    }

    /// The author as a party of its channel.
    pub fn party(&self) -> (party: &Party)
        ensures
            party@ == self@.party,
            party.identity() == self.identity(),
    {
        &self.party
    }

    /// The number of members.
    pub fn member_count(&self) -> (count: usize)
        ensures
            count == self@.members.len(),
    {
        self.members.len()
    }

    /// The place of a subscriber in the membership set.
    pub fn find_member(&self, signing: &[u8]) -> (place: Option<usize>)
        requires
            self.wf(),
        ensures
            match place {
                Some(i) => {
                    &&& i < self@.members.len()
                    &&& self@.members[i as int].keys@.signing == signing@
                    &&& is_member(self@.members, signing@)
                    &&& member_place(self@.members, signing@) == i
                },
                None => !is_member(self@.members, signing@),
            },
    {
        let mut i: usize = 0;
        while i < self.members.len()
            invariant
                i <= self.members@.len(),
                members_wf(self.members@),
                forall|k: int| 0 <= k < i ==> (#[trigger] self.members@[k]).keys@.signing != signing@,
            decreases self.members@.len() - i,
        {
            if same_bytes(self.members[i].keys.signing.as_slice(), signing) {
                proof {
                    lemma_member_place(self.members@, i as int);
                }
                return Some(i);
            }
            i += 1;
        }
        None
    }

    /// The key material that the latest keyload for a subscriber holds for
    /// it, if the subscriber is a member; empty before the first keyload.
    pub fn member_material(&self, signing: &[u8]) -> (material: Option<Vec<u8>>)
        requires
            self.wf(),
        ensures
            match material {
                Some(m) => is_member(self@.members, signing@) && m@ == self@.members[member_place(
                    self@.members,
                    signing@,
                )].material@,
                None => !is_member(self@.members, signing@),
            },
    {
        match self.find_member(signing) {
            Some(place) => Some(copy_of(self.members[place].material.as_slice())),
            None => None,
        }
    }

    /// Where a subscriber stands with the author, if it is a member.
    pub fn member_state(&self, signing: &[u8]) -> (state: Option<MemberState>)
        requires
            self.wf(),
        ensures
            match state {
                Some(s) => is_member(self@.members, signing@) && s == self@.members[member_place(
                    self@.members,
                    signing@,
                )].state,
                None => !is_member(self@.members, signing@),
            },
    {
        match self.find_member(signing) {
            Some(place) => Some(self.members[place].state),
            None => None,
        }
    }

    /// Announces the channel: publishes the announcement, the root of the
    /// channel, and gives its link, which is to be handed to subscribers.
    ///
    /// The announcement follows from the author's identity, the index of the
    /// channel and the branching mode alone. To announce again is to publish
    /// the same frame at the same link once more, which changes nothing. The
    /// author takes up the channel only once the ledger has the announcement.
    /// The ledger refuses the announcement while it is out of reach, and where
    /// another frame stands at the link; nothing else makes announcing fail.
    pub fn send_announce(&mut self, ledger: &mut Ledger) -> (outcome: Result<Link, Error>)
        requires
            old(self).wf(),
        ensures
            final(self).wf(),
            final(self).identity() == old(self).identity(),
            final(self)@.multi_branching == old(self)@.multi_branching,
            final(self)@.channel_index == old(self)@.channel_index,
            final(self)@.members == old(self)@.members,
            final(self)@.party.same_party(
                PartyView { channel: final(self)@.party.channel, ..old(self)@.party },
            ),
            final(ledger).online() == old(ledger).online(),
            forall|other: LinkView|
                other != old(self)@.own_channel().announcement ==> #[trigger] published(
                    final(ledger)@,
                    other,
                ) == published(old(ledger)@, other),
            outcome is Err <==> refuses(
                old(ledger)@,
                old(ledger).online(),
                old(self)@.own_channel().announcement,
                old(self)@.announcement_frame(),
            ),
            match outcome {
                Ok(link) => {
                    &&& link@ == old(self)@.own_channel().announcement
                    &&& link.wf()
                    &&& final(ledger).at(link@) == Some(old(self)@.announcement_frame())
                    &&& announced(link@, old(self)@.announcement_frame()) == Some(
                        old(self)@.own_channel(),
                    )
                    &&& final(self)@.party.channel == Some(old(self)@.own_channel())
                    &&& if old(self)@.state() is Created {
                        &&& final(self)@.state() is Announced
                        &&& final(self)@.party.seen.len() == 0
                        &&& final(self)@.party.keys.len() == 0
                        &&& final(self)@.party.shared_slot == 0
                        &&& final(self)@.party.cursors.len() == 1
                        &&& final(self)@.party.cursors[0].publisher@
                            == old(self)@.party.public.signing
                        &&& final(self)@.party.cursors[0].slot == 0
                    } else {
                        final(self)@ == old(self)@
                    }
                },
                Err(error) => {
                    &&& error == Error::TransportError
                    &&& final(self)@ == old(self)@
                    &&& final(ledger)@ == old(ledger)@
                },
            },
    {
        let outgoing = announcement(
            self.party.own_identity(),
            self.channel_index,
            self.multi_branching,
        );
        match ledger.publish(&outgoing.link, outgoing.frame.as_slice()) {
            Ok(()) => {},
            Err(error) => {
                return Err(error);
            },
        }
        if self.party.channel().is_none() {
            let channel = Channel {
                announcement: outgoing.link.clone(),
                author: self.party.own_identity().public_identity(),
                multi_branching: self.multi_branching,
            };
            self.party.join(channel);
        }
        Ok(outgoing.link)
    }

    /// Admits the subscriber whose subscription stands at `link`: the
    /// subscriber is added to the membership set as pending. A subscriber who
    /// is a member already stays what it is.
    ///
    /// Refused for the sake of membership are: a link at which nothing
    /// stands; a subscription whose signature fails or that is not properly
    /// linked to the announcement of this channel; one of the author itself;
    /// one of a subscriber who has left.
    pub fn receive_subscribe(&mut self, ledger: &Ledger, link: &Link) -> (outcome: Result<
        (),
        Error,
    >)
        requires
            old(self).wf(),
        ensures
            final(self).wf(),
            final(self).identity() == old(self).identity(),
            final(self)@.party == old(self)@.party,
            final(self)@.multi_branching == old(self)@.multi_branching,
            final(self)@.channel_index == old(self)@.channel_index,
            match outcome {
                Ok(()) => {
                    let subscriber = subscriber_of(
                        old(self)@.party.exchange_secret,
                        link@,
                        ledger.at(link@).unwrap(),
                    );
                    &&& old(self)@.subscribe_refusal(ledger.online(), ledger.at(link@), link@)
                        is None
                    &&& final(self)@.active
                    &&& is_entitled(final(self)@.members, subscriber.signing)
                    &&& if is_member(old(self)@.members, subscriber.signing) {
                        final(self)@.members == old(self)@.members
                    } else {
                        &&& final(self)@.members == old(self)@.members.push(
                            final(self)@.members.last(),
                        )
                        &&& final(self)@.members.last().keys@ == subscriber
                        &&& final(self)@.members.last().state is Pending
                        &&& final(self)@.members.last().material@.len() == 0
                    }
                },
                Err(error) => {
                    &&& old(self)@.subscribe_refusal(ledger.online(), ledger.at(link@), link@)
                        == Some(error)
                    &&& final(self)@ == old(self)@
                },
            },
    {
        let channel = match self.party.channel() {
            Some(channel) => channel,
            None => {
                return Err(Error::ChannelNotFound);
            },
        };
        let frame = match ledger.fetch(link) {
            Ok(Some(frame)) => frame,
            Ok(None) => {
                return Err(Error::MembershipError);
            },
            Err(error) => {
                return Err(error);
            },
        };
        let keys = match read_subscription(
            self.party.own_identity(),
            channel,
            link,
            frame.as_slice(),
        ) {
            Ok(keys) => keys,
            Err(error) => {
                return Err(error);
            },
        };
        if same_bytes(keys.signing.as_slice(), self.party.own_identity().signing_key()) {
            return Err(Error::MembershipError);
        }
        match self.find_member(keys.signing.as_slice()) {
            Some(place) => {
                if matches!(self.members[place].state, MemberState::Revoked) {
                    return Err(Error::MembershipError);
                }
                self.active = true;
            },
            None => {
                self.members.push(
                    Member { keys, state: MemberState::Pending, material: Vec::new() },
                );
                self.active = true;
                proof {
                    let before = old(self)@.members;
                    let after = self@.members;
                    let last = before.len() as int;
                    lemma_member_place(after, last);
                }
            },
        }
        Ok(())
    }

    /// Lets the subscriber go whose leave stands at `link`: the subscriber is
    /// marked as revoked, and no keyload is made for it any more.
    ///
    /// Refused for the sake of membership are: a link at which nothing
    /// stands; a frame whose signature fails or that does not cancel a
    /// subscription to this channel; the leave of someone who is no member.
    pub fn receive_unsubscribe(&mut self, ledger: &Ledger, link: &Link) -> (outcome: Result<
        (),
        Error,
    >)
        requires
            old(self).wf(),
        ensures
            final(self).wf(),
            final(self).identity() == old(self).identity(),
            final(self)@.party == old(self)@.party,
            final(self)@.multi_branching == old(self)@.multi_branching,
            final(self)@.channel_index == old(self)@.channel_index,
            final(self)@.active == old(self)@.active,
            match outcome {
                Ok(()) => {
                    let signing = unsubscribed(
                        old(self)@.own_channel(),
                        link@,
                        ledger.at(link@).unwrap(),
                    ).unwrap();
                    let place = member_place(old(self)@.members, signing);
                    &&& old(self)@.unsubscribe_refusal(ledger.online(), ledger.at(link@), link@)
                        is None
                    &&& final(self)@.members.len() == old(self)@.members.len()
                    &&& is_member(final(self)@.members, signing)
                    &&& !is_entitled(final(self)@.members, signing)
                    &&& forall|i: int|
                        0 <= i < old(self)@.members.len() ==> {
                            &&& (#[trigger] final(self)@.members[i]).keys@
                                == old(self)@.members[i].keys@
                            &&& final(self)@.members[i].material@
                                == old(self)@.members[i].material@
                            &&& final(self)@.members[i].state == if i == place {
                                MemberState::Revoked
                            } else {
                                old(self)@.members[i].state
                            }
                        }
                },
                Err(error) => {
                    &&& old(self)@.unsubscribe_refusal(ledger.online(), ledger.at(link@), link@)
                        == Some(error)
                    &&& final(self)@ == old(self)@
                },
            },
    {
        let channel = match self.party.channel() {
            Some(channel) => channel,
            None => {
                return Err(Error::ChannelNotFound);
            },
        };
        let frame = match ledger.fetch(link) {
            Ok(Some(frame)) => frame,
            Ok(None) => {
                return Err(Error::MembershipError);
            },
            Err(error) => {
                return Err(error);
            },
        };
        let signing = match read_unsubscription(channel, link, frame.as_slice()) {
            Ok(signing) => signing,
            Err(error) => {
                return Err(error);
            },
        };
        let place = match self.find_member(signing.as_slice()) {
            Some(place) => place,
            None => {
                return Err(Error::MembershipError);
            },
        };
        let keys = self.members[place].keys.clone();
        let material = copy_of(self.members[place].material.as_slice());
        self.members.set(place, Member { keys, state: MemberState::Revoked, material });
        proof {
            let after = self@.members;
            lemma_member_place(after, place as int);
        }
        Ok(())
    }

    /// The keys that the membership set has for `recipients`, in their order.
    fn identities_of(&self, recipients: &Vec<Vec<u8>>) -> (identities: Option<Vec<PublicIdentity>>)
        requires
            self.wf(),
        ensures
            match identities {
                Some(found) => {
                    &&& all_entitled(self@.members, recipients@)
                    &&& found@.len() == recipients@.len()
                    &&& forall|i: int|
                        0 <= i < found@.len() ==> (#[trigger] found@[i])@ == keys_of(
                            self@.members,
                            recipients@[i]@,
                        )
                    &&& recipients_wf(found@)
                },
                None => !all_entitled(self@.members, recipients@),
            },
    {
        let mut found: Vec<PublicIdentity> = Vec::new();
        let mut i: usize = 0;
        while i < recipients.len()
            invariant
                self.wf(),
                i <= recipients@.len(),
                found@.len() == i,
                forall|k: int| 0 <= k < i ==> is_entitled(self@.members, (#[trigger] recipients@[k])@),
                forall|k: int|
                    0 <= k < i ==> (#[trigger] found@[k])@ == keys_of(
                        self@.members,
                        recipients@[k]@,
                    ),
                recipients_wf(found@),
            decreases recipients@.len() - i,
        {
            match self.find_member(recipients[i].as_slice()) {
                Some(place) => {
                    if matches!(self.members[place].state, MemberState::Revoked) {
                        return None;
                    }
                    let keys = self.members[place].keys.clone();
                    found.push(keys);
                },
                None => {
                    return None;
                },
            }
            i += 1;
        }
        Some(found)
    }

    /// Marks the members among `recipients` as active, and keeps for each
    /// the key material that the keyload `payload` holds for it.
    fn activate(&mut self, recipients: &Vec<Vec<u8>>, payload: &[u8])
        requires
            old(self).wf(),
            entry_count(payload@) == recipients@.len(),
        ensures
            final(self).wf(),
            final(self).identity() == old(self).identity(),
            final(self)@.party == old(self)@.party,
            final(self)@.multi_branching == old(self)@.multi_branching,
            final(self)@.channel_index == old(self)@.channel_index,
            final(self)@.active == old(self)@.active,
            old(self)@.activated(
                final(self)@.members,
                payload@,
                recipients@,
                recipients@.len() as int,
            ),
    {
        let mut i: usize = 0;
        while i < recipients.len()
            invariant
                self.wf(),
                i <= recipients@.len(),
                entry_count(payload@) == recipients@.len(),
                self.identity() == old(self).identity(),
                self@.party == old(self)@.party,
                self@.multi_branching == old(self)@.multi_branching,
                self@.channel_index == old(self)@.channel_index,
                self@.active == old(self)@.active,
                old(self)@.activated(self@.members, payload@, recipients@, i as int),
            decreases recipients@.len() - i,
        {
            let ghost before = self@.members;
            let ghost start = old(self)@.members;
            match self.find_member(recipients[i].as_slice()) {
                Some(place) => {
                    let keys = self.members[place].keys.clone();
                    let material = read_wrapped(payload, i);
                    self.members.set(place, Member { keys, state: MemberState::Active, material });
                    proof {
                        let after = self@.members;
                        assert forall|a: int| 0 <= a < start.len() implies settled(
                            start[a],
                            #[trigger] after[a],
                            payload@,
                            recipients@,
                            i + 1,
                        ) by {
                            let signing = start[a].keys@.signing;
                            assert(settled(start[a], before[a], payload@, recipients@, i as int));
                            if a != place {
                                assert(listed_before(recipients@, signing, i + 1) == listed_before(
                                    recipients@,
                                    signing,
                                    i as int,
                                ));
                            }
                        }
                    }
                },
                None => {
                    proof {
                        let after = self@.members;
                        assert forall|a: int| 0 <= a < start.len() implies settled(
                            start[a],
                            #[trigger] after[a],
                            payload@,
                            recipients@,
                            i + 1,
                        ) by {
                            let signing = start[a].keys@.signing;
                            assert(after[a].keys@.signing != recipients@[i as int]@);
                            assert(listed_before(recipients@, signing, i + 1) == listed_before(
                                recipients@,
                                signing,
                                i as int,
                            ));
                        }
                    }
                },
            }
            i += 1;
        }
    }

    /// Starts an epoch for chosen recipients: publishes a keyload, linked to
    /// `anchor`, that hands a fresh session key to every one of
    /// `recipients`, who are named by their signing keys. From here on the
    /// masked payloads of the messages linked behind the keyload are sealed
    /// under the new key; what was published before stays as it was.
    ///
    /// A recipient who is no member, or who has left, is refused for the
    /// sake of membership. Where the keyload cannot be made or the ledger
    /// does not take it, nothing has changed.
    pub fn send_keyload_for(
        &mut self,
        ledger: &mut Ledger,
        anchor: &Link,
        recipients: &Vec<Vec<u8>>,
    ) -> (outcome: Result<Link, Error>)
        requires
            old(self).wf(),
        ensures
            final(self).wf(),
            final(self).identity() == old(self).identity(),
            final(ledger).online() == old(ledger).online(),
            old(self)@.keyload_outcome(
                final(self)@,
                old(ledger)@,
                final(ledger)@,
                old(ledger).online(),
                anchor@,
                recipients@,
                outcome,
            ),
    {
        if self.party.channel().is_none() {
            return Err(Error::ChannelNotFound);
        }
        let identities = match self.identities_of(recipients) {
            Some(identities) => identities,
            None => {
                return Err(Error::MembershipError);
            },
        };
        proof {
            self@.party.lemma_branch(0);
        }
        let link = match self.party.next_link(0) {
            Some(link) => link,
            None => {
                return Err(Error::MalformedMessage);
            },
        };
        let payload = match keyload_payload(self.party.own_identity(), &link, &identities) {
            Ok(payload) => payload,
            Err(error) => {
                proof {
                    assert(false);
                }
                return Err(error);
            },
        };
        proof {
            lemma_member_entries(
                self@.party.exchange_secret,
                link@,
                self@.members,
                recipients@,
                identities@,
                recipients@.len() as int,
            );
            assert(serves(
                payload@,
                self@.party.public,
                self@.party.exchange_secret,
                link@,
                self@.members,
                recipients@,
            ));
        }
        let empty: Vec<u8> = Vec::new();
        match self.party.send(
            ledger,
            MessageType::Keyload,
            anchor,
            payload.as_slice(),
            empty.as_slice(),
        ) {
            Ok(_) => {},
            Err(error) => {
                return Err(error);
            },
        }
        let context = link.bytes();
        let key = derive_session_key(self.party.own_identity(), context.as_slice());
        let _ = self.party.install_key(link.msgid.as_slice(), key.as_slice());
        self.active = true;
        self.activate(recipients, payload.as_slice());
        Ok(link)
    }

    /// The signing keys of all members who have not left, in the order of
    /// the membership set.
    pub fn entitled_members(&self) -> (recipients: Vec<Vec<u8>>)
        requires
            self.wf(),
        ensures
            self@.everyone(recipients@),
    {
        let mut recipients: Vec<Vec<u8>> = Vec::new();
        let mut i: usize = 0;
        while i < self.members.len()
            invariant
                self.wf(),
                i <= self@.members.len(),
                all_entitled(self@.members, recipients@),
                forall|k: int|
                    0 <= k < i && !((#[trigger] self@.members[k]).state is Revoked)
                        ==> listed_before(
                        recipients@,
                        self@.members[k].keys@.signing,
                        recipients@.len() as int,
                    ),
                forall|a: int, b: int|
                    0 <= a < b < recipients@.len() ==> member_place(
                        self@.members,
                        (#[trigger] recipients@[a])@,
                    ) < member_place(self@.members, (#[trigger] recipients@[b])@),
                forall|a: int|
                    0 <= a < recipients@.len() ==> member_place(
                        self@.members,
                        (#[trigger] recipients@[a])@,
                    ) < i,
            decreases self@.members.len() - i,
        {
            if !matches!(self.members[i].state, MemberState::Revoked) {
                let ghost before = recipients@;
                recipients.push(copy_of(self.members[i].keys.signing.as_slice()));
                proof {
                    let after = recipients@;
                    let last = before.len() as int;
                    lemma_member_place(self@.members, i as int);
                    assert forall|k: int|
                        0 <= k < i + 1 && !((#[trigger] self@.members[k]).state is Revoked)
                        implies listed_before(
                        after,
                        self@.members[k].keys@.signing,
                        after.len() as int,
                    ) by {
                        if k < i {
                            let place = choose|p: int|
                                0 <= p < before.len() && p < before.len() && (
                                #[trigger] before[p])@ == self@.members[k].keys@.signing;
                            assert(after[place]@ == self@.members[k].keys@.signing);
                        } else {
                            assert(after[last]@ == self@.members[k].keys@.signing);
                        }
                    }
                }
            }
            i += 1;
        }
        recipients
    }

    /// Starts an epoch for everyone: publishes a keyload, linked to
    /// `anchor`, that hands a fresh session key to every member who has not
    /// left. Where the keyload cannot be made or the ledger does not take
    /// it, nothing has changed.
    pub fn send_keyload_for_everyone(&mut self, ledger: &mut Ledger, anchor: &Link) -> (outcome:
        Result<Link, Error>)
        requires
            old(self).wf(),
        ensures
            final(self).wf(),
            final(self).identity() == old(self).identity(),
            final(ledger).online() == old(ledger).online(),
            exists|recipients: Seq<Vec<u8>>|
                old(self)@.everyone(recipients) && #[trigger] old(self)@.keyload_outcome(
                    final(self)@,
                    old(ledger)@,
                    final(ledger)@,
                    old(ledger).online(),
                    anchor@,
                    recipients,
                    outcome,
                ),
    {
        let recipients = self.entitled_members();
        self.send_keyload_for(ledger, anchor, &recipients)
    }

    /// Publishes a packet that the author signs, linked to `anchor`, and
    /// gives its link. The public payload is for everyone; the masked
    /// payload is sealed under the key of the epoch of `anchor`. Where the
    /// packet cannot be made or the ledger does not take it, nothing has changed.
    pub fn send_signed_packet(
        &mut self,
        ledger: &mut Ledger,
        anchor: &Link,
        public_payload: &Bytes,
        masked_payload: &Bytes,
    ) -> (outcome: Result<Link, Error>)
        requires
            old(self).wf(),
        ensures
            final(self).wf(),
            final(self).identity() == old(self).identity(),
            final(ledger).online() == old(ledger).online(),
            old(self)@.packet_outcome(
                final(self)@,
                old(ledger)@,
                final(ledger)@,
                old(ledger).online(),
                MessageType::SignedPacket,
                anchor@,
                public_payload@,
                masked_payload@,
                outcome,
            ),
    {
        self.send_packet(ledger, MessageType::SignedPacket, anchor, public_payload, masked_payload)
    }

    /// Publishes a packet without a signature, linked to `anchor`, and gives
    /// its link. The payloads are treated as those of a signed packet.
    pub fn send_tagged_packet(
        &mut self,
        ledger: &mut Ledger,
        anchor: &Link,
        public_payload: &Bytes,
        masked_payload: &Bytes,
    ) -> (outcome: Result<Link, Error>)
        requires
            old(self).wf(),
        ensures
            final(self).wf(),
            final(self).identity() == old(self).identity(),
            final(ledger).online() == old(ledger).online(),
            old(self)@.packet_outcome(
                final(self)@,
                old(ledger)@,
                final(ledger)@,
                old(ledger).online(),
                MessageType::TaggedPacket,
                anchor@,
                public_payload@,
                masked_payload@,
                outcome,
            ),
    {
        self.send_packet(ledger, MessageType::TaggedPacket, anchor, public_payload, masked_payload)
    }

    /// Publishes a packet of the given type.
    fn send_packet(
        &mut self,
        ledger: &mut Ledger,
        message_type: MessageType,
        anchor: &Link,
        public_payload: &Bytes,
        masked_payload: &Bytes,
    ) -> (outcome: Result<Link, Error>)
        requires
            old(self).wf(),
            message_type.packet(),
        ensures
            final(self).wf(),
            final(self).identity() == old(self).identity(),
            final(ledger).online() == old(ledger).online(),
            old(self)@.packet_outcome(
                final(self)@,
                old(ledger)@,
                final(ledger)@,
                old(ledger).online(),
                message_type,
                anchor@,
                public_payload@,
                masked_payload@,
                outcome,
            ),
    {
        match self.party.send(
            ledger,
            message_type,
            anchor,
            public_payload.0.as_slice(),
            masked_payload.0.as_slice(),
        ) {
            Ok(link) => {
                self.active = true;
                Ok(link)
            },
            Err(error) => Err(error),
        }
    }

    /// Takes in what has newly come on the ledger for the author, as
    /// `Party::fetch_next_msgs` does.
    pub fn fetch_next_msgs(&mut self, ledger: &Ledger) -> (outcome: Result<Vec<Delivery>, Error>)
        requires
            old(self).wf(),
        ensures
            final(self).wf(),
            final(self).identity() == old(self).identity(),
            final(self)@.multi_branching == old(self)@.multi_branching,
            final(self)@.channel_index == old(self)@.channel_index,
            final(self)@.members == old(self)@.members,
            final(self)@.active == old(self)@.active,
            old(self)@.party.fetched(final(self)@.party, ledger@, ledger.online(), outcome),
    {
        let outcome = self.party.fetch_next_msgs(ledger);
        outcome
    }

    /// Takes in everything that the ledger holds, as `Party::fetch_all` does.
    pub fn fetch_all(&mut self, ledger: &Ledger) -> (outcome: (Vec<Delivery>, Option<Error>))
        requires
            old(self).wf(),
        ensures
            final(self).wf(),
            final(self).identity() == old(self).identity(),
            final(self)@.multi_branching == old(self)@.multi_branching,
            final(self)@.channel_index == old(self)@.channel_index,
            final(self)@.members == old(self)@.members,
            final(self)@.active == old(self)@.active,
            old(self)@.party.fetched_all(
                final(self)@.party,
                ledger@,
                ledger.online(),
                outcome.0@,
                outcome.1,
            ),
    {
        let outcome = self.party.fetch_all(ledger);
        outcome
    }

    /// Hands in the frame that was found at a link; see `Party::accept`. With
    /// `Party::next_link` and `Party::draft` this is the way to follow and to
    /// fill the branches over a transport of one's own.
    pub fn accept(&mut self, link: &Link, frame: &[u8], own: bool) -> (outcome: Result<
        Option<Delivery>,
        Error,
    >)
        requires
            old(self).wf(),
        ensures
            final(self).wf(),
            final(self).identity() == old(self).identity(),
            final(self)@.multi_branching == old(self)@.multi_branching,
            final(self)@.channel_index == old(self)@.channel_index,
            final(self)@.members == old(self)@.members,
            final(self)@.active == old(self)@.active,
            old(self)@.party.accepted(final(self)@.party, link@, frame@, own, outcome),
    {
        let outcome = self.party.accept(link, frame, own);
        outcome
    }
}
} // verus!

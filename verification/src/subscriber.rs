//! A subscriber of a channel: it takes up the channel from its announcement,
//! asks the author to be admitted, and follows the branches.

use crate::bytes::Bytes;
use crate::bytes::same_bytes;
use crate::delivery::Delivery;
use crate::error::Error;
use crate::handshake::announced;
use crate::handshake::read_announcement;
use crate::handshake::subscribe_link;
use crate::handshake::subscribe_message;
use crate::handshake::subscriber_of;
use crate::handshake::subscription;
use crate::handshake::subscription_refusal;
use crate::handshake::unsubscribe_link;
use crate::handshake::unsubscribe_message;
use crate::handshake::unsubscribed;
use crate::handshake::unsubscription;
use crate::identity::Identity;
use crate::identity::derive_identity;
use crate::link::Link;
use crate::link::LinkView;
use crate::message::MessageType;
use crate::party::Party;
use crate::primitives::KEY_LEN;
use crate::primitives::x25519_public;
use crate::state::ChannelView;
use crate::state::PartyView;
use crate::transport::Entry;
use crate::transport::Ledger;
use crate::transport::published;
use crate::transport::refuses;
use vstd::prelude::*;
use vstd::string::StringSliceAdditionalSpecFns;

verus! {
/// How far a subscriber has come with a channel.
#[derive(Clone, Copy, Debug, PartialEq, Eq, Structural)]
pub enum SubscriberState {
    /// The subscriber has an identity and no channel yet.
    Created,
    /// The subscriber has taken up a channel from its announcement.
    Joined,
    /// The subscription is published.
    Subscribed,
    /// The subscriber has left.
    Unsubscribed,
}

/// The state of a subscriber as a mathematical value.
pub struct SubscriberView {
    pub party: PartyView,
    pub state: SubscriberState,
}

impl SubscriberView {
    /// The invariant of a subscriber's state.
    pub open spec fn wf(self) -> bool {
        &&& self.party.wf()
        &&& self.state is Created <==> self.party.channel is None
    }

    /// Why the subscriber does not take up the channel whose announcement is
    /// to be at `link`, given whether the ledger is within reach and what it
    /// holds there, if it does not.
    pub open spec fn announcement_refusal(
        self,
        online: bool,
        found: Option<Seq<u8>>,
        link: LinkView,
    ) -> Option<Error> {
        if !online {
            Some(Error::TransportError)
        } else {
            match found {
                None => Some(Error::ChannelNotFound),
                Some(frame) => match announced(link, frame) {
                    None => Some(Error::InvalidAnnouncement),
                    Some(channel) => if self.party.channel is Some && self.party.channel != Some(
                        channel,
                    ) {
                        Some(Error::InvalidAnnouncement)
                    } else {
                        None
                    },
                },
            }
        }
    }

    /// Whether `after` is the state that comes of this one when the
    /// subscriber takes up `channel`: a subscriber that had no channel has
    /// joined it, with an empty journal, no keys, and a cursor for the
    /// author's branch at its start; one that had the channel is as it was.
    pub open spec fn took_up(self, after: SubscriberView, channel: ChannelView) -> bool {
        &&& after.party.channel == Some(channel)
        &&& after.party.same_party(PartyView { channel: Some(channel), ..self.party })
        &&& if self.state is Created {
            &&& after.state is Joined
            &&& after.party.seen.len() == 0
            &&& after.party.keys.len() == 0
            &&& after.party.shared_slot == 0
            &&& after.party.cursors.len() == 1
            &&& after.party.cursors[0].publisher@ == channel.author.signing
            &&& after.party.cursors[0].slot == 0
        } else {
            after == self
        }
    }

    /// Why the subscriber cannot publish its subscription to the channel
    /// announced at `link`, if it cannot, the ledger left aside.
    pub open spec fn subscribe_refusal(self, link: LinkView) -> Option<Error> {
        if self.party.channel is None || self.party.channel.unwrap().announcement != link {
            Some(Error::ChannelNotFound)
        } else if self.state is Unsubscribed {
            Some(Error::MembershipError)
        } else {
            None
        }
    }

    /// Why the subscriber cannot publish its leave, if it cannot, the ledger
    /// left aside.
    pub open spec fn unsubscribe_refusal(self) -> Option<Error> {
        if self.party.channel is None {
            Some(Error::ChannelNotFound)
        } else if !(self.state is Subscribed) {
            Some(Error::MembershipError)
        } else {
            None
        }
    }

    /// What the publishing of a packet, linked to `anchor`, comes to; see
    /// `PartyView::sent`.
    pub open spec fn packet_outcome(
        self,
        after: SubscriberView,
        ledger_before: Seq<Entry>,
        ledger_after: Seq<Entry>,
        online: bool,
        message_type: MessageType,
        anchor: LinkView,
        public_payload: Seq<u8>,
        masked_payload: Seq<u8>,
        outcome: Result<Link, Error>,
    ) -> bool {
        &&& after.state == self.state
        &&& self.party.sent(
            after.party,
            ledger_before,
            ledger_after,
            online,
            message_type,
            anchor,
            public_payload,
            masked_payload,
            outcome,
        )
    }
}

/// A subscriber of a channel.
pub struct Subscriber {
    party: Party,
    state: SubscriberState,
}

impl View for Subscriber {
    type V = SubscriberView;

    closed spec fn view(&self) -> SubscriberView {
        SubscriberView { party: self.party@, state: self.state }
    }
}

impl Subscriber {
    /// The invariant of the state.
    pub open spec fn wf(&self) -> bool {
        self@.wf()
    }

    /// The identity of the subscriber, as far as the contracts speak of it.
    pub closed spec fn identity(&self) -> Identity {
        self.party.identity()
    }

    /// A subscriber with the identity that `seed` gives.
    pub fn new(seed: &str) -> (subscriber: Subscriber)
        ensures
            subscriber.wf(),
            subscriber@.state is Created,
            subscriber.identity().derived_from(seed.spec_bytes()),
            subscriber.identity().keys_match(),
            subscriber@.party.public == subscriber.identity().public(),
            subscriber@.party.signing_secret == subscriber.identity().signing_secret(),
            subscriber@.party.exchange_secret == subscriber.identity().exchange_secret(),
    {
        Subscriber { party: Party::new(derive_identity(seed)), state: SubscriberState::Created }
    }

    /// How far the subscriber has come.
    pub fn state(&self) -> (state: SubscriberState)
        ensures
            state == self@.state,
    {
        self.state
    }

    /// The subscriber as a party of its channel.
    pub fn party(&self) -> (party: &Party)
        ensures
            party@ == self@.party,
            party.identity() == self.identity(),
    {
        &self.party
    }

    /// Takes up the channel whose announcement stands at `link`: the
    /// subscriber records the link, the author's keys and the branching
    /// mode, and from now on follows the author's branch. To receive the
    /// announcement of the channel that the subscriber has already changes
    /// nothing.
    ///
    /// Where nothing stands at the link there is no channel to be found.
    /// What stands there is refused where it is no valid announcement, and
    /// where the subscriber has another channel already.
    pub fn receive_announcement(&mut self, ledger: &Ledger, link: &Link) -> (outcome: Result<
        (),
        Error,
    >)
        requires
            old(self).wf(),
        ensures
            final(self).wf(),
            final(self).identity() == old(self).identity(),
            match outcome {
                Ok(()) => {
                    &&& old(self)@.announcement_refusal(ledger.online(), ledger.at(link@), link@)
                        is None
                    &&& old(self)@.took_up(
                        final(self)@,
                        announced(link@, ledger.at(link@).unwrap()).unwrap(),
                    )
                },
                Err(error) => {
                    &&& old(self)@.announcement_refusal(ledger.online(), ledger.at(link@), link@)
                        == Some(error)
                    &&& final(self)@ == old(self)@
                },
            },
    {
        let frame = match ledger.fetch(link) {
            Ok(Some(frame)) => frame,
            Ok(None) => {
                return Err(Error::ChannelNotFound);
            },
            Err(error) => {
                return Err(error);
            },
        };
        let channel = match read_announcement(link, frame.as_slice()) {
            Ok(channel) => channel,
            Err(error) => {
                return Err(error);
            },
        };
        match self.party.channel() {
            Some(known) => {
                if known.announcement.same(&channel.announcement) && same_bytes(
                    known.author.signing.as_slice(),
                    channel.author.signing.as_slice(),
                ) && same_bytes(known.author.exchange.as_slice(), channel.author.exchange.as_slice())
                    && known.multi_branching == channel.multi_branching {
                    Ok(())
                } else {
                    Err(Error::InvalidAnnouncement)
                }
            },
            None => {
                self.party.join(channel);
                self.state = SubscriberState::Joined;
                Ok(())
            },
        }
    }

    /// Asks to be admitted to the channel announced at `announcement_link`:
    /// publishes the subscription and gives its link, which is to be handed
    /// to the author. To subscribe again is to publish the same frame at the
    /// same link once more.
    ///
    /// Until the author has admitted the subscriber and named it in a
    /// keyload, the subscriber reads public payloads only. The author of the
    /// channel, whose secret key belongs to the key that the announcement
    /// gave, finds nothing wrong with the subscription and reads the
    /// subscriber's keys from it.
    pub fn send_subscribe(&mut self, ledger: &mut Ledger, announcement_link: &Link) -> (outcome:
        Result<Link, Error>)
        requires
            old(self).wf(),
        ensures
            final(self).wf(),
            final(self).identity() == old(self).identity(),
            final(self)@.party == old(self)@.party,
            final(ledger).online() == old(ledger).online(),
            forall|other: LinkView|
                published(old(ledger)@, other) is Some ==> #[trigger] published(
                    final(ledger)@,
                    other,
                ) == published(old(ledger)@, other),
            match outcome {
                Ok(link) => {
                    let party = old(self)@.party;
                    &&& old(self)@.subscribe_refusal(announcement_link@) is None
                    &&& !refuses(old(ledger)@, old(ledger).online(), link@, subscribe_message(
                            party.public,
                            party.signing_secret,
                            party.exchange_secret,
                            party.channel.unwrap(),
                        ).frame())
                    &&& link@ == subscribe_link(party.appinst(), party.public.signing)
                    &&& link.wf()
                    &&& final(ledger).at(link@) == Some(
                        subscribe_message(
                            party.public,
                            party.signing_secret,
                            party.exchange_secret,
                            party.channel.unwrap(),
                        ).frame(),
                    )
                    &&& forall|other: LinkView|
                        other != link@ ==> #[trigger] published(final(ledger)@, other)
                            == published(old(ledger)@, other)
                    &&& final(self)@.state is Subscribed
                    &&& forall|author_secret: Seq<u8>|
                        author_secret.len() == KEY_LEN && party.channel.unwrap().author.exchange
                            == #[trigger] x25519_public(author_secret) ==> {
                            &&& subscription_refusal(
                                author_secret,
                                party.channel.unwrap(),
                                link@,
                                final(ledger).at(link@).unwrap(),
                            ) is None
                            &&& subscriber_of(
                                author_secret,
                                link@,
                                final(ledger).at(link@).unwrap(),
                            ) == party.public
                        }
                },
                Err(error) => {
                    let party = old(self)@.party;
                    let refusal = old(self)@.subscribe_refusal(announcement_link@);
                    &&& final(self)@ == old(self)@
                    &&& final(ledger)@ == old(ledger)@
                    &&& refusal is Some ==> refusal == Some(error)
                    &&& refusal is None ==> {
                        &&& error == Error::TransportError
                        &&& refuses(
                            old(ledger)@,
                            old(ledger).online(),
                            subscribe_link(party.appinst(), party.public.signing),
                            subscribe_message(
                            party.public,
                            party.signing_secret,
                            party.exchange_secret,
                            party.channel.unwrap(),
                        ).frame(),
                        )
                    }
                },
            },
    {
        let channel = match self.party.channel() {
            Some(channel) => channel,
            None => {
                return Err(Error::ChannelNotFound);
            },
        };
        if !channel.announcement.same(announcement_link) {
            return Err(Error::ChannelNotFound);
        }
        if matches!(self.state, SubscriberState::Unsubscribed) {
            return Err(Error::MembershipError);
        }
        let outgoing = subscription(self.party.own_identity(), channel);
        match ledger.publish(&outgoing.link, outgoing.frame.as_slice()) {
            Ok(()) => {},
            Err(error) => {
                return Err(error);
            },
        }
        self.state = SubscriberState::Subscribed;
        Ok(outgoing.link)
    }

    /// Leaves the channel: publishes the cancelling of the subscription and
    /// gives its link, which is to be handed to the author. Only a
    /// subscriber whose subscription is published can leave.
    pub fn send_unsubscribe(&mut self, ledger: &mut Ledger) -> (outcome: Result<Link, Error>)
        requires
            old(self).wf(),
        ensures
            final(self).wf(),
            final(self).identity() == old(self).identity(),
            final(self)@.party == old(self)@.party,
            final(ledger).online() == old(ledger).online(),
            forall|other: LinkView|
                published(old(ledger)@, other) is Some ==> #[trigger] published(
                    final(ledger)@,
                    other,
                ) == published(old(ledger)@, other),
            match outcome {
                Ok(link) => {
                    let party = old(self)@.party;
                    &&& old(self)@.unsubscribe_refusal() is None
                    &&& !refuses(old(ledger)@, old(ledger).online(), link@, unsubscribe_message(
                            party.public,
                            party.signing_secret,
                            party.channel.unwrap(),
                        ).frame())
                    &&& link@ == unsubscribe_link(party.appinst(), party.public.signing)
                    &&& link.wf()
                    &&& final(ledger).at(link@) == Some(
                        unsubscribe_message(
                            party.public,
                            party.signing_secret,
                            party.channel.unwrap(),
                        ).frame(),
                    )
                    &&& forall|other: LinkView|
                        other != link@ ==> #[trigger] published(final(ledger)@, other)
                            == published(old(ledger)@, other)
                    &&& final(self)@.state is Unsubscribed
                    &&& unsubscribed(
                        party.channel.unwrap(),
                        link@,
                        final(ledger).at(link@).unwrap(),
                    ) == Some(party.public.signing)
                },
                Err(error) => {
                    let party = old(self)@.party;
                    let refusal = old(self)@.unsubscribe_refusal();
                    &&& final(self)@ == old(self)@
                    &&& final(ledger)@ == old(ledger)@
                    &&& refusal is Some ==> refusal == Some(error)
                    &&& refusal is None ==> {
                        &&& error == Error::TransportError
                        &&& refuses(
                            old(ledger)@,
                            old(ledger).online(),
                            unsubscribe_link(party.appinst(), party.public.signing),
                            unsubscribe_message(
                            party.public,
                            party.signing_secret,
                            party.channel.unwrap(),
                        ).frame(),
                        )
                    }
                },
            },
    {
        let channel = match self.party.channel() {
            Some(channel) => channel,
            None => {
                return Err(Error::ChannelNotFound);
            },
        };
        if !matches!(self.state, SubscriberState::Subscribed) {
            return Err(Error::MembershipError);
        }
        let outgoing = unsubscription(self.party.own_identity(), channel);
        match ledger.publish(&outgoing.link, outgoing.frame.as_slice()) {
            Ok(()) => {},
            Err(error) => {
                return Err(error);
            },
        }
        self.state = SubscriberState::Unsubscribed;
        Ok(outgoing.link)
    }

    /// Publishes a packet that the subscriber signs, linked to `anchor`, and
    /// gives its link. A subscriber publishes once a keyload has named it:
    /// from then on the other parties look for its branch.
    pub fn send_signed_packet(
        &mut self,
        ledger: &mut Ledger,
        anchor: &Link,
        public_payload: &Bytes,
        masked_payload: &Bytes,
    ) -> (outcome: Result<Link, Error>)
        requires
            old(self).wf(),
        ensures
            final(self).wf(),
            final(self).identity() == old(self).identity(),
            final(ledger).online() == old(ledger).online(),
            old(self)@.packet_outcome(
                final(self)@,
                old(ledger)@,
                final(ledger)@,
                old(ledger).online(),
                MessageType::SignedPacket,
                anchor@,
                public_payload@,
                masked_payload@,
                outcome,
            ),
    {
        self.party.send(
            ledger,
            MessageType::SignedPacket,
            anchor,
            public_payload.0.as_slice(),
            masked_payload.0.as_slice(),
        )
    }

    /// Publishes a packet without a signature, linked to `anchor`, and gives
    /// its link.
    pub fn send_tagged_packet(
        &mut self,
        ledger: &mut Ledger,
        anchor: &Link,
        public_payload: &Bytes,
        masked_payload: &Bytes,
    ) -> (outcome: Result<Link, Error>)
        requires
            old(self).wf(),
        ensures
            final(self).wf(),
            final(self).identity() == old(self).identity(),
            final(ledger).online() == old(ledger).online(),
            old(self)@.packet_outcome(
                final(self)@,
                old(ledger)@,
                final(ledger)@,
                old(ledger).online(),
                MessageType::TaggedPacket,
                anchor@,
                public_payload@,
                masked_payload@,
                outcome,
            ),
    {
        self.party.send(
            ledger,
            MessageType::TaggedPacket,
            anchor,
            public_payload.0.as_slice(),
            masked_payload.0.as_slice(),
        )
    }

    /// Takes in what has newly come on the ledger for the subscriber, as
    /// `Party::fetch_next_msgs` does: every message once, a message after the
    /// one it is linked to, the messages of a branch in their order.
    pub fn fetch_next_msgs(&mut self, ledger: &Ledger) -> (outcome: Result<Vec<Delivery>, Error>)
        requires
            old(self).wf(),
        ensures
            final(self).wf(),
            final(self).identity() == old(self).identity(),
            final(self)@.state == old(self)@.state,
            old(self)@.party.fetched(final(self)@.party, ledger@, ledger.online(), outcome),
    {
        self.party.fetch_next_msgs(ledger)
    }

    /// Keeps a session key that the subscriber got on another way than in a
    /// keyload; see `Party::install_key`.
    pub fn install_key(&mut self, epoch: &[u8], key: &[u8]) -> (outcome: Result<(), Error>)
        requires
            old(self).wf(),
        ensures
            final(self).wf(),
            final(self).identity() == old(self).identity(),
            final(self)@.state == old(self)@.state,
            final(self)@.party.same_party(old(self)@.party),
            final(self)@.party.cursors == old(self)@.party.cursors,
            final(self)@.party.seen == old(self)@.party.seen,
            match outcome {
                Ok(()) => final(self)@.party.key_of(epoch@) == if old(self)@.party.key_of(epoch@)
                    is Some {
                    old(self)@.party.key_of(epoch@)
                } else {
                    Some(key@)
                },
                Err(error) => {
                    &&& final(self)@.party.keys == old(self)@.party.keys
                    &&& if old(self)@.party.channel is None {
                        error == Error::ChannelNotFound
                    } else {
                        error == Error::AuthenticationError && key@.len() != KEY_LEN
                    }
                },
            },
    {
        self.party.install_key(epoch, key)
    }

    /// Takes in everything that the ledger holds, as `Party::fetch_all` does.
    pub fn fetch_all(&mut self, ledger: &Ledger) -> (outcome: (Vec<Delivery>, Option<Error>))
        requires
            old(self).wf(),
        ensures
            final(self).wf(),
            final(self).identity() == old(self).identity(),
            final(self)@.state == old(self)@.state,
            old(self)@.party.fetched_all(
                final(self)@.party,
                ledger@,
                ledger.online(),
                outcome.0@,
                outcome.1,
            ),
    {
        self.party.fetch_all(ledger)
    }

    /// Hands in the frame that was found at a link; see `Party::accept`. With
    /// `Party::next_link` and `Party::draft` this is the way to follow and to
    /// fill the branches over a transport of one's own.
    pub fn accept(&mut self, link: &Link, frame: &[u8], own: bool) -> (outcome: Result<
        Option<Delivery>,
        Error,
    >)
        requires
            old(self).wf(),
        ensures
            final(self).wf(),
            final(self).identity() == old(self).identity(),
            final(self)@.state == old(self)@.state,
            old(self)@.party.accepted(final(self)@.party, link@, frame@, own, outcome),
    {
        self.party.accept(link, frame, own)
    }
}
} // verus!

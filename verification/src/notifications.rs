//! Notifications: a publisher announces a channel and publishes
//! notifications into it, each linked to the one before; recipients listen
//! to the channel and receive the notifications. Links are handed on as
//! hexadecimal text.

use crate::author::Author;
use crate::author::AuthorState;
use crate::author::AuthorView;
use crate::bytes::create_payload;
use crate::delivery::ContentView;
use crate::delivery::Delivery;
use crate::delivery::MessageContent;
use crate::error::Error;
use crate::handshake::announced;
use crate::identity::Identity;
use crate::link::Link;
use crate::link::LinkView;
use crate::link::lemma_link_text_round_trip;
use crate::message::MessageType;
use crate::report::payload_text;
use crate::report::payload_to_text;
use crate::report::texts;
use crate::subscriber::Subscriber;
use crate::subscriber::SubscriberView;
use crate::text::hex_bytes;
use crate::text::hex_text;
use crate::transport::Ledger;
use crate::transport::published;
use crate::transport::refuses;
use vstd::prelude::*;
use vstd::string::StringSliceAdditionalSpecFns;
use vstd::utf8::encode_utf8;

verus! {
/// Who publishes the notifications: the author of a channel with one branch.
pub struct Publisher {
    inner: Author,
}

impl View for Publisher {
    type V = AuthorView;

    closed spec fn view(&self) -> AuthorView {
        self.inner@
    }
}

/// The link that two hexadecimal texts spell.
pub open spec fn spelled_link(application_instance: Seq<char>, message_id: Seq<char>) -> LinkView {
    LinkView { appinst: hex_bytes(application_instance), msgid: hex_bytes(message_id) }
}

impl Publisher {
    /// The invariant of the state.
    pub open spec fn wf(&self) -> bool {
        self@.wf() && !self@.multi_branching && self@.channel_index == 0
    }

    /// The identity of the publisher, as far as the contracts speak of it.
    pub closed spec fn identity(&self) -> Identity {
        self.inner.identity()
    }

    /// A publisher with the identity that `seed` gives.
    pub fn new(seed: &String) -> (publisher: Publisher)
        ensures
            publisher.wf(),
            publisher@.state() == AuthorState::Created,
            publisher.identity().derived_from(encode_utf8(seed@)),
            publisher.identity().keys_match(),
            publisher@.party.public == publisher.identity().public(),
            publisher@.party.signing_secret == publisher.identity().signing_secret(),
            publisher@.party.exchange_secret == publisher.identity().exchange_secret(),
    {
        Publisher { inner: Author::new(seed.as_str(), false) }
    }

    /// Announces the channel, and gives the application instance and the
    /// message id of the announcement, in hexadecimal, to be shared with
    /// the recipients so that they can listen to the channel. Fails where
    /// the ledger refuses the announcement, and only there: while it is out
    /// of reach, and where another frame stands at the link. To announce
    /// again finds the same frame at the link and succeeds.
    pub fn announce(&mut self, ledger: &mut Ledger) -> (outcome: Result<(String, String), Error>)
        requires
            old(self).wf(),
        ensures
            final(self).wf(),
            final(self).identity() == old(self).identity(),
            final(self)@.members == old(self)@.members,
            final(ledger).online() == old(ledger).online(),
            forall|other: LinkView|
                other != old(self)@.own_channel().announcement ==> #[trigger] published(
                    final(ledger)@,
                    other,
                ) == published(old(ledger)@, other),
            outcome is Err <==> refuses(
                old(ledger)@,
                old(ledger).online(),
                old(self)@.own_channel().announcement,
                old(self)@.announcement_frame(),
            ),
            match outcome {
                Ok((application_instance, message_id)) => {
                    let link = old(self)@.own_channel().announcement;
                    &&& application_instance@ == hex_text(link.appinst)
                    &&& message_id@ == hex_text(link.msgid)
                    &&& Link::spells_link(application_instance@, message_id@)
                    &&& spelled_link(application_instance@, message_id@) == link
                    &&& final(ledger).at(link) == Some(old(self)@.announcement_frame())
                    &&& announced(link, old(self)@.announcement_frame()) == Some(
                        old(self)@.own_channel(),
                    )
                    &&& final(self)@.party.channel == Some(old(self)@.own_channel())
                    &&& if old(self)@.state() is Created {
                        &&& final(self)@.state() is Announced
                        &&& final(self)@.party.seen.len() == 0
                        &&& final(self)@.party.keys.len() == 0
                        &&& final(self)@.party.shared_slot == 0
                        &&& final(self)@.party.cursors.len() == 1
                        &&& final(self)@.party.cursors[0].publisher@
                            == old(self)@.party.public.signing
                        &&& final(self)@.party.cursors[0].slot == 0
                    } else {
                        final(self)@ == old(self)@
                    }
                },
                Err(error) => {
                    &&& error == Error::TransportError
                    &&& final(self)@ == old(self)@
                    &&& final(ledger)@ == old(ledger)@
                },
            },
    {
        match self.inner.send_announce(ledger) {
            Ok(link) => {
                proof {
                    lemma_link_text_round_trip(link@);
                }
                Ok((link.appinst_text(), link.msgid_text()))
            },
            Err(error) => Err(error),
        }
    }

    /// Publishes a notification to the channel, linked to the message that
    /// the two texts name, so that the recipients find it, and gives the id
    /// of the new message, in hexadecimal: the next notification is to be
    /// linked to it. The notification is the public payload of a signed
    /// packet, which has no masked payload.
    ///
    /// Texts that spell no link are refused as malformed. Where the packet
    /// cannot be made or the ledger does not take it, nothing has changed.
    pub fn publish(
        &mut self,
        ledger: &mut Ledger,
        application_instance: &String,
        message_id: &String,
        notification: &String,
    ) -> (outcome: Result<String, Error>)
        requires
            old(self).wf(),
        ensures
            final(self).wf(),
            final(self).identity() == old(self).identity(),
            final(ledger).online() == old(ledger).online(),
            if Link::spells_link(application_instance@, message_id@) {
                exists|sent: Result<Link, Error>|
                    {
                        &&& #[trigger] old(self)@.packet_outcome(
                            final(self)@,
                            old(ledger)@,
                            final(ledger)@,
                            old(ledger).online(),
                            MessageType::SignedPacket,
                            spelled_link(application_instance@, message_id@),
                            encode_utf8(notification@),
                            Seq::empty(),
                            sent,
                        )
                        &&& match sent {
                            Ok(link) => outcome matches Ok(id) && id@ == hex_text(link@.msgid),
                            Err(error) => outcome == Err::<String, Error>(error),
                        }
                    }
            } else {
                &&& outcome == Err::<String, Error>(Error::MalformedMessage)
                &&& final(self)@ == old(self)@
                &&& final(ledger)@ == old(ledger)@
            },
    {
        let link = match Link::from_str(application_instance.as_str(), message_id.as_str()) {
            Some(link) => link,
            None => {
                return Err(Error::MalformedMessage);
            },
        };
        let public_payload = create_payload(notification.as_str());
        let masked_payload = create_payload("");
        proof {
            reveal_strlit("");
            assert("".spec_bytes() =~= Seq::<u8>::empty()) by {
                vstd::utf8::encode_utf8_valid_utf8(""@);
            }
        }
        let sent = self.inner.send_signed_packet(ledger, &link, &public_payload, &masked_payload);
        let ghost witness = sent;
        let outcome = match sent {
            Ok(link) => Ok(link.msgid_text()),
            Err(error) => Err(error),
        };
        proof {
            assert(old(self)@.packet_outcome(
                self@,
                old(ledger)@,
                ledger@,
                old(ledger).online(),
                MessageType::SignedPacket,
                spelled_link(application_instance@, message_id@),
                encode_utf8(notification@),
                Seq::empty(),
                witness,
            ));
        }
        outcome
    }
}

/// Who receives the notifications: a party that listens to a channel.
pub struct Recipient {
    inner: Subscriber,
}

impl View for Recipient {
    type V = SubscriberView;

    closed spec fn view(&self) -> SubscriberView {
        self.inner@
    }
}

/// The notifications among the first `count` of `deliveries`: the public
/// payloads of the signed packets, as text.
pub open spec fn notifications(deliveries: Seq<Delivery>, count: int) -> Seq<Seq<char>>
    decreases count,
{
    if count <= 0 {
        Seq::empty()
    } else {
        match deliveries[count - 1]@.body {
            ContentView::SignedPacket { public_payload, .. } => notifications(
                deliveries,
                count - 1,
            ).push(payload_text(public_payload)),
            _ => notifications(deliveries, count - 1),
        }
    }
}

impl Recipient {
    /// The invariant of the state.
    pub open spec fn wf(&self) -> bool {
        self@.wf()
    }

    /// The identity of the recipient, as far as the contracts speak of it.
    pub closed spec fn identity(&self) -> Identity {
        self.inner.identity()
    }

    /// A recipient with the identity that `seed` gives.
    pub fn new(seed: &String) -> (recipient: Recipient)
        ensures
            recipient.wf(),
            recipient@.state is Created,
            recipient.identity().derived_from(encode_utf8(seed@)),
            recipient.identity().keys_match(),
            recipient@.party.public == recipient.identity().public(),
            recipient@.party.signing_secret == recipient.identity().signing_secret(),
            recipient@.party.exchange_secret == recipient.identity().exchange_secret(),
    {
        Recipient { inner: Subscriber::new(seed.as_str()) }
    }

    /// Listens to the channel whose announcement the two texts name: the
    /// application instance and the message id that the publisher shared.
    ///
    /// Texts that spell no link are refused as malformed. Where nothing
    /// stands at the link there is no channel to be found; what stands
    /// there is refused where it is no valid announcement, and where the
    /// recipient listens to another channel already.
    pub fn listen(
        &mut self,
        ledger: &Ledger,
        application_instance: &String,
        announcement_id: &String,
    ) -> (outcome: Result<(), Error>)
        requires
            old(self).wf(),
        ensures
            final(self).wf(),
            final(self).identity() == old(self).identity(),
            match outcome {
                Ok(()) => {
                    let link = spelled_link(application_instance@, announcement_id@);
                    &&& Link::spells_link(application_instance@, announcement_id@)
                    &&& old(self)@.announcement_refusal(ledger.online(), ledger.at(link), link)
                        is None
                    &&& old(self)@.took_up(
                        final(self)@,
                        announced(link, ledger.at(link).unwrap()).unwrap(),
                    )
                },
                Err(error) => {
                    let link = spelled_link(application_instance@, announcement_id@);
                    &&& final(self)@ == old(self)@
                    &&& if Link::spells_link(application_instance@, announcement_id@) {
                        old(self)@.announcement_refusal(ledger.online(), ledger.at(link), link)
                            == Some(error)
                    } else {
                        error == Error::MalformedMessage
                    }
                },
            },
    {
        let link = match Link::from_str(application_instance.as_str(), announcement_id.as_str()) {
            Some(link) => link,
            None => {
                return Err(Error::MalformedMessage);
            },
        };
        self.inner.receive_announcement(ledger, &link)
    }

    /// Receives the notifications that have newly come to the channel: one
    /// call of `fetch_next_msgs`, and of what it delivers the public
    /// payloads of the signed packets, as text, in their order.
    pub fn receive(&mut self, ledger: &Ledger) -> (outcome: Result<Vec<String>, Error>)
        requires
            old(self).wf(),
        ensures
            final(self).wf(),
            final(self).identity() == old(self).identity(),
            final(self)@.state == old(self)@.state,
            exists|fetched: Result<Vec<Delivery>, Error>|
                {
                    &&& #[trigger] old(self)@.party.fetched(
                        final(self)@.party,
                        ledger@,
                        ledger.online(),
                        fetched,
                    )
                    &&& match fetched {
                        Ok(deliveries) => outcome matches Ok(lines) && texts(lines@)
                            == notifications(deliveries@, deliveries@.len() as int),
                        Err(error) => outcome == Err::<Vec<String>, Error>(error),
                    }
                },
    {
        let fetched = self.inner.fetch_next_msgs(ledger);
        let deliveries = match fetched {
            Ok(deliveries) => deliveries,
            Err(error) => {
                return Err(error);
            },
        };
        let mut lines: Vec<String> = Vec::new();
        let mut i: usize = 0;
        while i < deliveries.len()
            invariant
                i <= deliveries@.len(),
                texts(lines@) == notifications(deliveries@, i as int),
            decreases deliveries@.len() - i,
        {
            match &deliveries[i].body {
                MessageContent::SignedPacket { pk, public_payload, masked_payload } => {
                    lines.push(payload_to_text(public_payload.0.as_slice()));
                },
                _ => {},
            }
            i += 1;
        }
        Ok(lines)
    }
}
} // verus!

//! Links: the addresses of messages on the transport, and how they are
//! derived, written and displayed.

use crate::bytes::append;
use crate::bytes::copy_of;
use crate::bytes::part_of;
use crate::bytes::same_bytes;
use crate::primitives::blake2b256;
use crate::primitives::blake2b_256;
use crate::text::hex_bytes;
use crate::text::hex_decode;
use crate::text::hex_encode;
use crate::text::hex_text;
use crate::text::is_hex;
use crate::text::lemma_hex_round_trip;
use vstd::bytes::spec_u64_to_le_bytes;
use vstd::bytes::u64_to_le_bytes;
use vstd::prelude::*;

verus! {
/// Length in bytes of an application instance id: the author's signing key
/// followed by the index of the channel among the author's channels.
pub const APPINST_LEN: usize = 40;

/// Length in bytes of a message id.
pub const MSGID_LEN: usize = 12;

/// Length in bytes of a link written out: both of its components.
pub const LINK_LEN: usize = 52;

/// The lane of the announcement among the addresses of a channel.
pub const LANE_ANNOUNCE: u8 = 0;

/// The lane of subscriptions.
pub const LANE_SUBSCRIBE: u8 = 1;

/// The lane of cancelled subscriptions.
pub const LANE_UNSUBSCRIBE: u8 = 2;

/// The lane of the messages that are sequenced into branches.
pub const LANE_BRANCH: u8 = 3;

/// The address of one message: the id of the application instance (the
/// channel) and the id of the message in it.
#[derive(Debug)]
pub struct Link {
    pub appinst: Vec<u8>,
    pub msgid: Vec<u8>,
}

/// A link as a mathematical value.
pub struct LinkView {
    pub appinst: Seq<u8>,
    pub msgid: Seq<u8>,
}

impl LinkView {
    /// Whether both components have their length.
    pub open spec fn wf(self) -> bool {
        &&& self.appinst.len() == APPINST_LEN
        &&& self.msgid.len() == MSGID_LEN
    }

    /// The link written out: the application instance, then the message id.
    pub open spec fn bytes(self) -> Seq<u8> {
        self.appinst + self.msgid
    }
}

impl View for Link {
    type V = LinkView;

    open spec fn view(&self) -> LinkView {
        LinkView { appinst: self.appinst@, msgid: self.msgid@ }
    }
}

impl Clone for Link {
    fn clone(&self) -> (copy: Self)
        ensures
            copy@ == self@,
    {
        Link { appinst: copy_of(self.appinst.as_slice()), msgid: copy_of(self.msgid.as_slice()) }
    }
}

/// The id of the application instance of an author's channel.
pub open spec fn appinst_of(author: Seq<u8>, channel: u64) -> Seq<u8> {
    author + spec_u64_to_le_bytes(channel)
}

/// The id of the message that a publisher puts at a slot of a lane: a keyed
/// digest of channel, publisher, lane and slot, cut to the length of an id.
pub open spec fn msgid_of(appinst: Seq<u8>, publisher: Seq<u8>, lane: u8, slot: u64) -> Seq<u8> {
    blake2b_256(appinst + publisher + seq![lane] + spec_u64_to_le_bytes(slot)).subrange(
        0,
        MSGID_LEN as int,
    )
}

/// The link of the message that a publisher puts at a slot of a lane.
pub open spec fn link_of(appinst: Seq<u8>, publisher: Seq<u8>, lane: u8, slot: u64) -> LinkView {
    LinkView { appinst, msgid: msgid_of(appinst, publisher, lane, slot) }
}

/// The index under which a link is displayed: the hexadecimal text of the
/// digest of its two components, one after the other.
pub open spec fn index_of(link: LinkView) -> Seq<char> {
    hex_text(blake2b_256(link.bytes()))
}

/// The id of the application instance of an author's channel.
pub fn application_instance(author: &[u8], channel: u64) -> (appinst: Vec<u8>)
    ensures
        appinst@ == appinst_of(author@, channel),
        appinst@.len() == author@.len() + 8,
{
    let mut appinst = copy_of(author);
    let index = u64_to_le_bytes(channel);
    append(&mut appinst, index.as_slice());
    appinst
}

/// The link of the message that a publisher puts at a slot of a lane.
pub fn derive_link(appinst: &[u8], publisher: &[u8], lane: u8, slot: u64) -> (link: Link)
    ensures
        link@ == link_of(appinst@, publisher@, lane, slot),
        link@.msgid.len() == MSGID_LEN,
{
    let mut material = copy_of(appinst);
    append(&mut material, publisher);
    material.push(lane);
    let index = u64_to_le_bytes(slot);
    append(&mut material, index.as_slice());
    assert(material@ == appinst@ + publisher@ + seq![lane] + spec_u64_to_le_bytes(slot));
    let digest = blake2b256(material.as_slice());
    Link { appinst: copy_of(appinst), msgid: part_of(digest.as_slice(), 0, MSGID_LEN) }
}

/// The index under which a link is displayed.
pub fn get_hash(link: &Link) -> (index: String)
    ensures
        index@ == index_of(link@),
        index@.len() == 64,
{
    let total = link.bytes();
    let hash = blake2b256(total.as_slice());
    hex_encode(hash.as_slice())
}

impl Link {
    /// Whether both components have their length.
    pub open spec fn wf(&self) -> bool {
        self@.wf()
    }

    /// Whether two links are the same.
    pub fn same(&self, other: &Link) -> (same: bool)
        ensures
            same == (self@ == other@),
    {
        same_bytes(self.appinst.as_slice(), other.appinst.as_slice()) && same_bytes(
            self.msgid.as_slice(),
            other.msgid.as_slice(),
        )
    }

    /// Whether the components have the lengths of a link.
    pub fn is_well_formed(&self) -> (well_formed: bool)
        ensures
            well_formed == self.wf(),
    {
        self.appinst.len() == APPINST_LEN && self.msgid.len() == MSGID_LEN
    }

    /// The link written out: the application instance, then the message id.
    pub fn bytes(&self) -> (bytes: Vec<u8>)
        ensures
            bytes@ == self@.bytes(),
    {
        let mut bytes = copy_of(self.appinst.as_slice());
        append(&mut bytes, self.msgid.as_slice());
        bytes
    }

    /// The link that the two hexadecimal texts spell, if they are hexadecimal
    /// and of the lengths of a link.
    pub fn from_str(appinst: &str, msgid: &str) -> (link: Option<Link>)
        ensures
            link is Some == Link::spells_link(appinst@, msgid@),
            link matches Some(l) ==> l@ == (LinkView {
                appinst: hex_bytes(appinst@),
                msgid: hex_bytes(msgid@),
            }) && l.wf(),
    {
        match hex_decode(appinst) {
            Some(appinst) => match hex_decode(msgid) {
                Some(msgid) => {
                    if appinst.len() == APPINST_LEN && msgid.len() == MSGID_LEN {
                        Some(Link { appinst, msgid })
                    } else {
                        None
                    }
                },
                None => None,
            },
            None => None,
        }
    }

    /// Whether two texts spell a link.
    pub open spec fn spells_link(appinst: Seq<char>, msgid: Seq<char>) -> bool {
        &&& is_hex(appinst)
        &&& is_hex(msgid)
        &&& appinst.len() == 2 * APPINST_LEN
        &&& msgid.len() == 2 * MSGID_LEN
    }

    /// The application instance in hexadecimal.
    pub fn appinst_text(&self) -> (text: String)
        ensures
            text@ == hex_text(self@.appinst),
    {
        hex_encode(self.appinst.as_slice())
    }

    /// The message id in hexadecimal.
    pub fn msgid_text(&self) -> (text: String)
        ensures
            text@ == hex_text(self@.msgid),
    {
        hex_encode(self.msgid.as_slice())
    }
}

/// A link read back from its two texts is the link that was written.
pub proof fn lemma_link_text_round_trip(link: LinkView)
    requires
        link.wf(),
    ensures
        Link::spells_link(hex_text(link.appinst), hex_text(link.msgid)),
        hex_bytes(hex_text(link.appinst)) == link.appinst,
        hex_bytes(hex_text(link.msgid)) == link.msgid,
{
    lemma_hex_round_trip(link.appinst);
    lemma_hex_round_trip(link.msgid);
}
} // verus!

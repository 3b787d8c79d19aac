//! The transport as the channel sees it: an append-only store of frames under
//! links, which may be out of reach. `Ledger` keeps it in memory.

use crate::bytes::copy_of;
use crate::bytes::same_bytes;
use crate::error::Error;
use crate::link::Link;
use crate::link::LinkView;
use vstd::prelude::*;

verus! {
/// One published frame and where it is.
#[derive(Debug)]
pub struct Entry {
    pub link: Link,
    pub bytes: Vec<u8>,
}

/// What is published at `link` among `entries`: the frame that was put there
/// first, or nothing.
pub open spec fn published(entries: Seq<Entry>, link: LinkView) -> Option<Seq<u8>>
    decreases entries.len(),
{
    if entries.len() == 0 {
        None
    } else {
        match published(entries.drop_last(), link) {
            Some(bytes) => Some(bytes),
            None => if entries.last().link@ == link {
                Some(entries.last().bytes@)
            } else {
                None
            },
        }
    }
}

/// What is published in the first entries stays published as entries are added.
pub proof fn lemma_published_stays(entries: Seq<Entry>, count: int, link: LinkView)
    requires
        0 <= count <= entries.len(),
        published(entries.take(count), link) is Some,
    ensures
        published(entries, link) == published(entries.take(count), link),
    decreases entries.len() - count,
{
    if count == entries.len() {
        assert(entries.take(count) == entries);
    } else {
        assert(entries.take(count + 1).drop_last() == entries.take(count));
        lemma_published_stays(entries, count + 1, link);
    }
}

/// Whether a ledger refuses to publish a frame at a link: it is out of
/// reach, or the link is taken by another frame.
pub open spec fn refuses(entries: Seq<Entry>, online: bool, link: LinkView, frame: Seq<u8>) -> bool {
    !online || (published(entries, link) is Some && published(entries, link) != Some(frame))
}

/// An append-only store of frames in memory. While it is out of reach, all
/// publishing and fetching fails, and what it holds stays as it is.
pub struct Ledger {
    entries: Vec<Entry>,
    online: bool,
}

impl View for Ledger {
    type V = Seq<Entry>;

    closed spec fn view(&self) -> Seq<Entry> {
        self.entries@
    }
}

impl Ledger {
    /// What is published at `link`.
    pub open spec fn at(&self, link: LinkView) -> Option<Seq<u8>> {
        published(self@, link)
    }

    /// Whether the ledger is within reach.
    pub closed spec fn online(&self) -> bool {
        self.online
    }

    /// A ledger within reach on which nothing is published.
    pub fn new() -> (ledger: Ledger)
        ensures
            ledger@.len() == 0,
            ledger.online(),
            forall|link: LinkView| ledger.at(link) is None,
    {
        Ledger { entries: Vec::new(), online: true }
    }

    /// Whether the ledger is within reach.
    pub fn is_online(&self) -> (online: bool)
        ensures
            online == self.online(),
    {
        self.online
    }

    /// Puts the ledger within reach or out of reach. What it holds stays.
    pub fn set_online(&mut self, online: bool)
        ensures
            final(self).online() == online,
            final(self)@ == old(self)@,
    {
        self.online = online;
    }

    /// The number of frames on the ledger.
    pub fn len(&self) -> (count: usize)
        ensures
            count == self@.len(),
    {
        self.entries.len()
    }

    /// The place of the frame published at `link` among the entries.
    fn find(&self, link: &Link) -> (place: Option<usize>)
        ensures
            match place {
                Some(i) => i < self@.len() && self@[i as int].link@ == link@ && self.at(link@)
                    == Some(self@[i as int].bytes@),
                None => self.at(link@) is None,
            },
    {
        let mut i: usize = 0;
        while i < self.entries.len()
            invariant
                i <= self.entries@.len(),
                published(self.entries@.take(i as int), link@) is None,
            decreases self.entries@.len() - i,
        {
            proof {
                assert(self.entries@.take(i + 1).drop_last() == self.entries@.take(i as int));
            }
            if self.entries[i].link.same(link) {
                proof {
                    lemma_published_stays(self.entries@, i + 1, link@);
                }
                return Some(i);
            }
            i += 1;
        }
        assert(self.entries@.take(i as int) == self.entries@);
        None
    }

    /// The frame published at `link`, if there is one. Fails while the
    /// ledger is out of reach, and only then.
    pub fn fetch(&self, link: &Link) -> (frame: Result<Option<Vec<u8>>, Error>)
        ensures
            match frame {
                Ok(Some(bytes)) => self.online() && self.at(link@) == Some(bytes@),
                Ok(None) => self.online() && self.at(link@) is None,
                Err(error) => !self.online() && error == Error::TransportError,
            },
    {
        if !self.online {
            return Err(Error::TransportError);
        }
        match self.find(link) {
            Some(i) => Ok(Some(copy_of(self.entries[i].bytes.as_slice()))),
            None => Ok(None),
        }
    }

    /// Publishes a frame at a link. A link is taken once: to publish the
    /// same frame there again changes nothing and succeeds, another frame is
    /// refused, and so is every frame while the ledger is out of reach.
    /// Nothing that is published ever changes or goes away.
    pub fn publish(&mut self, link: &Link, bytes: &[u8]) -> (outcome: Result<(), Error>)
        ensures
            final(self).online() == old(self).online(),
            outcome is Err <==> refuses(old(self)@, old(self).online(), link@, bytes@),
            match outcome {
                Ok(()) => {
                    &&& final(self).at(link@) == Some(bytes@)
                    &&& if old(self).at(link@) is None {
                        &&& final(self)@ == old(self)@.push(final(self)@.last())
                        &&& final(self)@.last().link@ == link@
                        &&& final(self)@.last().bytes@ == bytes@
                    } else {
                        final(self)@ == old(self)@
                    }
                },
                Err(error) => {
                    &&& error == Error::TransportError
                    &&& final(self)@ == old(self)@
                },
            },
            forall|other: LinkView|
                other != link@ ==> #[trigger] published(final(self)@, other) == published(
                    old(self)@,
                    other,
                ),
            forall|other: LinkView|
                published(old(self)@, other) is Some ==> #[trigger] published(final(self)@, other)
                    == published(old(self)@, other),
    {
        if !self.online {
            return Err(Error::TransportError);
        }
        match self.find(link) {
            Some(i) => {
                if same_bytes(self.entries[i].bytes.as_slice(), bytes) {
                    Ok(())
                } else {
                    Err(Error::TransportError)
                }
            },
            None => {
                self.entries.push(Entry { link: link.clone(), bytes: copy_of(bytes) });
                proof {
                    assert(self.entries@.drop_last() == old(self).entries@);
                }
                Ok(())
            },
        }
    }

    /// The links of all frames, in the order in which they were published.
    pub fn links(&self) -> (links: Vec<Link>)
        ensures
            links@.len() == self@.len(),
            forall|i: int| 0 <= i < links@.len() ==> links@[i]@ == self@[i].link@,
    {
        let mut links: Vec<Link> = Vec::new();
        let mut i: usize = 0;
        while i < self.entries.len()
            invariant
                i <= self.entries@.len(),
                links@.len() == i,
                forall|k: int| 0 <= k < i ==> links@[k]@ == self.entries@[k].link@,
            decreases self.entries@.len() - i,
        {
            links.push(self.entries[i].link.clone());
            i += 1;
        }
        links
    }
}
} // verus!

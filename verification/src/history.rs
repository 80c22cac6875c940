//! Walking back through the messages of a channel, page by page.
//!
//! The messages are asked for in pages, each page holding the messages right
//! before the oldest one that is known. The library decides after every
//! page what to keep and whether to go on; to fetch a page and to wait are
//! left to the caller.

use vstd::prelude::*;

verus! {

/// The most messages that one page may hold.
pub const PAGE_LIMIT: u8 = 100;

/// How long to wait before the next page is asked for, in milliseconds.
pub const PAGE_PAUSE_MILLIS: u64 = 10;

/// What the walk needs to know of one message.
#[derive(Clone, Copy, Debug, PartialEq, Eq)]
pub struct Seen {
    /// The number of the message.
    pub id: u64,
    /// The user who wrote it.
    pub author: u64,
}

/// How far the walk has come.
#[derive(Clone, Copy, Debug, PartialEq, Eq)]
pub struct Walk {
    /// The next page holds the messages before this one.
    pub before: u64,
    /// How many messages the pages so far held.
    pub read: usize,
}

/// What the caller does next.
#[derive(Clone, Copy, Debug, PartialEq, Eq)]
pub enum Next {
    /// Wait for `pause_millis`, then fetch up to `limit` messages before
    /// `before`.
    Fetch { before: u64, limit: u8, pause_millis: u64 },
    /// The walk has reached the first message.
    Stop,
}

/// The places in `page` of the messages that `author` wrote, in their
/// order.
pub open spec fn places_of(page: Seq<Seen>, author: u64) -> Seq<usize>
    decreases page.len(),
{
    if page.len() == 0 {
        Seq::empty()
    } else if page.last().author == author {
        places_of(page.drop_last(), author).push((page.len() - 1) as usize)
    } else {
        places_of(page.drop_last(), author)
    }
}

/// The places are places of the page, each of a message of the author, and
/// they go upwards; no message of the author is left out.
pub proof fn lemma_places_of(page: Seq<Seen>, author: u64)
    requires
        page.len() <= usize::MAX,
    ensures
        forall|k: int|
            0 <= k < places_of(page, author).len() ==> (#[trigger] places_of(page, author)[k])
                < page.len() && page[places_of(page, author)[k] as int].author == author,
        forall|j: int, k: int|
            0 <= j < k < places_of(page, author).len() ==> places_of(page, author)[j] < places_of(
                page,
                author,
            )[k],
        forall|i: int|
            0 <= i < page.len() && (#[trigger] page[i]).author == author ==> places_of(
                page,
                author,
            ).contains(i as usize),
    decreases page.len(),
{
    if page.len() > 0 {
        let front = page.drop_last();
        let places = places_of(page, author);
        lemma_places_of(front, author);
        assert forall|i: int| 0 <= i < page.len() && (#[trigger] page[i]).author
            == author implies places.contains(i as usize) by {
            if i < front.len() {
                assert(front[i] == page[i]);
                let k = choose|k: int|
                    0 <= k < places_of(front, author).len() && places_of(front, author)[k]
                        == i as usize;
                assert(places[k] == i as usize);
            } else {
                assert(places[places.len() - 1] == i as usize);
            }
        }
        assert forall|k: int| 0 <= k < places.len() implies (#[trigger] places[k]) < page.len()
            && page[places[k] as int].author == author by {
            if k < places_of(front, author).len() {
                assert(places[k] == places_of(front, author)[k]);
                assert(front[places[k] as int] == page[places[k] as int]);
            }
        }
    }
}

impl Walk {
    /// The walk that starts at the newest message of a channel: the first page
    /// holds what was written before it.
    pub fn start(last_message: u64) -> (walk: Walk)
        ensures
            walk == (Walk { before: last_message, read: 0 }),
    {
        Walk { before: last_message, read: 0 }
    }

    /// Takes in the page that was fetched last. Returns how far the walk has
    /// come with it, the places in the page of the messages that `author`
    /// wrote, and what to do next: an empty page ends the walk and changes
    /// nothing; any other page is counted, and the walk goes on before its
    /// last message.
    pub fn turn_page(self, page: &[Seen], author: u64) -> (r: (Walk, Vec<usize>, Next))
        requires
            self.read + page@.len() <= usize::MAX,
        ensures
            r.1@ == places_of(page@, author),
            forall|k: int| 0 <= k < r.1@.len() ==> (#[trigger] r.1@[k]) < page@.len(),
            page@.len() == 0 ==> r.0 == self && r.2 == Next::Stop,
            page@.len() > 0 ==> r.0 == (Walk {
                before: page@.last().id,
                read: (self.read + page@.len()) as usize,
            }) && r.2 == (Next::Fetch {
                before: page@.last().id,
                limit: PAGE_LIMIT,
                pause_millis: PAGE_PAUSE_MILLIS,
            }),
    {
        let mut kept: Vec<usize> = Vec::new();
        let mut i: usize = 0;
        while i < page.len()
            invariant
                i <= page.len(),
                kept@ == places_of(page@.take(i as int), author),
            decreases page.len() - i,
        {
            proof {
                assert(page@.take(i + 1).drop_last() =~= page@.take(i as int));
            }
            if page[i].author == author {
                kept.push(i);
            }
            i += 1;
        }
        proof {
            assert(page@.take(page@.len() as int) =~= page@);
            lemma_places_of(page@, author);
        }
        if page.len() == 0 {
            (self, kept, Next::Stop)
        } else {
            let before = page[page.len() - 1].id;
            (
                Walk { before, read: self.read + page.len() },
                kept,
                Next::Fetch { before, limit: PAGE_LIMIT, pause_millis: PAGE_PAUSE_MILLIS },
            )
        }
    }
}

} // verus!

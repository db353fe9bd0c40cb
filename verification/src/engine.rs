//! Single-writer consolidation engine.
//!
//! The engine exclusively owns every venue book and the last published
//! consolidated view. Events are applied one at a time: the engine
//! routes each to the matching venue book, applies it, recomputes the
//! consolidated view, and emits the view only when it differs in value
//! from the last published one, so a slow stream of identical views
//! produces no downstream traffic.

use vstd::prelude::*;
use crate::book::{
    BookState, DeltaOutcome, DepthEvent, VenueBook, book_eq, delta_outcome, delta_transition,
    snapshot_transition, wf_book,
};
use crate::consolidate::{
    lemma_find_venue_at, lemma_find_venue_none, spec_find_venue,
    ConsolidatedBook, books_equal, cb_eq, clone_book, consolidate, spec_consolidated_view,
};

verus! {

/// What the engine asks its surroundings to do after one event: publish
/// a fresh consolidated view, and/or resynchronize a venue whose stream
/// gapped or dropped.
pub struct EngineOutput {
    pub publish: Option<ConsolidatedBook>,
    pub resync: Option<u32>,
}

/// The consolidation engine: the venue books in registration order, the
/// configured book depth, and the last view handed to the publisher.
pub struct Engine {
    pub venues: Vec<VenueBook>,
    pub depth: usize,
    pub last_published: Option<ConsolidatedBook>,
}

/// Engine invariant: every venue book is well formed.
pub open spec fn wf_engine(e: Engine) -> bool {
    forall|i: int| 0 <= i < e.venues@.len() ==> wf_book(#[trigger] e.venues@[i])
}

pub open spec fn opt_cb_eq(a: Option<ConsolidatedBook>, b: Option<ConsolidatedBook>) -> bool {
    match (a, b) {
        (Option::None, Option::None) => true,
        (Option::Some(x), Option::Some(y)) => cb_eq(x, y),
        _ => false,
    }
}

/// The publish decision for a freshly computed view `nb`: a view equal
/// in value (same levels, same spread) to the last published one is
/// suppressed — the publisher receives no event and the last published
/// view stands — and any other view is published and becomes the last
/// published one.
pub open spec fn publish_decision(
    last0: Option<ConsolidatedBook>,
    nb: ConsolidatedBook,
    published: Option<ConsolidatedBook>,
    last1: Option<ConsolidatedBook>,
) -> bool {
    if last0 matches Some(lb) && cb_eq(lb, nb) {
        published is None && opt_cb_eq(last1, last0)
    } else {
        &&& published matches Some(p) && cb_eq(p, nb)
        &&& last1 matches Some(l) && cb_eq(l, nb)
    }
}

/// The venue a depth event addresses.
pub open spec fn event_venue_id(ev: DepthEvent) -> u32 {
    match ev {
        DepthEvent::Snapshot { venue_id, .. } => venue_id,
        DepthEvent::Delta { venue_id, .. } => venue_id,
    }
}

impl Engine {
    /// Fresh engine: one `Uninitialized` book per venue, in registration
    /// order, and nothing published yet.
    pub fn new(venue_ids: &Vec<u32>, depth: usize) -> (e: Engine)
        ensures
            wf_engine(e),
            e.depth == depth,
            e.last_published is None,
            e.venues@.len() == venue_ids@.len(),
            forall|i: int|
                0 <= i < venue_ids@.len() ==> (#[trigger] e.venues@[i]).venue_id == venue_ids@[i]
                    && e.venues@[i].state == BookState::Uninitialized,
    {
        let mut venues: Vec<VenueBook> = Vec::new();
        let mut i: usize = 0;
        while i < venue_ids.len()
            invariant
                i <= venue_ids@.len(),
                venues@.len() == i,
                forall|j: int| 0 <= j < i ==> wf_book(#[trigger] venues@[j]),
                forall|j: int|
                    0 <= j < i ==> (#[trigger] venues@[j]).venue_id == venue_ids@[j]
                        && venues@[j].state == BookState::Uninitialized,
            decreases venue_ids.len() - i,
        {
            venues.push(VenueBook::new(venue_ids[i]));
            i = i + 1;
        }
        Engine { venues, depth, last_published: None }
    }

    fn find_venue(&self, id: u32) -> (r: Option<usize>)
        ensures
            match r {
                Some(i) => i < self.venues@.len() && i as int == spec_find_venue(self.venues@, id)
                    && self.venues@[i as int].venue_id == id,
                None => spec_find_venue(self.venues@, id) < 0,
            },
    {
        let mut i: usize = 0;
        while i < self.venues.len()
            invariant
                i <= self.venues@.len(),
                forall|j: int| 0 <= j < i ==> (#[trigger] self.venues@[j]).venue_id != id,
            decreases self.venues.len() - i,
        {
            if self.venues[i].venue_id == id {
                proof {
                    lemma_find_venue_at(self.venues@, id, i as int);
                }
                return Some(i);
            }
            i = i + 1;
        }
        proof {
            lemma_find_venue_none(self.venues@, id);
        }
        None
    }

    /// Recompute the consolidated view over the current venue books,
    /// publish it if it differs in value from the last published view,
    /// and record what was published.
    fn republish(&mut self) -> (publish: Option<ConsolidatedBook>)
        requires
            wf_engine(*old(self)),
        ensures
            wf_engine(*final(self)),
            final(self).depth == old(self).depth,
            final(self).venues@ == old(self).venues@,
            exists|nb: ConsolidatedBook|
                #[trigger] spec_consolidated_view(nb, final(self).venues@, old(self).depth as int)
                    && publish_decision(
                    old(self).last_published,
                    nb,
                    publish,
                    final(self).last_published,
                ),
    {
        let nb = consolidate(&self.venues, self.depth);
        let ghost gnb = nb;
        let suppressed = match &self.last_published {
            Option::Some(lb) => books_equal(lb, &nb),
            Option::None => false,
        };
        if suppressed {
            proof {
                assert(spec_consolidated_view(gnb, self.venues@, self.depth as int));
            }
            None
        } else {
            let stored = clone_book(&nb);
            self.last_published = Some(stored);
            proof {
                assert(spec_consolidated_view(gnb, self.venues@, self.depth as int));
            }
            Some(nb)
        }
    }

    /// Apply one depth event: route it to the matching venue book, apply
    /// it there, recompute the consolidated view, and emit the view only
    /// if it differs from the last published one. A gap in a delta asks
    /// for a resynchronization of that venue; an event for an unknown
    /// venue is ignored.
    pub fn apply_event(&mut self, ev: &DepthEvent) -> (out: EngineOutput)
        requires
            wf_engine(*old(self)),
        ensures
            wf_engine(*final(self)),
            final(self).depth == old(self).depth,
            final(self).venues@.len() == old(self).venues@.len(),
            spec_find_venue(old(self).venues@, event_venue_id(*ev)) < 0 ==> ({
                &&& forall|i: int|
                    0 <= i < old(self).venues@.len() ==> book_eq(
                        #[trigger] final(self).venues@[i],
                        old(self).venues@[i],
                    )
                &&& out.publish is None
                &&& out.resync is None
                &&& opt_cb_eq(final(self).last_published, old(self).last_published)
            }),
            spec_find_venue(old(self).venues@, event_venue_id(*ev)) >= 0 ==> ({
                let vi = spec_find_venue(old(self).venues@, event_venue_id(*ev));
                &&& forall|i: int|
                    0 <= i < old(self).venues@.len() && i != vi ==> book_eq(
                        #[trigger] final(self).venues@[i],
                        old(self).venues@[i],
                    )
                &&& (*ev matches DepthEvent::Snapshot { sequence, bids, asks, .. } ==> ({
                    &&& snapshot_transition(
                        old(self).venues@[vi],
                        final(self).venues@[vi],
                        sequence,
                        bids@,
                        asks@,
                    )
                    &&& out.resync is None
                }))
                &&& (*ev matches DepthEvent::Delta {
                    venue_id,
                    range_start,
                    range_end,
                    bids,
                    asks,
                } ==> ({
                    &&& delta_transition(
                        old(self).venues@[vi],
                        final(self).venues@[vi],
                        range_start,
                        range_end,
                        bids@,
                        asks@,
                    )
                    &&& out.resync == (if delta_outcome(old(self).venues@[vi], range_start)
                        == DeltaOutcome::Gap {
                        Some(venue_id)
                    } else {
                        None::<u32>
                    })
                }))
                &&& exists|nb: ConsolidatedBook|
                    #[trigger] spec_consolidated_view(
                        nb,
                        final(self).venues@,
                        old(self).depth as int,
                    ) && publish_decision(
                        old(self).last_published,
                        nb,
                        out.publish,
                        final(self).last_published,
                    )
            }),
    {
        let vid = match ev {
            DepthEvent::Snapshot { venue_id, .. } => *venue_id,
            DepthEvent::Delta { venue_id, .. } => *venue_id,
        };
        let found = self.find_venue(vid);
        match found {
            Option::None => EngineOutput { publish: None, resync: None },
            Option::Some(i) => {
                let ghost vs0 = self.venues@;
                let ghost vi = i as int;
                let mut resync: Option<u32> = None;
                match ev {
                    DepthEvent::Snapshot { sequence, bids, asks, .. } => {
                        let mut b = self.venues.remove(i);
                        b.apply_snapshot(*sequence, bids, asks);
                        let ghost gb = b;
                        self.venues.insert(i, b);
                        proof {
                            assert(self.venues@ =~= vs0.update(vi, gb));
                        }
                    },
                    DepthEvent::Delta { range_start, range_end, bids, asks, .. } => {
                        let mut b = self.venues.remove(i);
                        let oc = b.apply_delta(*range_start, *range_end, bids, asks);
                        let ghost gb = b;
                        self.venues.insert(i, b);
                        proof {
                            assert(self.venues@ =~= vs0.update(vi, gb));
                        }
                        resync = match oc {
                            DeltaOutcome::Gap => Some(vid),
                            _ => None,
                        };
                    },
                }
                proof {
                    assert forall|j: int| 0 <= j < self.venues@.len() implies wf_book(
                        #[trigger] self.venues@[j],
                    ) by {
                        if j != vi {
                            assert(self.venues@[j] == vs0[j]);
                        }
                    }
                }
                let publish = self.republish();
                EngineOutput { publish, resync }
            },
        }
    }

    /// A venue's transport dropped: its book goes `Stale` and empty, the
    /// consolidated view is recomputed from the remaining venues — so
    /// consolidation continues with whichever venues stay synced — and a
    /// resynchronization of the dropped venue is requested.
    pub fn venue_disconnected(&mut self, venue_id: u32) -> (out: EngineOutput)
        requires
            wf_engine(*old(self)),
        ensures
            wf_engine(*final(self)),
            final(self).depth == old(self).depth,
            final(self).venues@.len() == old(self).venues@.len(),
            spec_find_venue(old(self).venues@, venue_id) < 0 ==> ({
                &&& forall|i: int|
                    0 <= i < old(self).venues@.len() ==> book_eq(
                        #[trigger] final(self).venues@[i],
                        old(self).venues@[i],
                    )
                &&& out.publish is None
                &&& out.resync is None
                &&& opt_cb_eq(final(self).last_published, old(self).last_published)
            }),
            spec_find_venue(old(self).venues@, venue_id) >= 0 ==> ({
                let vi = spec_find_venue(old(self).venues@, venue_id);
                &&& forall|i: int|
                    0 <= i < old(self).venues@.len() && i != vi ==> book_eq(
                        #[trigger] final(self).venues@[i],
                        old(self).venues@[i],
                    )
                &&& final(self).venues@[vi].venue_id == old(self).venues@[vi].venue_id
                &&& final(self).venues@[vi].state == BookState::Stale
                &&& final(self).venues@[vi].bids@.len() == 0
                &&& final(self).venues@[vi].asks@.len() == 0
                &&& out.resync == Some(venue_id)
                &&& exists|nb: ConsolidatedBook|
                    #[trigger] spec_consolidated_view(
                        nb,
                        final(self).venues@,
                        old(self).depth as int,
                    ) && publish_decision(
                        old(self).last_published,
                        nb,
                        out.publish,
                        final(self).last_published,
                    )
            }),
    {
        let found = self.find_venue(venue_id);
        match found {
            Option::None => EngineOutput { publish: None, resync: None },
            Option::Some(i) => {
                let ghost vs0 = self.venues@;
                let ghost vi = i as int;
                let mut b = self.venues.remove(i);
                b.mark_stale();
                let ghost gb = b;
                self.venues.insert(i, b);
                proof {
                    assert(self.venues@ =~= vs0.update(vi, gb));
                    assert forall|j: int| 0 <= j < self.venues@.len() implies wf_book(
                        #[trigger] self.venues@[j],
                    ) by {
                        if j != vi {
                            assert(self.venues@[j] == vs0[j]);
                        }
                    }
                }
                let publish = self.republish();
                EngineOutput { publish, resync: Some(venue_id) }
            },
        }
    }
}

} // verus!

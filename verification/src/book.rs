//! Per-venue order book: a three-state machine over two price ladders.
//!
//! A book starts `Uninitialized`, becomes `Synced` when a snapshot is
//! applied, and falls back to `Stale` on a sequence gap or a transport
//! reconnect. Only a `Synced` book exposes levels; `Stale` and
//! `Uninitialized` books are empty, so a resynchronization never merges
//! stale levels with fresh ones.

use vstd::prelude::*;
use crate::ladder::{PriceLevel, change_result, ladder_apply_changes, lookup, wf_ladder};

verus! {

/// Synchronization state of one venue's book.
#[derive(Clone, Copy, PartialEq, Eq, Structural, Debug)]
pub enum BookState {
    /// No snapshot applied yet; incremental events are discarded.
    Uninitialized,
    /// Snapshot applied; contiguous deltas are applied.
    Synced,
    /// A gap or reconnect was detected; levels are cleared until a fresh
    /// snapshot arrives.
    Stale,
}

/// What applying a delta did to the book.
#[derive(Clone, Copy, PartialEq, Eq, Structural, Debug)]
pub enum DeltaOutcome {
    /// The delta was contiguous and its changes were applied.
    Applied,
    /// The delta's ordering token was non-contiguous: the book went
    /// `Stale` and a resynchronization is needed.
    Gap,
    /// The book was not `Synced`; the delta was discarded.
    Ignored,
}

/// A normalized depth event produced by a venue adapter.
pub enum DepthEvent {
    /// Full replacement of a venue's book.
    Snapshot { venue_id: u32, sequence: u64, bids: Vec<PriceLevel>, asks: Vec<PriceLevel> },
    /// Incremental update, valid only if contiguous with the last applied
    /// ordering token.
    Delta {
        venue_id: u32,
        range_start: u64,
        range_end: u64,
        bids: Vec<PriceLevel>,
        asks: Vec<PriceLevel>,
    },
}

/// One exchange's current bid/ask ladder and sequencing state.
pub struct VenueBook {
    pub venue_id: u32,
    pub state: BookState,
    /// Bid levels, prices strictly descending.
    pub bids: Vec<PriceLevel>,
    /// Ask levels, prices strictly ascending.
    pub asks: Vec<PriceLevel>,
    /// Ordering token of the last applied event; meaningful only while
    /// `Synced`.
    pub last_applied_sequence: u64,
}

/// Book invariant: both ladders are well formed (strictly ordered prices,
/// so no duplicate price per side, and every quantity positive), and a
/// book that is not `Synced` exposes no levels. A snapshot establishes
/// this invariant from any state and every delta preserves it, so a
/// snapshot followed by any number of contiguous deltas always yields a
/// book with no duplicate prices per side and all quantities positive.
pub open spec fn wf_book(b: VenueBook) -> bool {
    &&& wf_ladder(b.bids@, true)
    &&& wf_ladder(b.asks@, false)
    &&& b.state != BookState::Synced ==> b.bids@.len() == 0 && b.asks@.len() == 0
}

/// A book is crossed when its best bid does not stand strictly below its
/// best ask; such a book is only surfaced for diagnostics and never
/// contributes to consolidation.
pub open spec fn spec_crossed(b: VenueBook) -> bool {
    b.bids@.len() > 0 && b.asks@.len() > 0 && b.bids@[0].price >= b.asks@[0].price
}

/// A delta is contiguous when its range start is at most one past the
/// last applied ordering token.
pub open spec fn spec_contiguous(last: u64, range_start: u64) -> bool {
    range_start <= last + 1
}

/// The two books hold the same venue, state, ladders and ordering token.
pub open spec fn book_eq(a: VenueBook, b: VenueBook) -> bool {
    &&& a.venue_id == b.venue_id
    &&& a.state == b.state
    &&& a.bids@ == b.bids@
    &&& a.asks@ == b.asks@
    &&& a.last_applied_sequence == b.last_applied_sequence
}

/// What applying a snapshot does: whatever the previous state, the book
/// becomes `Synced` at the snapshot's token and each side holds exactly
/// the snapshot's levels (zero quantities dropped, last entry per price
/// winning).
pub open spec fn snapshot_transition(
    b0: VenueBook,
    b1: VenueBook,
    sequence: u64,
    bids: Seq<PriceLevel>,
    asks: Seq<PriceLevel>,
) -> bool {
    &&& b1.venue_id == b0.venue_id
    &&& b1.state == BookState::Synced
    &&& b1.last_applied_sequence == sequence
    &&& forall|p: u64| #[trigger] lookup(b1.bids@, p) == change_result(None::<u64>, bids, p)
    &&& forall|p: u64| #[trigger] lookup(b1.asks@, p) == change_result(None::<u64>, asks, p)
}

/// What a delta does to a book in state `b0`: discarded unless `Synced`,
/// applied if contiguous, a gap otherwise.
pub open spec fn delta_outcome(b0: VenueBook, range_start: u64) -> DeltaOutcome {
    if b0.state != BookState::Synced {
        DeltaOutcome::Ignored
    } else if spec_contiguous(b0.last_applied_sequence, range_start) {
        DeltaOutcome::Applied
    } else {
        DeltaOutcome::Gap
    }
}

/// What applying a delta does: an ignored delta leaves the book as it
/// was; a gap clears it and makes it `Stale`, regardless of the delta's
/// content; a contiguous delta upserts and removes levels per the
/// delta's contents and advances the ordering token to the range end.
pub open spec fn delta_transition(
    b0: VenueBook,
    b1: VenueBook,
    range_start: u64,
    range_end: u64,
    bids: Seq<PriceLevel>,
    asks: Seq<PriceLevel>,
) -> bool {
    &&& b1.venue_id == b0.venue_id
    &&& match delta_outcome(b0, range_start) {
        DeltaOutcome::Ignored => book_eq(b1, b0),
        DeltaOutcome::Gap => {
            &&& b1.state == BookState::Stale
            &&& b1.bids@.len() == 0
            &&& b1.asks@.len() == 0
        },
        DeltaOutcome::Applied => {
            &&& b1.state == BookState::Synced
            &&& b1.last_applied_sequence == range_end
            &&& forall|p: u64| #[trigger]
                lookup(b1.bids@, p) == change_result(lookup(b0.bids@, p), bids, p)
            &&& forall|p: u64| #[trigger]
                lookup(b1.asks@, p) == change_result(lookup(b0.asks@, p), asks, p)
        },
    }
}

impl VenueBook {
    /// Fresh book for a venue: `Uninitialized` and empty.
    pub fn new(venue_id: u32) -> (b: VenueBook)
        ensures
            wf_book(b),
            b.venue_id == venue_id,
            b.state == BookState::Uninitialized,
            b.bids@.len() == 0,
            b.asks@.len() == 0,
    {
        VenueBook {
            venue_id,
            state: BookState::Uninitialized,
            bids: Vec::new(),
            asks: Vec::new(),
            last_applied_sequence: 0,
        }
    }

    /// Whether the book is crossed (best bid at or above best ask).
    pub fn is_crossed(&self) -> (r: bool)
        ensures
            r == spec_crossed(*self),
    {
        self.bids.len() > 0 && self.asks.len() > 0 && self.bids[0].price >= self.asks[0].price
    }

    /// Apply a full snapshot: replace all levels, record the snapshot's
    /// ordering token, and enter `Synced`, whatever the previous state.
    /// Zero-quantity snapshot levels are dropped, and for a repeated
    /// price the last entry wins.
    pub fn apply_snapshot(
        &mut self,
        sequence: u64,
        bids: &Vec<PriceLevel>,
        asks: &Vec<PriceLevel>,
    )
        ensures
            wf_book(*final(self)),
            snapshot_transition(*old(self), *final(self), sequence, bids@, asks@),
    {
        self.bids.clear();
        self.asks.clear();
        ladder_apply_changes(&mut self.bids, true, bids);
        ladder_apply_changes(&mut self.asks, false, asks);
        self.state = BookState::Synced;
        self.last_applied_sequence = sequence;
    }

    /// Clear the book and enter `Stale`, as on a sequence gap or a
    /// transport reconnect; a fresh snapshot is needed before the venue
    /// contributes levels again.
    pub fn mark_stale(&mut self)
        ensures
            wf_book(*final(self)),
            final(self).venue_id == old(self).venue_id,
            final(self).state == BookState::Stale,
            final(self).bids@.len() == 0,
            final(self).asks@.len() == 0,
            final(self).last_applied_sequence == old(self).last_applied_sequence,
    {
        self.bids.clear();
        self.asks.clear();
        self.state = BookState::Stale;
    }

    /// Apply an incremental update. A delta on a book that is not
    /// `Synced` is discarded; a contiguous delta upserts and removes
    /// levels per its contents and advances the ordering token; a
    /// non-contiguous delta always transitions the book to `Stale` and
    /// clears its levels, regardless of the delta's content.
    pub fn apply_delta(
        &mut self,
        range_start: u64,
        range_end: u64,
        bids: &Vec<PriceLevel>,
        asks: &Vec<PriceLevel>,
    ) -> (out: DeltaOutcome)
        requires
            wf_book(*old(self)),
        ensures
            wf_book(*final(self)),
            out == delta_outcome(*old(self), range_start),
            delta_transition(*old(self), *final(self), range_start, range_end, bids@, asks@),
    {
        match self.state {
            BookState::Synced => {
                let contiguous = range_start == 0 || range_start - 1 <= self.last_applied_sequence;
                if contiguous {
                    ladder_apply_changes(&mut self.bids, true, bids);
                    ladder_apply_changes(&mut self.asks, false, asks);
                    self.last_applied_sequence = range_end;
                    DeltaOutcome::Applied
                } else {
                    self.mark_stale();
                    DeltaOutcome::Gap
                }
            },
            _ => DeltaOutcome::Ignored,
        }
    }

    /// Best (highest) bid level, if any.
    pub fn best_bid(&self) -> (r: Option<PriceLevel>)
        ensures
            self.bids@.len() == 0 ==> r is None,
            self.bids@.len() > 0 ==> r == Some(self.bids@[0]),
    {
        if self.bids.len() > 0 {
            Some(self.bids[0])
        } else {
            None
        }
    }

    /// Best (lowest) ask level, if any.
    pub fn best_ask(&self) -> (r: Option<PriceLevel>)
        ensures
            self.asks@.len() == 0 ==> r is None,
            self.asks@.len() > 0 ==> r == Some(self.asks@[0]),
    {
        if self.asks.len() > 0 {
            Some(self.asks[0])
        } else {
            None
        }
    }
}

} // verus!

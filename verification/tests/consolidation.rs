use spreader_rs::book::{BookState, DepthEvent, VenueBook};
use spreader_rs::consolidate::{consolidate, ConsolidatedBook};
use spreader_rs::engine::Engine;
use spreader_rs::ladder::PriceLevel;

// prices and quantities are fixed point, scaled by 10^8
const ONE: u64 = 100_000_000;

fn lvl(price: u64, quantity: u64) -> PriceLevel {
    PriceLevel { price, quantity }
}

fn snapshot(venue_id: u32, sequence: u64, bids: Vec<PriceLevel>, asks: Vec<PriceLevel>) -> DepthEvent {
    DepthEvent::Snapshot { venue_id, sequence, bids, asks }
}

fn delta(
    venue_id: u32,
    range_start: u64,
    range_end: u64,
    bids: Vec<PriceLevel>,
    asks: Vec<PriceLevel>,
) -> DepthEvent {
    DepthEvent::Delta { venue_id, range_start, range_end, bids, asks }
}

fn bids_of(b: &ConsolidatedBook) -> Vec<(u32, u64, u64)> {
    b.bids.iter().map(|l| (l.venue_id, l.price, l.quantity)).collect()
}

fn asks_of(b: &ConsolidatedBook) -> Vec<(u32, u64, u64)> {
    b.asks.iter().map(|l| (l.venue_id, l.price, l.quantity)).collect()
}

#[test]
fn two_venue_top_of_book_and_spread() {
    let mut e = Engine::new(&vec![1, 2], 1);
    let out = e.apply_event(&snapshot(1, 10, vec![lvl(100 * ONE, 5)], vec![lvl(101 * ONE, 3)]));
    let first = out.publish.expect("first snapshot must publish");
    assert_eq!(bids_of(&first), vec![(1, 100 * ONE, 5)]);
    assert_eq!(asks_of(&first), vec![(1, 101 * ONE, 3)]);
    assert_eq!(first.spread, Some(ONE as i128));

    let out = e.apply_event(&snapshot(
        2,
        20,
        vec![lvl(100 * ONE + ONE / 2, 2)],
        vec![lvl(101 * ONE + ONE / 2, 1)],
    ));
    let second = out.publish.expect("changed view must publish");
    // best bid from venue 2, best ask still venue 1, spread 0.5
    assert_eq!(bids_of(&second), vec![(2, 100 * ONE + ONE / 2, 2)]);
    assert_eq!(asks_of(&second), vec![(1, 101 * ONE, 3)]);
    assert_eq!(second.spread, Some((ONE / 2) as i128));
}

#[test]
fn removing_best_bid_shifts_spread() {
    let mut e = Engine::new(&vec![1, 2], 1);
    e.apply_event(&snapshot(1, 10, vec![lvl(100 * ONE, 5)], vec![lvl(101 * ONE, 3)]));
    let out = e.apply_event(&snapshot(
        2,
        20,
        vec![lvl(99 * ONE + ONE / 2, 2)],
        vec![lvl(101 * ONE + ONE / 2, 1)],
    ));
    // venue 2's worse bid and ask leave the top of book unchanged
    assert!(out.publish.is_none());

    // venue 1's only bid is removed by a contiguous delta (quantity 0)
    let out = e.apply_event(&delta(1, 11, 11, vec![lvl(100 * ONE, 0)], vec![]));
    assert_eq!(out.resync, None);
    let after = out.publish.expect("best bid shift must publish");
    assert_eq!(bids_of(&after), vec![(2, 99 * ONE + ONE / 2, 2)]);
    assert_eq!(asks_of(&after), vec![(1, 101 * ONE, 3)]);
    // spread grows from 1.0 to 1.5 as the best bid falls back
    assert_eq!(after.spread, Some((ONE + ONE / 2) as i128));
}

#[test]
fn identical_view_is_suppressed() {
    let mut e = Engine::new(&vec![1, 2], 1);
    let out = e.apply_event(&snapshot(1, 10, vec![lvl(100 * ONE, 5)], vec![lvl(101 * ONE, 3)]));
    assert!(out.publish.is_some());
    // a second snapshot with the same content changes nothing: no event
    let out = e.apply_event(&snapshot(1, 11, vec![lvl(100 * ONE, 5)], vec![lvl(101 * ONE, 3)]));
    assert!(out.publish.is_none());
    // a worse bid from the other venue does not change the top either
    let out = e.apply_event(&snapshot(2, 5, vec![lvl(99 * ONE, 1)], vec![]));
    assert!(out.publish.is_none());
}

#[test]
fn disconnect_falls_back_to_remaining_venue() {
    let mut e = Engine::new(&vec![1, 2], 1);
    e.apply_event(&snapshot(1, 10, vec![lvl(100 * ONE, 5)], vec![lvl(101 * ONE, 3)]));
    e.apply_event(&snapshot(
        2,
        20,
        vec![lvl(100 * ONE + ONE / 2, 2)],
        vec![lvl(101 * ONE + ONE / 2, 1)],
    ));

    let out = e.venue_disconnected(1);
    assert_eq!(out.resync, Some(1));
    let view = out.publish.expect("losing venue 1's ask must publish");
    assert_eq!(bids_of(&view), vec![(2, 100 * ONE + ONE / 2, 2)]);
    assert_eq!(asks_of(&view), vec![(2, 101 * ONE + ONE / 2, 1)]);
    assert_eq!(view.spread, Some(ONE as i128));
    assert_eq!(e.venues[0].state, BookState::Stale);

    // venue 1 resyncs with a fresh snapshot and contributes again
    let out = e.apply_event(&snapshot(1, 30, vec![lvl(100 * ONE, 5)], vec![lvl(101 * ONE, 3)]));
    let view = out.publish.expect("resynced venue must publish");
    assert_eq!(asks_of(&view), vec![(1, 101 * ONE, 3)]);
}

#[test]
fn gap_requests_resync_and_excludes_venue() {
    let mut e = Engine::new(&vec![1, 2], 1);
    e.apply_event(&snapshot(1, 10, vec![lvl(100 * ONE, 5)], vec![lvl(101 * ONE, 3)]));
    e.apply_event(&snapshot(2, 20, vec![lvl(99 * ONE, 2)], vec![lvl(102 * ONE, 1)]));
    // range start 12 is not contiguous with 10
    let out = e.apply_event(&delta(1, 12, 13, vec![lvl(100 * ONE, 9)], vec![]));
    assert_eq!(out.resync, Some(1));
    let view = out.publish.expect("losing venue 1 must publish");
    assert_eq!(bids_of(&view), vec![(2, 99 * ONE, 2)]);
    assert_eq!(asks_of(&view), vec![(2, 102 * ONE, 1)]);
}

#[test]
fn unknown_venue_event_is_ignored() {
    let mut e = Engine::new(&vec![1, 2], 1);
    let out = e.apply_event(&snapshot(9, 10, vec![lvl(100 * ONE, 5)], vec![]));
    assert!(out.publish.is_none());
    assert!(out.resync.is_none());
    assert_eq!(e.venues[0].state, BookState::Uninitialized);
    assert_eq!(e.venues[1].state, BookState::Uninitialized);
}

#[test]
fn depth_two_merge_keeps_venue_order_on_ties() {
    let mut a = VenueBook::new(1);
    a.apply_snapshot(1, &vec![lvl(100, 1), lvl(99, 1)], &vec![]);
    let mut b = VenueBook::new(2);
    b.apply_snapshot(1, &vec![lvl(100, 2)], &vec![lvl(105, 4)]);
    let books = vec![a, b];
    let view = consolidate(&books, 2);
    assert_eq!(
        view.bids.iter().map(|l| (l.venue_id, l.price)).collect::<Vec<_>>(),
        vec![(1, 100), (2, 100)]
    );
    assert_eq!(asks_of(&view), vec![(2, 105, 4)]);
    assert_eq!(view.spread, Some(5));
}

#[test]
fn spread_undefined_when_a_side_is_empty() {
    let mut a = VenueBook::new(1);
    a.apply_snapshot(1, &vec![lvl(100, 1)], &vec![]);
    let books = vec![a];
    let view = consolidate(&books, 1);
    assert_eq!(bids_of(&view), vec![(1, 100, 1)]);
    assert!(view.asks.is_empty());
    assert_eq!(view.spread, None);
}

#[test]
fn crossed_venue_book_is_excluded_from_consolidation() {
    let mut a = VenueBook::new(1);
    // best bid at or above best ask: only surfaced for diagnostics
    a.apply_snapshot(1, &vec![lvl(101, 1)], &vec![lvl(100, 1)]);
    let mut b = VenueBook::new(2);
    b.apply_snapshot(1, &vec![lvl(90, 1)], &vec![lvl(95, 1)]);
    let books = vec![a, b];
    let view = consolidate(&books, 1);
    assert_eq!(bids_of(&view), vec![(2, 90, 1)]);
    assert_eq!(asks_of(&view), vec![(2, 95, 1)]);
}

#[test]
fn depth_zero_yields_an_empty_view() {
    let mut a = VenueBook::new(1);
    a.apply_snapshot(1, &vec![lvl(100, 1)], &vec![lvl(101, 1)]);
    let books = vec![a];
    let view = consolidate(&books, 0);
    assert!(view.bids.is_empty());
    assert!(view.asks.is_empty());
    assert_eq!(view.spread, None);
}

#[test]
fn stale_and_uninitialized_venues_contribute_nothing() {
    let mut a = VenueBook::new(1);
    a.apply_snapshot(1, &vec![lvl(100, 1)], &vec![lvl(101, 1)]);
    a.mark_stale();
    let b = VenueBook::new(2);
    let books = vec![a, b];
    let view = consolidate(&books, 1);
    assert!(view.bids.is_empty());
    assert!(view.asks.is_empty());
    assert_eq!(view.spread, None);
}

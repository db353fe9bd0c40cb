use spreader_rs::backoff::backoff_delay_secs;
use spreader_rs::book::{BookState, DeltaOutcome, VenueBook};
use spreader_rs::decimal::{parse_decimal, SCALE};
use spreader_rs::ladder::PriceLevel;

fn lvl(price: u64, quantity: u64) -> PriceLevel {
    PriceLevel { price, quantity }
}

#[test]
fn backoff_sequence_is_geometric_and_capped() {
    let expected: Vec<u64> = vec![1, 2, 4, 8, 16, 32, 60, 60, 60, 60];
    for (attempt, want) in expected.iter().enumerate() {
        assert_eq!(backoff_delay_secs(attempt as u64), *want);
    }
    assert_eq!(backoff_delay_secs(1000), 60);
}

#[test]
fn decimal_parses_exact_values() {
    assert_eq!(parse_decimal(b"25930.04000000"), Some(2_593_004_000_000));
    assert_eq!(parse_decimal(b"101"), Some(101 * SCALE));
    assert_eq!(parse_decimal(b"0.5"), Some(50_000_000));
    assert_eq!(parse_decimal(b"00.5"), Some(50_000_000));
    assert_eq!(parse_decimal(b"0.00000001"), Some(1));
    assert_eq!(parse_decimal(b"99999999999.99999999"), Some(9_999_999_999_999_999_999));
}

#[test]
fn decimal_rejects_bad_shapes() {
    assert_eq!(parse_decimal(b""), None);
    assert_eq!(parse_decimal(b"."), None);
    assert_eq!(parse_decimal(b"1."), None);
    assert_eq!(parse_decimal(b".5"), None);
    assert_eq!(parse_decimal(b"1.123456789"), None);
    assert_eq!(parse_decimal(b"123456789012"), None);
    assert_eq!(parse_decimal(b"12a.3"), None);
    assert_eq!(parse_decimal(b"1..2"), None);
    assert_eq!(parse_decimal(b"-1.0"), None);
}

#[test]
fn snapshot_then_contiguous_deltas_keeps_book_clean() {
    let mut b = VenueBook::new(7);
    assert_eq!(b.state, BookState::Uninitialized);
    b.apply_snapshot(10, &vec![lvl(100, 5), lvl(99, 2)], &vec![lvl(101, 3)]);
    assert_eq!(b.state, BookState::Synced);
    let out = b.apply_delta(11, 12, &vec![lvl(100, 7), lvl(98, 1)], &vec![lvl(102, 4)]);
    assert_eq!(out, DeltaOutcome::Applied);
    let out = b.apply_delta(13, 13, &vec![lvl(99, 0)], &vec![]);
    assert_eq!(out, DeltaOutcome::Applied);
    assert_eq!(b.last_applied_sequence, 13);
    // no duplicate prices per side, all quantities positive, sides sorted
    for side in [&b.bids, &b.asks] {
        for (i, a) in side.iter().enumerate() {
            assert!(a.quantity > 0);
            for (j, c) in side.iter().enumerate() {
                if i != j {
                    assert_ne!(a.price, c.price);
                }
            }
        }
    }
    assert_eq!(
        b.bids.iter().map(|l| (l.price, l.quantity)).collect::<Vec<_>>(),
        vec![(100, 7), (98, 1)]
    );
    assert_eq!(
        b.asks.iter().map(|l| (l.price, l.quantity)).collect::<Vec<_>>(),
        vec![(101, 3), (102, 4)]
    );
}

#[test]
fn non_contiguous_delta_clears_book_and_goes_stale() {
    let mut b = VenueBook::new(7);
    b.apply_snapshot(10, &vec![lvl(100, 5)], &vec![lvl(101, 3)]);
    let out = b.apply_delta(12, 13, &vec![lvl(100, 9)], &vec![]);
    assert_eq!(out, DeltaOutcome::Gap);
    assert_eq!(b.state, BookState::Stale);
    assert!(b.bids.is_empty());
    assert!(b.asks.is_empty());
    // a stale book discards further deltas until a snapshot arrives
    let out = b.apply_delta(14, 14, &vec![lvl(100, 9)], &vec![]);
    assert_eq!(out, DeltaOutcome::Ignored);
    b.apply_snapshot(20, &vec![lvl(100, 9)], &vec![]);
    assert_eq!(b.state, BookState::Synced);
    assert_eq!(b.bids.len(), 1);
}

#[test]
fn delta_before_snapshot_is_discarded() {
    let mut b = VenueBook::new(3);
    let out = b.apply_delta(1, 2, &vec![lvl(100, 5)], &vec![]);
    assert_eq!(out, DeltaOutcome::Ignored);
    assert_eq!(b.state, BookState::Uninitialized);
    assert!(b.bids.is_empty());
}

#[test]
fn best_levels_follow_the_ladder() {
    let mut b = VenueBook::new(2);
    assert!(b.best_bid().is_none());
    assert!(b.best_ask().is_none());
    b.apply_snapshot(1, &vec![lvl(99, 2), lvl(100, 5)], &vec![lvl(101, 3), lvl(102, 4)]);
    assert_eq!(b.best_bid(), Some(lvl(100, 5)));
    assert_eq!(b.best_ask(), Some(lvl(101, 3)));
}

#[test]
fn snapshot_drops_zero_quantities_and_last_entry_wins() {
    let mut b = VenueBook::new(1);
    b.apply_snapshot(5, &vec![lvl(100, 5), lvl(100, 6), lvl(99, 0)], &vec![]);
    assert_eq!(
        b.bids.iter().map(|l| (l.price, l.quantity)).collect::<Vec<_>>(),
        vec![(100, 6)]
    );
}

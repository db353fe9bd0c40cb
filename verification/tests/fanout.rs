use spreader_rs::consolidate::{books_equal, ConsolidatedBook, ConsolidatedLevel};
use spreader_rs::publish::{BackpressurePolicy, Publisher, SubscriberQueue};

fn view(bid_price: u64, spread: i128) -> ConsolidatedBook {
    ConsolidatedBook {
        bids: vec![ConsolidatedLevel { venue_id: 1, price: bid_price, quantity: 1 }],
        asks: vec![ConsolidatedLevel { venue_id: 2, price: bid_price + 5, quantity: 1 }],
        spread: Some(spread),
    }
}

#[test]
fn drop_oldest_queue_keeps_freshest_views() {
    let mut q = SubscriberQueue::new(0, 2, BackpressurePolicy::DropOldest);
    assert!(q.offer(&view(100, 5)));
    assert!(q.offer(&view(101, 5)));
    // full: the oldest view is silently dropped
    assert!(q.offer(&view(102, 5)));
    assert_eq!(q.buf.len(), 2);
    let first = q.poll().expect("queue holds two views");
    assert_eq!(first.bids[0].price, 101);
    let second = q.poll().expect("queue holds one view");
    assert_eq!(second.bids[0].price, 102);
    assert!(q.poll().is_none());
}

#[test]
fn blocking_queue_refuses_when_full() {
    let mut q = SubscriberQueue::new(0, 1, BackpressurePolicy::Block);
    assert!(q.offer(&view(100, 5)));
    assert!(!q.offer(&view(101, 5)));
    assert_eq!(q.buf.len(), 1);
    assert_eq!(q.poll().expect("one view queued").bids[0].price, 100);
}

#[test]
fn broadcast_feeds_every_subscriber_independently() {
    let mut p = Publisher::new();
    let slow = p.subscribe(1, BackpressurePolicy::DropOldest);
    let blocked = p.subscribe(1, BackpressurePolicy::Block);
    assert_ne!(slow, blocked);
    p.broadcast(&view(100, 5));
    p.broadcast(&view(101, 5));
    // the drop-oldest queue holds only the freshest view
    assert_eq!(p.subscribers[0].buf.len(), 1);
    assert_eq!(p.subscribers[0].buf[0].bids[0].price, 101);
    // the blocking queue kept the first and refused the second
    assert_eq!(p.subscribers[1].buf.len(), 1);
    assert_eq!(p.subscribers[1].buf[0].bids[0].price, 100);
}

#[test]
fn unsubscribe_removes_only_that_queue() {
    let mut p = Publisher::new();
    let a = p.subscribe(4, BackpressurePolicy::DropOldest);
    let b = p.subscribe(4, BackpressurePolicy::DropOldest);
    assert!(p.unsubscribe(a));
    assert_eq!(p.subscribers.len(), 1);
    assert_eq!(p.subscribers[0].id, b);
    // a second disconnect of the same subscriber is not an error
    assert!(!p.unsubscribe(a));
    assert_eq!(p.subscribers.len(), 1);
}

#[test]
fn books_equal_compares_by_value() {
    let a = view(100, 5);
    let b = view(100, 5);
    let c = view(101, 5);
    assert!(books_equal(&a, &b));
    assert!(!books_equal(&a, &c));
    let mut d = view(100, 5);
    d.spread = None;
    assert!(!books_equal(&a, &d));
}

use spreader_rs::binance::{depth_subscribe, parse_level, parse_levels};

fn pairs(raw: &[(&str, &str)]) -> Vec<(Vec<u8>, Vec<u8>)> {
    raw.iter().map(|(p, q)| (p.as_bytes().to_vec(), q.as_bytes().to_vec())).collect()
}

#[test]
fn test_subscribe() {
    let subscribe = depth_subscribe("btcusdt@depth10@100ms".to_string(), 1);
    assert_eq!(subscribe.method, "SUBSCRIBE");
    assert_eq!(subscribe.params.len(), 1);
    assert_eq!(subscribe.params[0], "btcusdt@depth10@100ms");
    assert_eq!(subscribe.id, 1);
}

#[test]
fn test_depth_10() {
    // the ten bid and ten ask levels of one partial depth message
    let bids = pairs(&[
        ("25930.04000000", "5.67067000"),
        ("25930.00000000", "0.22058000"),
        ("25929.91000000", "0.00040000"),
        ("25929.78000000", "0.00170000"),
        ("25929.73000000", "0.24032000"),
        ("25929.30000000", "0.26292000"),
        ("25929.14000000", "0.59662000"),
        ("25929.10000000", "0.55323000"),
        ("25928.81000000", "0.20000000"),
        ("25928.42000000", "0.00049000"),
    ]);
    let asks = pairs(&[
        ("25930.05000000", "16.77157000"),
        ("25930.27000000", "0.45711000"),
        ("25930.28000000", "0.28990000"),
        ("25930.29000000", "0.20000000"),
        ("25930.32000000", "1.90000000"),
        ("25930.39000000", "0.08805000"),
        ("25930.65000000", "0.07102000"),
        ("25930.73000000", "0.38316000"),
        ("25930.75000000", "0.20006000"),
        ("25930.83000000", "0.06000000"),
    ]);
    let bids = parse_levels(&bids).expect("all bid levels valid");
    let asks = parse_levels(&asks).expect("all ask levels valid");
    assert_eq!(bids.len(), 10);
    assert_eq!(asks.len(), 10);
    assert_eq!(bids[0].price, 2_593_004_000_000);
    assert_eq!(bids[0].quantity, 567_067_000);
    assert_eq!(asks[9].quantity, 6_000_000);
}

#[test]
fn test_diff_depth() {
    // the level contents of one diff depth message; zero quantities are
    // removals and stay zero through normalization
    let bids = pairs(&[
        ("25951.30000000", "0.00286000"),
        ("25950.52000000", "0.00000000"),
        ("25949.10000000", "0.00000000"),
        ("25949.06000000", "0.38556000"),
    ]);
    let asks = pairs(&[
        ("25952.60000000", "16.73558000"),
        ("25955.05000000", "0.38547000"),
        ("25955.22000000", "0.00000000"),
    ]);
    let bids = parse_levels(&bids).expect("all bid levels valid");
    let asks = parse_levels(&asks).expect("all ask levels valid");
    assert_eq!(bids.len(), 4);
    assert_eq!(asks.len(), 3);
    assert_eq!(bids[1].quantity, 0);
    assert_eq!(asks[2].quantity, 0);
}

#[test]
fn level_parse_rejects_bad_fields() {
    assert!(parse_level(b"25930.04000000", b"5.67067000").is_some());
    assert!(parse_level(b"25930.04000000", b"").is_none());
    assert!(parse_level(b"25,930", b"5").is_none());
    let mixed = pairs(&[("100.5", "2"), ("oops", "3")]);
    assert!(parse_levels(&mixed).is_none());
}

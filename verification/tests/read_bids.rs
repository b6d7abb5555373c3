use auction::query::read_bids;
use auction::state::{AuctionStore, Bid, OrderBy};
use auction::time::Timestamp;

fn mock_bids() -> Vec<Bid> {
    vec![
        Bid { bidder: "0".to_string(), amount: 0, timestamp: Timestamp::from_seconds(0) },
        Bid { bidder: "1".to_string(), amount: 0, timestamp: Timestamp::from_seconds(0) },
        Bid { bidder: "2".to_string(), amount: 0, timestamp: Timestamp::from_seconds(0) },
        Bid { bidder: "3".to_string(), amount: 0, timestamp: Timestamp::from_seconds(0) },
    ]
}

fn store_with_mock_bids() -> AuctionStore {
    let mut store = AuctionStore::new();
    store.bids.insert(0, mock_bids());
    store
}

#[test]
fn read_bids_no_params() {
    let deps = store_with_mock_bids();

    let bids = read_bids(&deps, 0, None, None, None).unwrap();
    assert_eq!(mock_bids(), bids);
}

#[test]
fn read_bids_no_params_desc() {
    let deps = store_with_mock_bids();

    let bids = read_bids(&deps, 0, None, None, Some(OrderBy::Desc)).unwrap();
    let mut expected_bids = mock_bids();
    expected_bids.reverse();
    assert_eq!(expected_bids, bids);
}

#[test]
fn read_bids_start_after() {
    let deps = store_with_mock_bids();

    let func = |order| read_bids(&deps, 0, Some(1), None, Some(order)).unwrap();

    let bids = func(OrderBy::Asc);
    assert_eq!(mock_bids()[2..], bids);

    let bids = func(OrderBy::Desc);
    let expected_bids = &mut mock_bids()[0..2];
    expected_bids.reverse();
    assert_eq!(expected_bids, bids);
}

#[test]
fn read_bids_limit() {
    let deps = store_with_mock_bids();

    let func = |order| read_bids(&deps, 0, None, Some(2), Some(order)).unwrap();

    let bids = func(OrderBy::Asc);
    assert_eq!(mock_bids()[0..2], bids);

    let bids = func(OrderBy::Desc);
    let expected_bids = &mut mock_bids()[2..];
    expected_bids.reverse();
    assert_eq!(expected_bids, bids);
}

#[test]
fn read_bids_start_after_limit() {
    let deps = store_with_mock_bids();

    let func = |order| read_bids(&deps, 0, Some(1), Some(1), Some(order)).unwrap();

    let bids = func(OrderBy::Asc);
    assert_eq!(mock_bids()[2..3], bids);

    let bids = func(OrderBy::Desc);
    let expected_bids = &mut mock_bids()[1..2];
    expected_bids.reverse();
    assert_eq!(expected_bids, bids);
}

#[test]
fn read_bids_start_after_limit_too_high() {
    let deps = store_with_mock_bids();

    let func = |order| read_bids(&deps, 0, Some(1), Some(100), Some(order)).unwrap();

    let bids = func(OrderBy::Asc);
    assert_eq!(mock_bids()[2..], bids);

    let bids = func(OrderBy::Desc);
    let expected_bids = &mut mock_bids()[0..2];
    expected_bids.reverse();
    assert_eq!(expected_bids, bids);
}

#[test]
fn read_bids_start_after_too_high() {
    let deps = store_with_mock_bids();

    let func = |order| read_bids(&deps, 0, Some(100), None, Some(order)).unwrap();

    let bids = func(OrderBy::Asc);
    assert!(bids.is_empty());

    let bids = func(OrderBy::Desc);
    assert!(bids.is_empty());
}

#[test]
fn read_bids_start_after_and_limit_too_high() {
    let deps = store_with_mock_bids();

    let func = |order| read_bids(&deps, 0, Some(100), Some(100), Some(order)).unwrap();

    let bids = func(OrderBy::Asc);
    assert!(bids.is_empty());

    let bids = func(OrderBy::Desc);
    assert!(bids.is_empty());
}

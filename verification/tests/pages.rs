use auction::query::{auction_infos, page_bids, read_auction_infos, read_bids};
use auction::response::{attr, Attribute, Instruction, Response};
use auction::state::{
    entry_before, file_info, find_slot, holds_at, AuctionInfo, AuctionStore, Bid, IndexEntry,
    OrderBy,
};
use auction::text::{make_asset_key, str_eq, str_lt};
use auction::time::{block_to_expiration, millisecond_to_expiration, BlockInfo, Expiration, Timestamp};
use auction::error::ContractError;

fn ledger(n: u128) -> Vec<Bid> {
    (0..n)
        .map(|i| Bid {
            bidder: format!("bidder{i}"),
            amount: i + 1,
            timestamp: Timestamp::from_nanos(i as u64),
        })
        .collect()
}

fn amounts(page: &[Bid]) -> Vec<u128> {
    page.iter().map(|bid| bid.amount).collect()
}

fn entry(token_id: &str, token_address: &str, id: u128) -> IndexEntry {
    IndexEntry {
        key: token_id.to_string() + token_address,
        info: AuctionInfo {
            auction_ids: vec![id],
            token_address: token_address.to_string(),
            token_id: token_id.to_string(),
        },
    }
}

fn index() -> AuctionStore {
    let mut store = AuctionStore::new();
    store.infos = vec![
        entry("a", "x", 1),
        entry("b", "y", 2),
        entry("c", "x", 3),
        entry("d", "x", 4),
        entry("e", "y", 5),
    ];
    store
}

fn ids(infos: &[AuctionInfo]) -> Vec<u128> {
    infos.iter().map(|info| info.auction_ids[0]).collect()
}

#[test]
fn an_ascending_page_resumes_after_the_cursor() {
    let bids = ledger(6);
    for k in 0..8u64 {
        for n in 1..8u64 {
            for order in [None, Some(OrderBy::Asc)] {
                let page = page_bids(&bids, Some(k), Some(n), order);
                assert!(page.len() as u64 <= n);
                if k + 1 >= 6 {
                    assert!(page.is_empty());
                } else {
                    assert_eq!(page[0], bids[k as usize + 1]);
                    assert_eq!(page[..], bids[k as usize + 1..][..page.len()]);
                    assert_eq!(page.len() as u64, n.min(6 - (k + 1)));
                }
            }
        }
    }
}

#[test]
fn a_descending_page_without_cursor_is_the_ledger_reversed() {
    for len in [0u128, 1, 4, 50] {
        let bids = ledger(len);
        let mut reversed = ledger(len);
        reversed.reverse();
        for limit in [len as u64, len as u64 + 1, 50, 51, u64::MAX] {
            if limit >= len as u64 {
                assert_eq!(page_bids(&bids, None, Some(limit), Some(OrderBy::Desc)), reversed);
            }
        }
    }
}

#[test]
fn a_page_holds_ten_bids_by_default_and_never_more_than_fifty() {
    let bids = ledger(60);
    assert_eq!(amounts(&page_bids(&bids, None, None, None)), (1..=10).collect::<Vec<u128>>());
    assert_eq!(
        amounts(&page_bids(&bids, None, None, Some(OrderBy::Desc))),
        (51..=60).rev().collect::<Vec<u128>>()
    );
    for limit in [50u64, 51, 60, 1000, u64::MAX] {
        assert_eq!(
            amounts(&page_bids(&bids, None, Some(limit), Some(OrderBy::Asc))),
            (1..=50).collect::<Vec<u128>>()
        );
        assert_eq!(
            amounts(&page_bids(&bids, None, Some(limit), Some(OrderBy::Desc))),
            (11..=60).rev().collect::<Vec<u128>>()
        );
        assert_eq!(
            amounts(&page_bids(&bids, Some(4), Some(limit), Some(OrderBy::Desc))),
            (6..=55).rev().collect::<Vec<u128>>()
        );
    }
    assert_eq!(amounts(&page_bids(&bids, Some(57), Some(49), None)), vec![59, 60]);
}

#[test]
fn a_page_of_nothing_is_empty() {
    let bids = ledger(4);
    for order in [None, Some(OrderBy::Asc), Some(OrderBy::Desc)] {
        assert!(page_bids(&bids, None, Some(0), order).is_empty());
        assert!(page_bids(&bids, Some(1), Some(0), order).is_empty());
        assert!(page_bids(&vec![], None, None, order).is_empty());
        assert!(page_bids(&vec![], Some(0), Some(3), order).is_empty());
    }
}

#[test]
fn a_cursor_beyond_the_ledger_gives_an_empty_page() {
    let bids = ledger(4);
    for cursor in [3u64, 4, 5, u64::MAX - 1, u64::MAX] {
        for limit in [None, Some(1), Some(u64::MAX)] {
            for order in [None, Some(OrderBy::Asc), Some(OrderBy::Desc)] {
                assert!(page_bids(&bids, Some(cursor), limit, order).is_empty());
            }
        }
    }
    assert_eq!(amounts(&page_bids(&bids, Some(2), None, None)), vec![4]);
    assert_eq!(amounts(&page_bids(&bids, Some(2), None, Some(OrderBy::Desc))), vec![1]);
}

#[test]
fn a_descending_page_counts_its_cursor_from_the_newest_bid() {
    let bids = ledger(6);
    let page = page_bids(&bids, Some(0), Some(2), Some(OrderBy::Desc));
    assert_eq!(amounts(&page), vec![5, 4]);
    let page = page_bids(&bids, Some(3), Some(5), Some(OrderBy::Desc));
    assert_eq!(amounts(&page), vec![2, 1]);
    let mut store = AuctionStore::new();
    store.bids.insert(9, ledger(6));
    assert_eq!(read_bids(&store, 9, Some(0), Some(2), Some(OrderBy::Desc)), Ok(page_bids(&bids, Some(0), Some(2), Some(OrderBy::Desc))));
}

#[test]
fn a_listing_walks_the_index_in_key_order() {
    let store = index();
    let all = read_auction_infos(&store, None, None, None).unwrap();
    assert_eq!(ids(&all), vec![1, 2, 3, 4, 5]);
    let of_x = read_auction_infos(&store, Some("x".to_string()), None, None).unwrap();
    assert_eq!(ids(&of_x), vec![1, 3, 4]);
    assert_eq!(of_x[0], store.infos[0].info);
    let none = read_auction_infos(&store, Some("z".to_string()), None, None).unwrap();
    assert!(none.is_empty());
}

#[test]
fn a_listing_resumes_strictly_after_its_cursor() {
    let store = index();
    let list = |address: Option<&str>, cursor: &str, limit: Option<u64>| {
        ids(&read_auction_infos(
            &store,
            address.map(|a| a.to_string()),
            Some(cursor.to_string()),
            limit,
        )
        .unwrap())
    };
    assert_eq!(list(None, "", None), vec![1, 2, 3, 4, 5]);
    assert_eq!(list(None, "ax", None), vec![2, 3, 4, 5]);
    assert_eq!(list(None, "a", None), vec![1, 2, 3, 4, 5]);
    assert_eq!(list(None, "axx", None), vec![2, 3, 4, 5]);
    assert_eq!(list(None, "by", Some(2)), vec![3, 4]);
    assert_eq!(list(Some("x"), "ax", None), vec![3, 4]);
    assert_eq!(list(Some("x"), "ax", Some(1)), vec![3]);
    assert_eq!(list(Some("y"), "by", None), vec![5]);
    assert_eq!(list(None, "ey", None), Vec::<u128>::new());
    assert_eq!(list(None, "z", Some(50)), Vec::<u128>::new());
}

#[test]
fn a_listing_holds_ten_entries_by_default_and_never_more_than_fifty() {
    let mut store = AuctionStore::new();
    for i in 0..70u128 {
        store.infos.push(entry(&format!("{i:03}"), "x", i + 1));
    }
    assert_eq!(
        ids(&read_auction_infos(&store, None, None, None).unwrap()),
        (1..=10).collect::<Vec<u128>>()
    );
    assert_eq!(read_auction_infos(&store, None, None, Some(0)).unwrap(), vec![]);
    for limit in [50u64, 51, u64::MAX] {
        assert_eq!(
            ids(&read_auction_infos(&store, None, Some("009x".to_string()), Some(limit)).unwrap()),
            (11..=60).collect::<Vec<u128>>()
        );
    }
    assert_eq!(
        ids(&read_auction_infos(&store, None, Some("066x".to_string()), Some(50)).unwrap()),
        vec![68, 69, 70]
    );
}

#[test]
fn keys_are_ordered_by_their_bytes() {
    let ordered = ["", "A", "Z", "a", "aa", "ab", "b", "z", "é", "日本", "\u{10000}"];
    for (i, a) in ordered.iter().enumerate() {
        for (j, b) in ordered.iter().enumerate() {
            assert_eq!(str_lt(a, b), i < j);
            assert_eq!(str_lt(a, b), a.as_bytes() < b.as_bytes());
        }
    }
}

#[test]
fn a_key_is_the_token_followed_by_its_collection() {
    assert_eq!(make_asset_key("token", "addr"), "tokenaddr");
    assert_eq!(make_asset_key("", "addr"), "addr");
    assert_eq!(make_asset_key("token", ""), "token");
    assert_eq!(make_asset_key("é", "日"), "é日");
}

#[test]
fn an_asset_is_looked_up_by_its_two_names() {
    let store = index();
    assert_eq!(auction_infos(&store, "a", "x"), Some(store.infos[0].info.clone()));
    assert_eq!(auction_infos(&store, "e", "y"), Some(store.infos[4].info.clone()));
    assert_eq!(auction_infos(&store, "c", "x").unwrap().auction_ids, vec![3]);
    let missing =
        [("", ""), ("a", ""), ("", "ax"), ("ax", ""), ("a", "y"), ("x", "a"), ("e", "z"), ("z", "x")];
    for (token_id, collection) in missing {
        assert_eq!(auction_infos(&store, token_id, collection), None);
    }
    assert_eq!(auction_infos(&AuctionStore::new(), "a", "x"), None);
}

#[test]
fn an_asset_has_one_place_in_the_index() {
    let store = index();
    assert_eq!(find_slot(&store.infos, "", ""), 0);
    assert_eq!(find_slot(&store.infos, "a", "x"), 0);
    assert_eq!(find_slot(&store.infos, "", "ax"), 0);
    assert_eq!(find_slot(&store.infos, "ax", ""), 1);
    assert_eq!(find_slot(&store.infos, "a", "y"), 1);
    assert_eq!(find_slot(&store.infos, "c", "x"), 2);
    assert_eq!(find_slot(&store.infos, "e", "y"), 4);
    assert_eq!(find_slot(&store.infos, "e", "z"), 5);
    assert_eq!(find_slot(&vec![], "a", "x"), 0);
    for (p, entry) in store.infos.iter().enumerate() {
        assert!(holds_at(&store.infos, p, &entry.info.token_id, &entry.info.token_address));
        assert!(!holds_at(&store.infos, p, &entry.key, ""));
        assert!(!holds_at(&store.infos, p, "", &entry.key));
    }
    assert!(!holds_at(&store.infos, 5, "e", "y"));
}

#[test]
fn an_entry_is_filed_at_its_place_once() {
    let expected = index().infos;
    let mut filed: Vec<IndexEntry> = vec![];
    for p in [3usize, 0, 4, 2, 1] {
        assert!(file_info(&mut filed, expected[p].info.clone()));
    }
    assert_eq!(filed, expected);
    for entry in &expected {
        assert!(!file_info(&mut filed, entry.info.clone()));
    }
    assert_eq!(filed, expected);
    let mut tied: Vec<IndexEntry> = vec![];
    for (token_id, collection) in [("ab", "c"), ("", "abc"), ("abc", ""), ("a", "bc")] {
        assert!(file_info(&mut tied, entry(token_id, collection, 1).info));
    }
    let tokens: Vec<&str> = tied.iter().map(|e| e.info.token_id.as_str()).collect();
    assert_eq!(tokens, vec!["", "a", "ab", "abc"]);
    assert!(!file_info(&mut tied, entry("a", "bc", 9).info));
    assert_eq!(tied.len(), 4);
}

#[test]
fn entries_with_one_text_are_ordered_by_their_token() {
    let tied =
        vec![entry("", "abc", 1), entry("a", "bc", 2), entry("ab", "c", 3), entry("abc", "", 4)];
    for (p, e) in tied.iter().enumerate() {
        assert_eq!(e.key, "abc");
        assert_eq!(find_slot(&tied, &e.info.token_id, &e.info.token_address), p);
        assert!(holds_at(&tied, p, &e.info.token_id, &e.info.token_address));
        for (q, other) in tied.iter().enumerate() {
            assert_eq!(entry_before(e, &other.key, &other.info.token_id), p < q);
        }
    }
    assert!(entry_before(&tied[3], "abd", ""));
    assert!(!entry_before(&tied[0], "abb", "z"));
    assert!(str_eq("abc", "abc") && str_eq("", "") && !str_eq("abc", "ab") && !str_eq("a", "b"));
}

#[test]
fn instants_are_printed_as_the_reports_show_them() {
    assert_eq!(Expiration::AtHeight(0).to_string(), "expiration height: 0");
    assert_eq!(
        Expiration::AtHeight(u64::MAX).to_string(),
        "expiration height: 18446744073709551615"
    );
    assert_eq!(Expiration::Never {}.to_string(), "expiration: never");
    assert_eq!(
        Expiration::AtTime(Timestamp::from_nanos(0)).to_string(),
        "expiration time: 0.000000000"
    );
    assert_eq!(
        Expiration::AtTime(Timestamp::from_nanos(1_000_000_001)).to_string(),
        "expiration time: 1.000000001"
    );
    assert_eq!(
        Expiration::AtTime(Timestamp::from_nanos(12_345_678_900)).to_string(),
        "expiration time: 12.345678900"
    );
    assert_eq!(
        Expiration::AtTime(Timestamp::from_nanos(u64::MAX)).to_string(),
        "expiration time: 18446744073.709551615"
    );
}

#[test]
fn milliseconds_become_nanoseconds() {
    assert_eq!(
        millisecond_to_expiration(100000),
        Ok(Expiration::AtTime(Timestamp::from_seconds(100)))
    );
    assert_eq!(millisecond_to_expiration(0), Ok(Expiration::AtTime(Timestamp::from_nanos(0))));
    assert_eq!(
        millisecond_to_expiration(u64::MAX / 1_000_000),
        Ok(Expiration::AtTime(Timestamp::from_nanos(18446744073709000000)))
    );
    assert_eq!(
        millisecond_to_expiration(u64::MAX / 1_000_000 + 1),
        Err(ContractError::InvalidExpiration {})
    );
    assert_eq!(millisecond_to_expiration(u64::MAX), Err(ContractError::InvalidExpiration {}));
}

#[test]
fn a_timestamp_splits_into_seconds_and_nanoseconds() {
    let t = Timestamp::from_nanos(12_345_678_901);
    assert_eq!(t.nanos(), 12_345_678_901);
    assert_eq!(t.seconds(), 12);
    assert_eq!(t.subsec_nanos(), 345_678_901);
    assert_eq!(Timestamp::from_seconds(18_446_744_073).nanos(), 18_446_744_073_000_000_000);
}

#[test]
fn an_instant_is_reached_from_its_block_on() {
    let block = BlockInfo { height: 10, time: Timestamp::from_nanos(500) };
    assert!(Expiration::AtHeight(9).is_expired(&block));
    assert!(Expiration::AtHeight(10).is_expired(&block));
    assert!(!Expiration::AtHeight(11).is_expired(&block));
    assert!(Expiration::AtTime(Timestamp::from_nanos(499)).is_expired(&block));
    assert!(Expiration::AtTime(Timestamp::from_nanos(500)).is_expired(&block));
    assert!(!Expiration::AtTime(Timestamp::from_nanos(501)).is_expired(&block));
    assert!(!Expiration::Never {}.is_expired(&block));
}

#[test]
fn instants_of_one_kind_are_ordered() {
    let early = Expiration::AtTime(Timestamp::from_nanos(1));
    let late = Expiration::AtTime(Timestamp::from_nanos(2));
    let low = Expiration::AtHeight(1);
    let high = Expiration::AtHeight(2);
    let never = Expiration::Never {};
    assert!(late.gt(&early) && !early.gt(&late) && !early.gt(&early));
    assert!(high.gt(&low) && !low.gt(&high) && !low.gt(&low));
    assert!(never.gt(&late) && never.gt(&high) && !never.gt(&never));
    assert!(!late.gt(&never) && !high.gt(&never));
    assert!(!late.gt(&low) && !low.gt(&late) && !high.gt(&early) && !early.gt(&high));
}

#[test]
fn the_clock_is_read_in_the_kind_of_the_model() {
    let block = BlockInfo { height: 10, time: Timestamp::from_nanos(500) };
    assert_eq!(
        block_to_expiration(&block, Expiration::AtTime(Timestamp::from_nanos(0))),
        Some(Expiration::AtTime(Timestamp::from_nanos(500)))
    );
    assert_eq!(
        block_to_expiration(&block, Expiration::AtHeight(0)),
        Some(Expiration::AtHeight(10))
    );
    assert_eq!(block_to_expiration(&block, Expiration::Never {}), None);
}

#[test]
fn an_auction_info_lists_its_auctions_oldest_first() {
    let mut info = AuctionInfo::default();
    assert_eq!(info.latest(), None);
    assert_eq!(
        info,
        AuctionInfo { auction_ids: vec![], token_address: String::new(), token_id: String::new() }
    );
    info.push(4);
    assert_eq!(info.latest(), Some(&4));
    info.push(2);
    assert_eq!(info.latest(), Some(&2));
    assert_eq!(info.auction_ids, vec![4, 2]);
    assert_eq!(info.clone(), info);
}

#[test]
fn a_response_keeps_what_is_added_in_order() {
    let first = Instruction::TransferCurrency { to: "a".into(), denom: "usd".into(), amount: 1 };
    let second = Instruction::TransferCurrency { to: "b".into(), denom: "usd".into(), amount: 2 };
    let response = Response::new()
        .add_attribute("k1", "v1")
        .add_message(first)
        .add_attribute("k2", "v2")
        .add_message(second);
    assert_eq!(
        response,
        Response {
            messages: vec![
                Instruction::TransferCurrency { to: "a".into(), denom: "usd".into(), amount: 1 },
                Instruction::TransferCurrency { to: "b".into(), denom: "usd".into(), amount: 2 },
            ],
            attributes: vec![
                Attribute { key: "k1".into(), value: "v1".into() },
                Attribute { key: "k2".into(), value: "v2".into() },
            ],
        }
    );
    assert_eq!(attr("k", "v"), Attribute { key: "k".into(), value: "v".into() });
}

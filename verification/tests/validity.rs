use auction::contract::{exec_cancel, exec_place_bid, exec_start_auction};
use auction::response::{Coin, ContractInfo, Env, MessageInfo};
use auction::state::{AuctionInfo, AuctionPhase, AuctionStore, Bid, IndexEntry};
use auction::time::{BlockInfo, Expiration, Timestamp};
use auction::validity::{index_ascends, ledger_leads};

fn time(seconds: u64) -> Env {
    Env {
        block: BlockInfo { height: 1, time: Timestamp::from_seconds(seconds) },
        contract: ContractInfo { address: "engine".to_string() },
    }
}

fn start(store: &mut AuctionStore, token_id: &str, collection: &str) {
    exec_start_auction(
        store,
        time(0),
        "alice".to_string(),
        token_id.to_string(),
        collection.to_string(),
        100_000,
        100_000,
        "usd".to_string(),
        None,
    )
    .unwrap();
}

fn offer(store: &mut AuctionStore, bidder: &str, amount: u128, token_id: &str, collection: &str) {
    let info = MessageInfo {
        sender: bidder.to_string(),
        funds: vec![Coin { denom: "usd".to_string(), amount }],
    };
    exec_place_bid(store, time(150), info, token_id.to_string(), collection.to_string()).unwrap();
}

/// Three auctions on two assets, with bids and a cancellation.
fn busy_store() -> AuctionStore {
    let mut store = AuctionStore::new();
    start(&mut store, "t", "x");
    offer(&mut store, "bob", 5, "t", "x");
    offer(&mut store, "carol", 7, "t", "x");
    let owner = MessageInfo { sender: "alice".to_string(), funds: vec![] };
    exec_cancel(&mut store, time(160), owner, "t".to_string(), "x".to_string()).unwrap();
    start(&mut store, "s", "x");
    start(&mut store, "t", "x");
    offer(&mut store, "bob", 1, "t", "x");
    store
}

fn broken(change: impl FnOnce(&mut AuctionStore)) -> bool {
    let mut store = busy_store();
    change(&mut store);
    !store.is_valid()
}

#[test]
fn what_the_engine_leaves_is_valid() {
    assert!(AuctionStore::new().is_valid());
    let mut store = AuctionStore::new();
    start(&mut store, "t", "x");
    assert!(store.is_valid());
    offer(&mut store, "bob", 5, "t", "x");
    assert!(store.is_valid());
    assert!(busy_store().is_valid());
    assert!(!broken(|_| {}));
    let store = busy_store();
    assert_eq!(store.infos.len(), 2);
    assert_eq!(store.infos[0].info.auction_ids, vec![2]);
    assert_eq!(store.infos[1].info.auction_ids, vec![1, 3]);
}

#[test]
fn the_ids_given_out_are_those_below_the_next() {
    assert!(broken(|s| s.next_auction_id = 0));
    assert!(broken(|s| s.next_auction_id = 3));
    assert!(broken(|s| s.next_auction_id = 5));
    assert!(broken(|s| {
        s.auctions.remove(&2);
    }));
    assert!(broken(|s| {
        let auction = s.auctions.remove(&2).unwrap();
        s.auctions.insert(9, auction);
    }));
    assert!(broken(|s| {
        let auction = s.auctions.remove(&1).unwrap();
        s.auctions.insert(0, auction);
    }));
    let mut store = AuctionStore::new();
    store.next_auction_id = 0;
    assert!(!store.is_valid());
    let mut store = AuctionStore::new();
    store.next_auction_id = 2;
    assert!(!store.is_valid());
}

#[test]
fn every_auction_has_its_ledger_and_every_ledger_its_auction() {
    assert!(broken(|s| {
        s.bids.remove(&2);
    }));
    assert!(broken(|s| {
        s.bids.insert(9, vec![]);
    }));
    assert!(broken(|s| {
        let ledger = s.bids.remove(&2).unwrap();
        s.bids.insert(9, ledger);
    }));
    let mut store = AuctionStore::new();
    store.bids.insert(0, vec![]);
    assert!(!store.is_valid());
}

#[test]
fn every_auction_carries_its_id_and_ends_after_it_starts() {
    assert!(broken(|s| s.auctions.get_mut(&2).unwrap().auction_id = 3));
    assert!(broken(|s| {
        let auction = s.auctions.get_mut(&2).unwrap();
        auction.end_time = auction.start_time;
    }));
    assert!(broken(|s| {
        s.auctions.get_mut(&2).unwrap().end_time = Expiration::AtTime(Timestamp::from_nanos(1))
    }));
    assert!(broken(|s| s.auctions.get_mut(&2).unwrap().end_time = Expiration::AtHeight(u64::MAX)));
    assert!(broken(|s| s.auctions.get_mut(&2).unwrap().start_time = Expiration::Never {}));
    assert!(!broken(|s| s.auctions.get_mut(&2).unwrap().end_time = Expiration::Never {}));
    assert!(!broken(|s| {
        let auction = s.auctions.get_mut(&2).unwrap();
        auction.start_time = Expiration::AtHeight(4);
        auction.end_time = Expiration::AtHeight(5);
    }));
}

#[test]
fn every_auction_leads_with_the_last_bid_of_its_ledger() {
    assert!(broken(|s| s.auctions.get_mut(&1).unwrap().high_bidder_amount = 6));
    assert!(broken(|s| s.auctions.get_mut(&1).unwrap().high_bidder_addr = "bob".to_string()));
    assert!(broken(|s| s.auctions.get_mut(&2).unwrap().high_bidder_amount = 1));
    assert!(broken(|s| s.auctions.get_mut(&2).unwrap().high_bidder_addr = "bob".to_string()));
    assert!(broken(|s| {
        s.bids.get_mut(&1).unwrap().pop();
    }));
    assert!(broken(|s| s.bids.get_mut(&1).unwrap()[0].amount = 7));
    assert!(broken(|s| s.bids.get_mut(&1).unwrap()[0].amount = 8));
    assert!(broken(|s| s.bids.get_mut(&1).unwrap()[0].amount = 0));
    assert!(!broken(|s| s.bids.get_mut(&1).unwrap()[0].amount = 6));
    assert!(!broken(|s| s.bids.get_mut(&1).unwrap()[0].bidder = "dave".to_string()));
}

#[test]
fn a_ledger_is_held_against_its_auction() {
    let store = busy_store();
    let auction = store.auctions.get(&1).unwrap();
    let bid = |bidder: &str, amount: u128| Bid {
        bidder: bidder.to_string(),
        amount,
        timestamp: Timestamp::from_seconds(150),
    };
    assert!(ledger_leads(auction, store.bids.get(&1).unwrap()));
    assert!(ledger_leads(auction, &vec![bid("carol", 7)]));
    assert!(ledger_leads(auction, &vec![bid("a", 1), bid("b", 2), bid("carol", 7)]));
    assert!(!ledger_leads(auction, &vec![]));
    assert!(!ledger_leads(auction, &vec![bid("carol", 8)]));
    assert!(!ledger_leads(auction, &vec![bid("bob", 7)]));
    assert!(!ledger_leads(auction, &vec![bid("a", 2), bid("b", 2), bid("carol", 7)]));
    assert!(!ledger_leads(auction, &vec![bid("a", 3), bid("b", 2), bid("carol", 7)]));
    assert!(!ledger_leads(auction, &vec![bid("a", 0), bid("b", 2), bid("carol", 7)]));
    let unbid = store.auctions.get(&2).unwrap();
    assert!(ledger_leads(unbid, &vec![]));
    assert!(!ledger_leads(unbid, &vec![bid("", 0)]));
}

#[test]
fn the_index_ascends_by_key() {
    assert!(broken(|s| s.infos.swap(0, 1)));
    assert!(broken(|s| {
        let again = s.infos[0].clone();
        s.infos.insert(0, again);
    }));
    let entry = |token_id: &str, collection: &str| IndexEntry {
        key: token_id.to_string() + collection,
        info: AuctionInfo {
            auction_ids: vec![],
            token_address: collection.to_string(),
            token_id: token_id.to_string(),
        },
    };
    assert!(index_ascends(&vec![]));
    assert!(index_ascends(&vec![entry("b", "")]));
    assert!(index_ascends(&vec![entry("", ""), entry("a", ""), entry("a", "b"), entry("b", "")]));
    assert!(index_ascends(&vec![entry("", "ab"), entry("a", "b"), entry("ab", "")]));
    assert!(!index_ascends(&vec![entry("a", "b"), entry("", "ab")]));
    assert!(!index_ascends(&vec![entry("a", "b"), entry("a", "b")]));
    assert!(!index_ascends(&vec![entry("a", ""), entry("c", ""), entry("b", "")]));
    assert!(!index_ascends(&vec![entry("b", ""), entry("a", ""), entry("c", "")]));
    let mut misfiled = entry("a", "b");
    misfiled.key = "a".to_string();
    assert!(!index_ascends(&vec![misfiled]));
}

#[test]
fn every_index_entry_fits_the_auctions() {
    assert!(broken(|s| s.infos[1].key = "ty".to_string()));
    assert!(broken(|s| s.infos[1].info.token_id = "u".to_string()));
    assert!(broken(|s| {
        s.infos[1].info.token_id = "".to_string();
        s.infos[1].info.token_address = "tx".to_string();
    }));
    assert!(broken(|s| s.infos[0].info.auction_ids = vec![]));
    assert!(broken(|s| s.infos[1].info.auction_ids = vec![3, 1]));
    assert!(broken(|s| s.infos[1].info.auction_ids = vec![1, 1, 3]));
    assert!(broken(|s| s.infos[1].info.auction_ids = vec![1, 3, 4]));
    assert!(broken(|s| s.infos[1].info.auction_ids = vec![1, 2, 3]));
    assert!(broken(|s| s.auctions.get_mut(&3).unwrap().token_id = "s".to_string()));
    let store = busy_store();
    assert!(store.entry_fits(&store.infos[0]));
    assert!(store.entry_fits(&store.infos[1]));
}

#[test]
fn every_auction_is_listed_in_the_index() {
    assert!(broken(|s| s.infos[1].info.auction_ids = vec![3]));
    assert!(broken(|s| s.infos[1].info.auction_ids = vec![1]));
    assert!(broken(|s| {
        s.infos.remove(0);
    }));
    assert!(broken(|s| s.infos.clear()));
    let store = busy_store();
    for id in 1..=3u128 {
        assert!(store.auction_is_sound(id));
        assert!(store.lists_auction(id, store.auctions.get(&id).unwrap()));
    }
    assert!(!store.auction_is_sound(0));
    assert!(!store.auction_is_sound(4));
}

#[test]
fn an_auction_is_pending_then_open_then_ended_unless_cancelled() {
    let store = busy_store();
    let at = |seconds: u64| BlockInfo { height: 1, time: Timestamp::from_seconds(seconds) };
    let live = store.auctions.get(&2).unwrap();
    assert_eq!(live.phase(&at(0)), AuctionPhase::Pending);
    assert_eq!(live.phase(&at(99)), AuctionPhase::Pending);
    assert_eq!(live.phase(&at(100)), AuctionPhase::Open);
    assert_eq!(live.phase(&at(199)), AuctionPhase::Open);
    assert_eq!(live.phase(&at(200)), AuctionPhase::Ended);
    assert_eq!(live.phase(&at(1000)), AuctionPhase::Ended);
    let called_off = store.auctions.get(&1).unwrap();
    for seconds in [0, 99, 100, 199, 200, 1000] {
        assert_eq!(called_off.phase(&at(seconds)), AuctionPhase::Cancelled);
    }
}

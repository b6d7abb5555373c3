//! Reading the records page by page.

use crate::error::{ContractError, ErrorView};
use crate::state::{
    bids_view, find_slot, holds_asset, holds_at, index_sorted, position, AuctionInfo,
    AuctionInfoView, AuctionStore, Bid, BidView, IndexEntryView, OrderBy, TokenAuctionState,
    DEFAULT_LIMIT, MAX_LIMIT,
};
use crate::text::{key_lt, str_lt};
use vstd::prelude::*;

verus! {

broadcast use vstd::std_specs::hash::group_hash_axioms;

/// How many items a query hands out at most: what the caller asks for, ten
/// where it asks for nothing, and never more than fifty.
pub open spec fn page_limit(limit: Option<u64>) -> int {
    let asked = match limit {
        Some(n) => n as int,
        None => DEFAULT_LIMIT as int,
    };
    if asked < MAX_LIMIT {
        asked
    } else {
        MAX_LIMIT as int
    }
}

/// The position at which a page starts: the one after the cursor, or the
/// first.
pub open spec fn page_start(start_after: Option<u64>) -> int {
    match start_after {
        Some(position) => position + 1,
        None => 0,
    }
}

/// The smaller of two numbers.
pub open spec fn least(a: int, b: int) -> int {
    if a < b {
        a
    } else {
        b
    }
}

/// Where a page of a ledger of `len` bids begins, counted from the oldest.
/// An ascending page begins at its start; a descending one is counted from
/// the newest bid backwards, and so begins where its last bid stands.
pub open spec fn page_low(len: int, start_after: Option<u64>, limit: Option<u64>, descending: bool) -> int {
    if descending {
        len - least(len, page_start(start_after) + page_limit(limit))
    } else {
        least(len, page_start(start_after))
    }
}

/// Where a page of a ledger of `len` bids ends, counted from the oldest:
/// the position after its last bid.
pub open spec fn page_high(len: int, start_after: Option<u64>, limit: Option<u64>, descending: bool) -> int {
    if descending {
        len - least(page_start(start_after), len)
    } else {
        least(page_start(start_after) + page_limit(limit), len)
    }
}

/// The page of `bids` that a query gets: the bids from `page_low` up to
/// `page_high`, newest first where the order is descending.
pub open spec fn page_of(
    bids: Seq<BidView>,
    start_after: Option<u64>,
    limit: Option<u64>,
    order_by: Option<OrderBy>,
) -> Seq<BidView> {
    let descending = order_by == Some(OrderBy::Desc);
    let low = page_low(bids.len() as int, start_after, limit, descending);
    let high = page_high(bids.len() as int, start_after, limit, descending);
    if descending {
        bids.subrange(low, high).reverse()
    } else {
        bids.subrange(low, high)
    }
}

/// Cuts one page out of a bid ledger. A cursor names the position of the
/// bid seen last, and the page resumes after it: counted from the oldest bid
/// in ascending order (the default), from the newest in descending order. A
/// cursor or limit beyond the ledger gives a shorter or empty page.
pub fn page_bids(
    bids: &Vec<Bid>,
    start_after: Option<u64>,
    limit: Option<u64>,
    order_by: Option<OrderBy>,
) -> (page: Vec<Bid>)
    ensures
        bids_view(page@) == page_of(bids_view(bids@), start_after, limit, order_by),
{
    let len: usize = bids.len();
    let asked: u64 = match limit {
        Some(n) => n,
        None => DEFAULT_LIMIT,
    };
    let limit_n: u64 = if asked < MAX_LIMIT {
        asked
    } else {
        MAX_LIMIT
    };
    let descending: bool = match order_by {
        Some(OrderBy::Desc) => true,
        _ => false,
    };
    // How far the page's start and end lie from the end of the ledger at
    // which the counting begins, neither beyond the ledger's length.
    let near: usize = match start_after {
        None => 0,
        Some(position) => if position >= len as u64 {
            len
        } else {
            position as usize + 1
        },
    };
    let far: usize = if limit_n as usize >= len - near {
        len
    } else {
        near + limit_n as usize
    };
    assert(near as int == least(len as int, page_start(start_after)));
    assert(far as int == least(page_start(start_after) + page_limit(limit), len as int));
    let ghost all = bids_view(bids@);
    let ghost low = page_low(len as int, start_after, limit, descending);
    let ghost high = page_high(len as int, start_after, limit, descending);
    let mut page: Vec<Bid> = Vec::new();
    if descending {
        assert(low == len - far && high == len - near);
        let mut i: usize = len - near;
        while i > len - far
            invariant
                len == bids@.len(),
                near <= far <= len,
                len - far <= i <= len - near,
                all == bids_view(bids@),
                bids_view(page@) =~= all.subrange(i as int, len - near).reverse(),
            decreases i,
        {
            i -= 1;
            let ghost before = page@;
            let bid = bids[i].clone();
            page.push(bid);
            proof {
                let after = all.subrange(i as int, len - near).reverse();
                assert(all[i as int] == bids@[i as int]@);
                assert(bids_view(page@) =~= bids_view(before).push(bid@));
                assert(bids_view(page@).len() == after.len());
                assert forall|k: int| 0 <= k < after.len() implies bids_view(page@)[k]
                    == after[k] by {
                    if k < before.len() {
                        assert(bids_view(before)[k] == all.subrange(i + 1, len - near).reverse()[k]);
                    }
                }
            }
        }
    } else {
        assert(low == near && high == far);
        let mut i: usize = near;
        while i < far
            invariant
                len == bids@.len(),
                near <= i <= far <= len,
                all == bids_view(bids@),
                bids_view(page@) =~= all.subrange(near as int, i as int),
            decreases far - i,
        {
            let ghost before = page@;
            let bid = bids[i].clone();
            page.push(bid);
            proof {
                assert(all[i as int] == bids@[i as int]@);
                assert(bids_view(page@) =~= bids_view(before).push(bid@));
            }
            i += 1;
        }
    }
    page
}

/// Reads one page of the bids accepted on an auction. Fails with
/// `AuctionDoesNotExist` exactly when the store has no bid ledger under
/// `auction_id`.
pub fn read_bids(
    store: &AuctionStore,
    auction_id: u128,
    start_after: Option<u64>,
    limit: Option<u64>,
    order_by: Option<OrderBy>,
) -> (r: Result<Vec<Bid>, ContractError>)
    ensures
        match r {
            Ok(page) => store@.bids.contains_key(auction_id) && bids_view(page@) == page_of(
                store@.bids[auction_id],
                start_after,
                limit,
                order_by,
            ),
            Err(e) => !store@.bids.contains_key(auction_id) && e@
                == ErrorView::AuctionDoesNotExist,
        },
{
    match store.bids.get(&auction_id) {
        Some(bids) => Ok(page_bids(bids, start_after, limit, order_by)),
        None => Err(ContractError::AuctionDoesNotExist {  }),
    }
}

/// Reads one auction. Fails with `AuctionDoesNotExist` exactly when the
/// store has no auction under `auction_id`.
pub fn query_auction_state(store: &AuctionStore, auction_id: u128) -> (r: Result<
    TokenAuctionState,
    ContractError,
>)
    ensures
        match r {
            Ok(auction) => store@.auctions.contains_key(auction_id) && auction@
                == store@.auctions[auction_id],
            Err(e) => !store@.auctions.contains_key(auction_id) && e@
                == ErrorView::AuctionDoesNotExist,
        },
{
    match store.auctions.get(&auction_id) {
        Some(auction) => Ok(auction.clone()),
        None => Err(ContractError::AuctionDoesNotExist {  }),
    }
}

/// Looks up what the asset index, which is in order, holds for the token
/// `token_id` of the collection `token_address`.
pub fn auction_infos(store: &AuctionStore, token_id: &str, token_address: &str) -> (r: Option<
    AuctionInfo,
>)
    requires
        index_sorted(store@.infos),
    ensures
        match r {
            Some(info) => {
                &&& holds_asset(store@.infos, token_id@, token_address@)
                &&& info@ == store@.infos[position(store@.infos, token_id@, token_address@)].info
                &&& info@.token_id == token_id@
                &&& info@.token_address == token_address@
            },
            None => !holds_asset(store@.infos, token_id@, token_address@),
        },
{
    let p = find_slot(&store.infos, token_id, token_address);
    if holds_at(&store.infos, p, token_id, token_address) {
        assert(store@.infos[p as int] == store.infos@[p as int]@);
        Some(store.infos[p].info.clone())
    } else {
        None
    }
}

/// The entries of a listing as values.
pub open spec fn infos_view(infos: Seq<AuctionInfo>) -> Seq<AuctionInfoView> {
    infos.map_values(|i: AuctionInfo| i@)
}

/// Whether a listing shows the entry `e`: it is of the collection asked for,
/// where one is, and the text it is ordered by comes after the cursor, where
/// there is one.
pub open spec fn listed(
    e: IndexEntryView,
    token_address: Option<Seq<char>>,
    start_after: Option<Seq<char>>,
) -> bool {
    &&& match token_address {
        Some(address) => e.info.token_address == address,
        None => true,
    }
    &&& match start_after {
        Some(cursor) => key_lt(cursor, e.key),
        None => true,
    }
}

/// The entries of `entries` that a listing shows, in their order.
pub open spec fn listing(
    entries: Seq<IndexEntryView>,
    token_address: Option<Seq<char>>,
    start_after: Option<Seq<char>>,
) -> Seq<AuctionInfoView>
    decreases entries.len(),
{
    if entries.len() == 0 {
        Seq::empty()
    } else {
        let before = listing(entries.drop_last(), token_address, start_after);
        if listed(entries.last(), token_address, start_after) {
            before.push(entries.last().info)
        } else {
            before
        }
    }
}

/// What a listing shows of the first entries it also shows, first, of all.
pub proof fn lemma_listing_prefix(
    entries: Seq<IndexEntryView>,
    token_address: Option<Seq<char>>,
    start_after: Option<Seq<char>>,
    n: int,
)
    requires
        0 <= n <= entries.len(),
    ensures
        listing(entries.take(n), token_address, start_after).len() <= listing(
            entries,
            token_address,
            start_after,
        ).len(),
        listing(entries.take(n), token_address, start_after) == listing(
            entries,
            token_address,
            start_after,
        ).take(listing(entries.take(n), token_address, start_after).len() as int),
    decreases entries.len(),
{
    if n == entries.len() {
        assert(entries.take(n) =~= entries);
        let all = listing(entries, token_address, start_after);
        assert(all.take(all.len() as int) =~= all);
    } else {
        lemma_listing_prefix(entries.drop_last(), token_address, start_after, n);
        assert(entries.drop_last().take(n) =~= entries.take(n));
        let part = listing(entries.take(n), token_address, start_after);
        let before = listing(entries.drop_last(), token_address, start_after);
        let all = listing(entries, token_address, start_after);
        assert(part == before.take(part.len() as int));
        assert(all.take(part.len() as int) =~= before.take(part.len() as int));
    }
}

/// Lists the assets that ever had an auction, in the order of the index, at
/// most `page_limit(limit)` of them: those of the collection `token_address`
/// where one is named, and those whose joined names come after `start_after`
/// where a cursor is given.
pub fn read_auction_infos(
    store: &AuctionStore,
    token_address: Option<String>,
    start_after: Option<String>,
    limit: Option<u64>,
) -> (r: Result<Vec<AuctionInfo>, ContractError>)
    ensures
        r matches Ok(infos) && ({
            let all = listing(store@.infos, option_text(token_address), option_text(start_after));
            infos_view(infos@) == all.take(least(all.len() as int, page_limit(limit)))
        }),
{
    let asked: u64 = match limit {
        Some(n) => n,
        None => DEFAULT_LIMIT,
    };
    let limit_n: usize = if asked < MAX_LIMIT {
        asked as usize
    } else {
        MAX_LIMIT as usize
    };
    let ghost entries = store@.infos;
    let ghost address = option_text(token_address);
    let ghost cursor = option_text(start_after);
    let mut res: Vec<AuctionInfo> = Vec::new();
    let mut i: usize = 0;
    assert(entries.take(0) =~= Seq::empty());
    while i < store.infos.len() && res.len() < limit_n
        invariant
            entries == store@.infos,
            address == option_text(token_address),
            cursor == option_text(start_after),
            limit_n as int == page_limit(limit),
            i <= store.infos@.len(),
            res@.len() <= limit_n,
            infos_view(res@) == listing(entries.take(i as int), address, cursor),
        decreases store.infos@.len() - i,
    {
        let entry = &store.infos[i];
        let of_collection: bool = match &token_address {
            Some(wanted) => entry.info.token_address == *wanted,
            None => true,
        };
        let after_cursor: bool = match &start_after {
            Some(seen) => str_lt(seen.as_str(), entry.key.as_str()),
            None => true,
        };
        proof {
            assert(entries[i as int] == store.infos@[i as int]@);
            assert(entries.take(i + 1).drop_last() =~= entries.take(i as int));
            assert(entries.take(i + 1).last() == entries[i as int]);
            assert((of_collection && after_cursor) == listed(entries[i as int], address, cursor));
        }
        if of_collection && after_cursor {
            let ghost before = res@;
            let info = entry.info.clone();
            res.push(info);
            assert(infos_view(res@) =~= infos_view(before).push(info@));
        }
        i += 1;
    }
    proof {
        let all = listing(entries, address, cursor);
        lemma_listing_prefix(entries, address, cursor, i as int);
        if i == store.infos@.len() {
            assert(entries.take(i as int) =~= entries);
            assert(all.take(all.len() as int) =~= all);
        }
    }
    Ok(res)
}

/// The text of an optional string.
pub open spec fn option_text(s: Option<String>) -> Option<Seq<char>> {
    match s {
        Some(s) => Some(s@),
        None => None,
    }
}

} // verus!

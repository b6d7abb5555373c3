//! The records that the engine keeps: the auctions, the bids placed on each,
//! and the index from an asset to the auctions opened for it.

use crate::text::{
    asset_key, key_lt, lemma_asset_key_cancels, lemma_key_lt_asymmetric, lemma_key_lt_irreflexive,
    lemma_key_lt_total, lemma_key_lt_transitive, make_asset_key, str_eq, str_lt,
};
use crate::time::{BlockInfo, Expiration, Timestamp};
use std::collections::HashMap;
use vstd::prelude::*;

verus! {

/// The most bids or entries that one query hands out.
pub const MAX_LIMIT: u64 = 50;

/// How many a query hands out where the caller names no limit.
pub const DEFAULT_LIMIT: u64 = 10;

/// One accepted bid. A bid is never changed or removed once it is recorded.
#[derive(Debug, PartialEq)]
pub struct Bid {
    pub bidder: String,
    pub amount: u128,
    pub timestamp: Timestamp,
}

/// The value of a [`Bid`].
pub struct BidView {
    pub bidder: Seq<char>,
    pub amount: u128,
    pub timestamp: Timestamp,
}

impl View for Bid {
    type V = BidView;

    open spec fn view(&self) -> BidView {
        BidView { bidder: self.bidder@, amount: self.amount, timestamp: self.timestamp }
    }
}

impl Clone for Bid {
    fn clone(&self) -> (copy: Bid)
        ensures
            copy@ == self@,
    {
        Bid { bidder: self.bidder.clone(), amount: self.amount, timestamp: self.timestamp }
    }
}

/// The bids of a ledger as values.
pub open spec fn bids_view(bids: Seq<Bid>) -> Seq<BidView> {
    bids.map_values(|b: Bid| b@)
}

/// The order in which a query walks a bid ledger.
#[derive(Clone, Copy, Debug, PartialEq, Eq, Structural)]
pub enum OrderBy {
    Asc,
    Desc,
}

/// The auctions ever opened for one asset, oldest first.
#[derive(Debug, PartialEq)]
pub struct AuctionInfo {
    pub auction_ids: Vec<u128>,
    pub token_address: String,
    pub token_id: String,
}

/// The value of an [`AuctionInfo`].
pub struct AuctionInfoView {
    pub auction_ids: Seq<u128>,
    pub token_address: Seq<char>,
    pub token_id: Seq<char>,
}

impl View for AuctionInfo {
    type V = AuctionInfoView;

    open spec fn view(&self) -> AuctionInfoView {
        AuctionInfoView {
            auction_ids: self.auction_ids@,
            token_address: self.token_address@,
            token_id: self.token_id@,
        }
    }
}

impl Clone for AuctionInfo {
    fn clone(&self) -> (copy: AuctionInfo)
        ensures
            copy@ == self@,
    {
        let mut ids: Vec<u128> = Vec::new();
        let mut i: usize = 0;
        while i < self.auction_ids.len()
            invariant
                i <= self.auction_ids@.len(),
                ids@ == self.auction_ids@.take(i as int),
            decreases self.auction_ids@.len() - i,
        {
            ids.push(self.auction_ids[i]);
            assert(self.auction_ids@.take(i + 1) =~= self.auction_ids@.take(i as int).push(
                self.auction_ids@[i as int],
            ));
            i += 1;
        }
        assert(self.auction_ids@.take(i as int) =~= self.auction_ids@);
        AuctionInfo {
            auction_ids: ids,
            token_address: self.token_address.clone(),
            token_id: self.token_id.clone(),
        }
    }
}

impl Default for AuctionInfo {
    fn default() -> (info: AuctionInfo)
        ensures
            info@ == AuctionInfoView::empty(),
    {
        AuctionInfo { auction_ids: Vec::new(), token_address: String::new(), token_id: String::new() }
    }
}

impl AuctionInfoView {
    /// The entry of an asset before its first auction.
    pub open spec fn empty() -> AuctionInfoView {
        AuctionInfoView {
            auction_ids: Seq::empty(),
            token_address: Seq::empty(),
            token_id: Seq::empty(),
        }
    }

    /// What is said of the asset once one more auction is opened for it.
    pub open spec fn with_auction(self, id: u128) -> AuctionInfoView {
        AuctionInfoView { auction_ids: self.auction_ids.push(id), ..self }
    }
}

impl AuctionInfo {
    /// The auction opened last, if any was.
    pub fn latest(&self) -> (id: Option<&u128>)
        ensures
            match id {
                Some(id) => self@.auction_ids.len() > 0 && *id == self@.auction_ids.last(),
                None => self@.auction_ids.len() == 0,
            },
    {
        let n = self.auction_ids.len();
        if n == 0 {
            None
        } else {
            Some(&self.auction_ids[n - 1])
        }
    }

    /// Records one more auction as the latest.
    pub fn push(&mut self, e: u128)
        ensures
            final(self)@ == old(self)@.with_auction(e),
    {
        self.auction_ids.push(e)
    }
}

/// One auction: whose asset, in which currency, when, and who leads.
#[derive(Debug, PartialEq)]
pub struct TokenAuctionState {
    pub start_time: Expiration,
    pub end_time: Expiration,
    pub high_bidder_addr: String,
    pub high_bidder_amount: u128,
    pub coin_denom: String,
    pub auction_id: u128,
    pub min_bid: Option<u128>,
    pub owner: String,
    pub token_id: String,
    pub token_address: String,
    pub is_cancelled: bool,
}

/// The value of a [`TokenAuctionState`].
pub struct AuctionView {
    pub start_time: Expiration,
    pub end_time: Expiration,
    pub high_bidder_addr: Seq<char>,
    pub high_bidder_amount: u128,
    pub coin_denom: Seq<char>,
    pub auction_id: u128,
    pub min_bid: Option<u128>,
    pub owner: Seq<char>,
    pub token_id: Seq<char>,
    pub token_address: Seq<char>,
    pub is_cancelled: bool,
}

impl View for TokenAuctionState {
    type V = AuctionView;

    open spec fn view(&self) -> AuctionView {
        AuctionView {
            start_time: self.start_time,
            end_time: self.end_time,
            high_bidder_addr: self.high_bidder_addr@,
            high_bidder_amount: self.high_bidder_amount,
            coin_denom: self.coin_denom@,
            auction_id: self.auction_id,
            min_bid: self.min_bid,
            owner: self.owner@,
            token_id: self.token_id@,
            token_address: self.token_address@,
            is_cancelled: self.is_cancelled,
        }
    }
}

impl Clone for TokenAuctionState {
    fn clone(&self) -> (copy: TokenAuctionState)
        ensures
            copy@ == self@,
    {
        TokenAuctionState {
            start_time: self.start_time,
            end_time: self.end_time,
            high_bidder_addr: self.high_bidder_addr.clone(),
            high_bidder_amount: self.high_bidder_amount,
            coin_denom: self.coin_denom.clone(),
            auction_id: self.auction_id,
            min_bid: self.min_bid,
            owner: self.owner.clone(),
            token_id: self.token_id.clone(),
            token_address: self.token_address.clone(),
            is_cancelled: self.is_cancelled,
        }
    }
}

/// Where an auction stands in its life.
#[derive(Clone, Copy, Debug, PartialEq, Eq, Structural)]
pub enum AuctionPhase {
    /// The start is still ahead.
    Pending,
    /// The start is reached and the end is not: bids are taken.
    Open,
    /// The end is reached: the auction can be settled.
    Ended,
    /// The owner has called the auction off.
    Cancelled,
}

impl TokenAuctionState {
    /// Where the auction stands in `block`.
    pub fn phase(&self, block: &BlockInfo) -> (phase: AuctionPhase)
        ensures
            phase == self@.phase(*block),
    {
        if self.is_cancelled {
            AuctionPhase::Cancelled
        } else if self.end_time.is_expired(block) {
            AuctionPhase::Ended
        } else if self.start_time.is_expired(block) {
            AuctionPhase::Open
        } else {
            AuctionPhase::Pending
        }
    }
}

impl AuctionView {
    /// Where the auction stands in `block`: cancelled once it is called
    /// off, and else pending, open or ended by the block's clock.
    pub open spec fn phase(self, block: BlockInfo) -> AuctionPhase {
        if self.is_cancelled {
            AuctionPhase::Cancelled
        } else if self.end_time.reached(block) {
            AuctionPhase::Ended
        } else if self.start_time.reached(block) {
            AuctionPhase::Open
        } else {
            AuctionPhase::Pending
        }
    }

    /// Whether the auction is of the token `token_id` of the collection
    /// `token_address`.
    pub open spec fn of_asset(self, token_id: Seq<char>, token_address: Seq<char>) -> bool {
        self.token_id == token_id && self.token_address == token_address
    }

    /// Whether `ledger` can be the bids accepted on this auction: each bid
    /// is positive and higher than the one before, and the last one leads.
    pub open spec fn led_by(self, ledger: Seq<BidView>) -> bool {
        &&& forall|i: int| 0 <= i < ledger.len() ==> (#[trigger] ledger[i]).amount > 0
        &&& forall|i: int, j: int|
            0 <= i < j < ledger.len() ==> (#[trigger] ledger[i]).amount < (#[trigger] ledger[j]).amount
        &&& if ledger.len() == 0 {
            self.high_bidder_amount == 0 && self.high_bidder_addr.len() == 0
        } else {
            self.high_bidder_amount == ledger.last().amount && self.high_bidder_addr
                == ledger.last().bidder
        }
    }
}

/// One entry of the asset index: what is known of one asset, and the text
/// by which the index orders it.
#[derive(Clone, Debug, PartialEq)]
pub struct IndexEntry {
    pub key: String,
    pub info: AuctionInfo,
}

/// The value of an [`IndexEntry`].
pub struct IndexEntryView {
    pub key: Seq<char>,
    pub info: AuctionInfoView,
}

impl View for IndexEntry {
    type V = IndexEntryView;

    open spec fn view(&self) -> IndexEntryView {
        IndexEntryView { key: self.key@, info: self.info@ }
    }
}

impl IndexEntryView {
    /// Whether the entry is of the token `token_id` of the collection
    /// `token_address`.
    pub open spec fn of_asset(self, token_id: Seq<char>, token_address: Seq<char>) -> bool {
        self.info.token_id == token_id && self.info.token_address == token_address
    }

    /// Whether the entry stands before an asset with the joined text `key`
    /// and the token id `token_id`: its own text comes first, or the texts
    /// are one and its token id comes first.
    pub open spec fn before(self, key: Seq<char>, token_id: Seq<char>) -> bool {
        key_lt(self.key, key) || (self.key == key && key_lt(self.info.token_id, token_id))
    }
}

/// The entries of an index as values.
pub open spec fn index_view(entries: Seq<IndexEntry>) -> Seq<IndexEntryView> {
    entries.map_values(|e: IndexEntry| e@)
}

/// Whether an index is in order: each entry is filed under the joined names
/// of its asset, and each stands before all that follow, so that no asset
/// has two entries.
pub open spec fn index_sorted(entries: Seq<IndexEntryView>) -> bool {
    &&& forall|i: int|
        0 <= i < entries.len() ==> (#[trigger] entries[i]).key == asset_key(
            entries[i].info.token_id,
            entries[i].info.token_address,
        )
    &&& forall|i: int, j: int|
        0 <= i < j < entries.len() ==> (#[trigger] entries[i]).before(
            (#[trigger] entries[j]).key,
            entries[j].info.token_id,
        )
}

/// Whether the entry `i` of `entries` lists the auction `id` at its place
/// `k`.
pub open spec fn lists(entries: Seq<IndexEntryView>, i: int, k: int, id: u128) -> bool {
    entries[i].info.auction_ids[k] == id
}

/// Whether `p` is where an asset stands or would stand among `entries`:
/// every entry before `p` stands before the asset and none from `p` on does.
pub open spec fn is_slot(
    entries: Seq<IndexEntryView>,
    token_id: Seq<char>,
    token_address: Seq<char>,
    p: int,
) -> bool {
    &&& 0 <= p <= entries.len()
    &&& forall|i: int|
        0 <= i < p ==> (#[trigger] entries[i]).before(asset_key(token_id, token_address), token_id)
    &&& forall|i: int|
        p <= i < entries.len() ==> !(#[trigger] entries[i]).before(
            asset_key(token_id, token_address),
            token_id,
        )
}

/// Where an asset stands or would stand among `entries`.
pub open spec fn slot(
    entries: Seq<IndexEntryView>,
    token_id: Seq<char>,
    token_address: Seq<char>,
) -> int {
    choose|p: int| is_slot(entries, token_id, token_address, p)
}

/// Whether `entries` holds an entry for the token `token_id` of the
/// collection `token_address`.
pub open spec fn holds_asset(
    entries: Seq<IndexEntryView>,
    token_id: Seq<char>,
    token_address: Seq<char>,
) -> bool {
    exists|i: int|
        0 <= i < entries.len() && (#[trigger] entries[i]).of_asset(token_id, token_address)
}

/// Where the entry for an asset stands among `entries`, which hold one.
pub open spec fn position(
    entries: Seq<IndexEntryView>,
    token_id: Seq<char>,
    token_address: Seq<char>,
) -> int {
    choose|i: int|
        0 <= i < entries.len() && (#[trigger] entries[i]).of_asset(token_id, token_address)
}

/// What stands before an entry stands before all that the entry stands
/// before.
pub proof fn lemma_before_transitive(
    a: IndexEntryView,
    b: IndexEntryView,
    key: Seq<char>,
    token_id: Seq<char>,
)
    requires
        a.before(b.key, b.info.token_id),
        b.before(key, token_id),
    ensures
        a.before(key, token_id),
{
    lemma_key_lt_irreflexive(key);
    if key_lt(a.key, b.key) && key_lt(b.key, key) {
        lemma_key_lt_transitive(a.key, b.key, key);
    }
    if a.key == b.key && b.key == key {
        lemma_key_lt_transitive(a.info.token_id, b.info.token_id, token_id);
    }
}

/// Of two entries neither stands before the other, or one only; none
/// stands before itself.
pub proof fn lemma_before_asymmetric(a: IndexEntryView, b: IndexEntryView)
    ensures
        !a.before(a.key, a.info.token_id),
        a.before(b.key, b.info.token_id) ==> !b.before(a.key, a.info.token_id),
{
    lemma_key_lt_irreflexive(a.key);
    lemma_key_lt_irreflexive(a.info.token_id);
    if key_lt(a.key, b.key) {
        lemma_key_lt_asymmetric(a.key, b.key);
    }
    if key_lt(a.info.token_id, b.info.token_id) {
        lemma_key_lt_asymmetric(a.info.token_id, b.info.token_id);
    }
    if key_lt(b.key, a.key) {
        lemma_key_lt_asymmetric(b.key, a.key);
    }
}

/// An entry that is filed under the joined names of its asset stands before
/// another asset, or after it, or is of that asset.
pub proof fn lemma_before_total(e: IndexEntryView, token_id: Seq<char>, token_address: Seq<char>)
    requires
        e.key == asset_key(e.info.token_id, e.info.token_address),
    ensures
        e.before(asset_key(token_id, token_address), token_id) || e.of_asset(token_id, token_address)
            || key_lt(asset_key(token_id, token_address), e.key) || (e.key == asset_key(
            token_id,
            token_address,
        ) && key_lt(token_id, e.info.token_id)),
{
    let key = asset_key(token_id, token_address);
    lemma_key_lt_total(e.key, key);
    lemma_key_lt_total(e.info.token_id, token_id);
    if e.key == key && e.info.token_id == token_id {
        lemma_asset_key_cancels(token_id, e.info.token_address, token_address);
    }
}

/// There is one place at most where an asset stands or would stand.
pub proof fn lemma_slot_unique(
    entries: Seq<IndexEntryView>,
    token_id: Seq<char>,
    token_address: Seq<char>,
    p: int,
)
    requires
        is_slot(entries, token_id, token_address, p),
    ensures
        slot(entries, token_id, token_address) == p,
{
    let q = slot(entries, token_id, token_address);
    let key = asset_key(token_id, token_address);
    assert(is_slot(entries, token_id, token_address, q));
    if q < p {
        assert(entries[q].before(key, token_id));
    } else if p < q {
        assert(entries[p].before(key, token_id));
    }
}

/// An index in order has a place for every asset.
pub proof fn lemma_slot_exists(
    entries: Seq<IndexEntryView>,
    token_id: Seq<char>,
    token_address: Seq<char>,
)
    requires
        index_sorted(entries),
    ensures
        is_slot(entries, token_id, token_address, slot(entries, token_id, token_address)),
    decreases entries.len(),
{
    let key = asset_key(token_id, token_address);
    if entries.len() == 0 {
        assert(is_slot(entries, token_id, token_address, 0));
    } else {
        let front = entries.drop_last();
        let n = entries.len() - 1;
        assert(index_sorted(front)) by {
            assert forall|i: int| 0 <= i < front.len() implies (#[trigger] front[i]).key
                == asset_key(front[i].info.token_id, front[i].info.token_address) by {
                assert(front[i] == entries[i]);
            }
            assert forall|i: int, j: int| 0 <= i < j < front.len() implies (#[trigger] front[i]).before(
                (#[trigger] front[j]).key,
                front[j].info.token_id,
            ) by {
                assert(front[i] == entries[i] && front[j] == entries[j]);
            }
        }
        lemma_slot_exists(front, token_id, token_address);
        let q = slot(front, token_id, token_address);
        assert forall|i: int| 0 <= i < q implies (#[trigger] entries[i]).before(key, token_id) by {
            assert(entries[i] == front[i]);
        }
        if q < n {
            assert(!front[q].before(key, token_id));
            assert(front[q] == entries[q]);
            assert forall|i: int| q <= i < entries.len() implies !(#[trigger] entries[i]).before(
                key,
                token_id,
            ) by {
                if i < n {
                    assert(entries[i] == front[i]);
                } else if entries[i].before(key, token_id) {
                    assert(entries[q].before(entries[i].key, entries[i].info.token_id));
                    lemma_before_transitive(entries[q], entries[i], key, token_id);
                }
            }
            assert(is_slot(entries, token_id, token_address, q));
        } else if entries[n].before(key, token_id) {
            assert(is_slot(entries, token_id, token_address, n + 1));
        } else {
            assert(is_slot(entries, token_id, token_address, n));
        }
    }
}

/// In an index in order the entry for an asset is the only one of that
/// asset, and it stands at the asset's place.
pub proof fn lemma_position_unique(
    entries: Seq<IndexEntryView>,
    token_id: Seq<char>,
    token_address: Seq<char>,
    i: int,
)
    requires
        index_sorted(entries),
        0 <= i < entries.len(),
        entries[i].of_asset(token_id, token_address),
    ensures
        holds_asset(entries, token_id, token_address),
        position(entries, token_id, token_address) == i,
        slot(entries, token_id, token_address) == i,
{
    let q = position(entries, token_id, token_address);
    let key = asset_key(token_id, token_address);
    lemma_before_asymmetric(entries[i], entries[q]);
    if q < i {
        assert(entries[q].before(entries[i].key, entries[i].info.token_id));
    } else if i < q {
        assert(entries[i].before(entries[q].key, entries[q].info.token_id));
    }
    assert forall|k: int| 0 <= k < i implies (#[trigger] entries[k]).before(key, token_id) by {
        assert(entries[k].before(entries[i].key, entries[i].info.token_id));
    }
    assert forall|k: int| i <= k < entries.len() implies !(#[trigger] entries[k]).before(
        key,
        token_id,
    ) by {
        lemma_before_asymmetric(entries[i], entries[k]);
        if k != i {
            assert(entries[i].before(entries[k].key, entries[k].info.token_id));
        }
    }
    lemma_slot_unique(entries, token_id, token_address, i);
}

/// An entry for an asset that has none, put at the asset's place, leaves
/// the index in order.
pub proof fn lemma_filed_in_order(entries: Seq<IndexEntryView>, entry: IndexEntryView)
    requires
        index_sorted(entries),
        entry.key == asset_key(entry.info.token_id, entry.info.token_address),
        !holds_asset(entries, entry.info.token_id, entry.info.token_address),
    ensures
        index_sorted(
            entries.insert(slot(entries, entry.info.token_id, entry.info.token_address), entry),
        ),
{
    let token_id = entry.info.token_id;
    let token_address = entry.info.token_address;
    let p = slot(entries, token_id, token_address);
    let after = entries.insert(p, entry);
    lemma_slot_exists(entries, token_id, token_address);
    assert forall|i: int| 0 <= i < after.len() implies (#[trigger] after[i]).key == asset_key(
        after[i].info.token_id,
        after[i].info.token_address,
    ) by {
        if i < p {
            assert(after[i] == entries[i]);
        } else if i > p {
            assert(after[i] == entries[i - 1]);
        }
    }
    assert forall|i: int, j: int| 0 <= i < j < after.len() implies (#[trigger] after[i]).before(
        (#[trigger] after[j]).key,
        after[j].info.token_id,
    ) by {
        if j < p {
            assert(after[i] == entries[i] && after[j] == entries[j]);
        } else if j == p {
            assert(after[i] == entries[i]);
        } else if i == p {
            assert(after[j] == entries[j - 1]);
            assert(!entries[j - 1].before(entry.key, token_id));
            lemma_before_total(entries[j - 1], token_id, token_address);
        } else if i < p {
            assert(after[i] == entries[i] && after[j] == entries[j - 1]);
        } else {
            assert(after[i] == entries[i - 1] && after[j] == entries[j - 1]);
        }
    }
}

/// Tells whether an entry stands before an asset with the joined text `key`
/// and the token id `token_id`.
pub fn entry_before(entry: &IndexEntry, key: &str, token_id: &str) -> (before: bool)
    ensures
        before == entry@.before(key@, token_id@),
{
    if str_lt(entry.key.as_str(), key) {
        true
    } else if str_lt(key, entry.key.as_str()) {
        proof {
            lemma_key_lt_asymmetric(key@, entry@.key);
        }
        false
    } else {
        proof {
            lemma_key_lt_total(key@, entry@.key);
        }
        str_lt(entry.info.token_id.as_str(), token_id)
    }
}

/// Finds where an asset stands or would stand in an index in order, by
/// halving the range in which the place can lie.
pub fn find_slot(entries: &Vec<IndexEntry>, token_id: &str, token_address: &str) -> (p: usize)
    requires
        index_sorted(index_view(entries@)),
    ensures
        is_slot(index_view(entries@), token_id@, token_address@, p as int),
        p as int == slot(index_view(entries@), token_id@, token_address@),
        holds_asset(index_view(entries@), token_id@, token_address@) <==> (p < entries@.len()
            && entries@[p as int]@.of_asset(token_id@, token_address@)),
        holds_asset(index_view(entries@), token_id@, token_address@) ==> p as int == position(
            index_view(entries@),
            token_id@,
            token_address@,
        ),
{
    let ghost all = index_view(entries@);
    let key = make_asset_key(token_id, token_address);
    let mut low: usize = 0;
    let mut high: usize = entries.len();
    while low < high
        invariant
            all == index_view(entries@),
            index_sorted(all),
            key@ == asset_key(token_id@, token_address@),
            low <= high <= entries@.len(),
            forall|i: int| 0 <= i < low ==> (#[trigger] all[i]).before(key@, token_id@),
            forall|i: int| high <= i < all.len() ==> !(#[trigger] all[i]).before(key@, token_id@),
        decreases high - low,
    {
        let middle: usize = low + (high - low) / 2;
        assert(all[middle as int] == entries@[middle as int]@);
        if entry_before(&entries[middle], key.as_str(), token_id) {
            proof {
                assert forall|i: int| 0 <= i < middle + 1 implies (#[trigger] all[i]).before(
                    key@,
                    token_id@,
                ) by {
                    if i < middle {
                        assert(all[i].before(
                            all[middle as int].key,
                            all[middle as int].info.token_id,
                        ));
                        lemma_before_transitive(all[i], all[middle as int], key@, token_id@);
                    }
                }
            }
            low = middle + 1;
        } else {
            proof {
                assert forall|i: int| middle <= i < all.len() implies !(#[trigger] all[i]).before(
                    key@,
                    token_id@,
                ) by {
                    if i > middle && all[i].before(key@, token_id@) {
                        assert(all[middle as int].before(all[i].key, all[i].info.token_id));
                        lemma_before_transitive(all[middle as int], all[i], key@, token_id@);
                    }
                }
            }
            high = middle;
        }
    }
    proof {
        lemma_slot_unique(all, token_id@, token_address@, low as int);
        if holds_asset(all, token_id@, token_address@) {
            let i = position(all, token_id@, token_address@);
            lemma_position_unique(all, token_id@, token_address@, i);
        }
        if low < entries@.len() {
            assert(all[low as int] == entries@[low as int]@);
        }
    }
    low
}

/// Tells whether the entry at the place `p` of an index is of the token
/// `token_id` of the collection `token_address`.
pub fn holds_at(entries: &Vec<IndexEntry>, p: usize, token_id: &str, token_address: &str) -> (held:
    bool)
    ensures
        held == (p < entries@.len() && entries@[p as int]@.of_asset(token_id@, token_address@)),
{
    p < entries.len() && str_eq(entries[p].info.token_id.as_str(), token_id) && str_eq(
        entries[p].info.token_address.as_str(),
        token_address,
    )
}

/// Files what is known of an asset at the asset's place in an index in
/// order. Where the asset has an entry already, the index stays as it is
/// and the answer is `false`.
pub fn file_info(entries: &mut Vec<IndexEntry>, info: AuctionInfo) -> (filed: bool)
    requires
        index_sorted(index_view(old(entries)@)),
    ensures
        index_sorted(index_view(final(entries)@)),
        filed == !holds_asset(index_view(old(entries)@), info@.token_id, info@.token_address),
        filed ==> index_view(final(entries)@) == index_view(old(entries)@).insert(
            slot(index_view(old(entries)@), info@.token_id, info@.token_address),
            IndexEntryView { key: asset_key(info@.token_id, info@.token_address), info: info@ },
        ),
        !filed ==> index_view(final(entries)@) == index_view(old(entries)@),
{
    let ghost before = index_view(entries@);
    let p = find_slot(entries, info.token_id.as_str(), info.token_address.as_str());
    if holds_at(entries, p, info.token_id.as_str(), info.token_address.as_str()) {
        return false;
    }
    let entry = IndexEntry {
        key: make_asset_key(info.token_id.as_str(), info.token_address.as_str()),
        info,
    };
    proof {
        lemma_filed_in_order(before, entry@);
    }
    entries.insert(p, entry);
    assert(index_view(entries@) =~= before.insert(p as int, entry@));
    true
}

/// Everything the engine remembers.
#[derive(Clone, Debug, PartialEq)]
pub struct AuctionStore {
    /// The id that the next auction gets.
    pub next_auction_id: u128,
    /// Each auction under its id.
    pub auctions: HashMap<u128, TokenAuctionState>,
    /// The bids accepted on each auction, oldest first.
    pub bids: HashMap<u128, Vec<Bid>>,
    /// The asset index: one entry for each asset that ever had an auction,
    /// in the order of the joined names and, where those are one text, of
    /// the token ids.
    pub infos: Vec<IndexEntry>,
}

/// The value of an [`AuctionStore`]: what the contracts speak of.
pub struct StoreView {
    pub next_auction_id: u128,
    pub auctions: Map<u128, AuctionView>,
    pub bids: Map<u128, Seq<BidView>>,
    pub infos: Seq<IndexEntryView>,
}

impl View for AuctionStore {
    type V = StoreView;

    open spec fn view(&self) -> StoreView {
        StoreView {
            next_auction_id: self.next_auction_id,
            auctions: self.auctions@.map_values(|a: TokenAuctionState| a@),
            bids: self.bids@.map_values(|b: Vec<Bid>| bids_view(b@)),
            infos: index_view(self.infos@),
        }
    }
}

impl StoreView {
    /// The store before the first auction.
    pub open spec fn empty() -> StoreView {
        StoreView {
            next_auction_id: 1,
            auctions: Map::empty(),
            bids: Map::empty(),
            infos: Seq::empty(),
        }
    }

    /// Whether the index entry `e` fits the auctions: it lists at least
    /// one auction, its ids ascend, and each auction it lists exists and is
    /// of the entry's asset.
    pub open spec fn entry_ok(self, e: IndexEntryView) -> bool {
        &&& e.info.auction_ids.len() > 0
        &&& forall|k: int, l: int|
            0 <= k < l < e.info.auction_ids.len() ==> (#[trigger] e.info.auction_ids[k]) < (
            #[trigger] e.info.auction_ids[l])
        &&& forall|k: int|
            0 <= k < e.info.auction_ids.len() ==> {
                &&& self.auctions.contains_key(#[trigger] e.info.auction_ids[k])
                &&& self.auctions[e.info.auction_ids[k]].of_asset(
                    e.info.token_id,
                    e.info.token_address,
                )
            }
    }

    /// Whether the index lists the auction `id` in the entry of its asset.
    pub open spec fn indexed(self, id: u128) -> bool {
        exists|i: int, k: int|
            0 <= i < self.infos.len() && 0 <= k < self.infos[i].info.auction_ids.len()
                && self.infos[i].of_asset(self.auctions[id].token_id, self.auctions[id].token_address)
                && #[trigger] lists(self.infos, i, k, id)
    }

    /// Whether the auction `id` is sound: it carries its own id, it ends
    /// after it starts, and its bid ledger exists and agrees with its
    /// leading bid.
    pub open spec fn auction_ok(self, id: u128) -> bool {
        &&& self.bids.contains_key(id)
        &&& self.auctions[id].auction_id == id
        &&& self.auctions[id].end_time.later_than(self.auctions[id].start_time)
        &&& self.auctions[id].led_by(self.bids[id])
    }

    /// The validity of a store. The ids given out are those from one up to
    /// the next one; every auction is sound and listed in the index; every
    /// bid ledger belongs to an auction; the index is in order and each of
    /// its entries fits.
    pub open spec fn wf(self) -> bool {
        &&& self.next_auction_id >= 1
        &&& forall|id: u128| #[trigger]
            self.auctions.contains_key(id) <==> 1 <= id < self.next_auction_id
        &&& forall|id: u128| #[trigger] self.bids.contains_key(id) ==> self.auctions.contains_key(id)
        &&& forall|id: u128| self.auctions.contains_key(id) ==> #[trigger] self.auction_ok(id)
        &&& forall|id: u128| self.auctions.contains_key(id) ==> #[trigger] self.indexed(id)
        &&& index_sorted(self.infos)
        &&& forall|i: int| 0 <= i < self.infos.len() ==> self.entry_ok(#[trigger] self.infos[i])
    }

    /// Whether an auction was ever opened for the token `token_id` of the
    /// collection `token_address`.
    pub open spec fn has_auction(self, token_id: Seq<char>, token_address: Seq<char>) -> bool {
        exists|id: u128| #[trigger]
            self.auctions.contains_key(id) && self.auctions[id].of_asset(token_id, token_address)
    }

    /// Whether `id` is the newest auction of an asset: it is of that asset,
    /// and no auction of that asset has a greater id.
    pub open spec fn is_latest(self, id: u128, token_id: Seq<char>, token_address: Seq<char>) -> bool {
        &&& self.auctions.contains_key(id)
        &&& self.auctions[id].of_asset(token_id, token_address)
        &&& forall|other: u128| #[trigger]
            self.auctions.contains_key(other) && self.auctions[other].of_asset(
                token_id,
                token_address,
            ) ==> other <= id
    }

    /// The id of the newest auction of an asset that has one.
    pub open spec fn latest_id(self, token_id: Seq<char>, token_address: Seq<char>) -> u128 {
        choose|id: u128| self.is_latest(id, token_id, token_address)
    }

    /// The newest auction of an asset that has one.
    pub open spec fn latest_auction(self, token_id: Seq<char>, token_address: Seq<char>) -> AuctionView {
        self.auctions[self.latest_id(token_id, token_address)]
    }
}

impl AuctionStore {
    /// The validity of a store: that of its value.
    pub open spec fn wf(&self) -> bool {
        self@.wf()
    }

    /// A store without auctions, whose first auction gets the id one.
    pub fn new() -> (store: AuctionStore)
        ensures
            store@ == StoreView::empty(),
            store.wf(),
    {
        let store = AuctionStore {
            next_auction_id: 1,
            auctions: HashMap::new(),
            bids: HashMap::new(),
            infos: Vec::new(),
        };
        assert(store@.auctions =~= Map::empty());
        assert(store@.bids =~= Map::empty());
        assert(store@.infos =~= Seq::empty());
        store
    }
}

} // verus!

//! Testing whether a store is valid, for callers that did not build it with
//! the engine's operations alone.

use crate::state::{
    bids_view, entry_before, find_slot, holds_at, index_sorted, index_view,
    lemma_before_transitive, lemma_position_unique, lists, AuctionStore, Bid, BidView, IndexEntry,
    IndexEntryView, TokenAuctionState,
};
use crate::text::{asset_key, make_asset_key};
use vstd::prelude::*;
use vstd::set_lib::lemma_subset_equality;

verus! {

broadcast use vstd::std_specs::hash::group_hash_axioms;

/// The ids that a store whose next id is `next` has given out.
pub open spec fn id_range(next: u128) -> Set<u128> {
    Set::new(|id: u128| 1 <= id < next)
}

/// A store whose next id is `next` has given out `next - 1` ids.
pub proof fn lemma_id_range(next: u128)
    requires
        next >= 1,
    ensures
        id_range(next).finite(),
        id_range(next).len() == next - 1,
    decreases next,
{
    if next == 1 {
        assert(id_range(next) =~= Set::empty());
    } else {
        let below = (next - 1) as u128;
        lemma_id_range(below);
        assert(id_range(next) =~= id_range(below).insert(below));
    }
}

/// Whether each bid of `ledger` but the first is higher than the one before.
pub open spec fn rises_by_steps(ledger: Seq<BidView>) -> bool {
    forall|i: int| 0 < i < ledger.len() ==> ledger[i - 1].amount < (#[trigger] ledger[i]).amount
}

/// In a ledger that rises bid by bid, every bid is higher than all before it.
pub proof fn lemma_rises(ledger: Seq<BidView>, i: int, j: int)
    requires
        rises_by_steps(ledger),
        0 <= i < j < ledger.len(),
    ensures
        ledger[i].amount < ledger[j].amount,
    decreases j - i,
{
    assert(ledger[j - 1].amount < ledger[j].amount);
    if i < j - 1 {
        lemma_rises(ledger, i, j - 1);
    }
}

/// Whether each id of `ids` but the first is greater than the one before.
pub open spec fn counts_up_by_steps(ids: Seq<u128>) -> bool {
    forall|i: int| 0 < i < ids.len() ==> ids[i - 1] < #[trigger] ids[i]
}

/// In a list of ids that ascends id by id, every id is greater than all
/// before it.
pub proof fn lemma_counts_up(ids: Seq<u128>, i: int, j: int)
    requires
        counts_up_by_steps(ids),
        0 <= i < j < ids.len(),
    ensures
        ids[i] < ids[j],
    decreases j - i,
{
    assert(ids[j - 1] < ids[j]);
    if i < j - 1 {
        lemma_counts_up(ids, i, j - 1);
    }
}

/// Whether each entry of `entries` stands after the one before it.
pub open spec fn ascends_by_steps(entries: Seq<IndexEntryView>) -> bool {
    forall|i: int|
        0 < i < entries.len() ==> entries[i - 1].before(
            (#[trigger] entries[i]).key,
            entries[i].info.token_id,
        )
}

/// In an index that ascends entry by entry, every entry stands after all
/// before it.
pub proof fn lemma_ascends(entries: Seq<IndexEntryView>, i: int, j: int)
    requires
        ascends_by_steps(entries),
        0 <= i < j < entries.len(),
    ensures
        entries[i].before(entries[j].key, entries[j].info.token_id),
    decreases j - i,
{
    assert(entries[j - 1].before(entries[j].key, entries[j].info.token_id));
    if i < j - 1 {
        lemma_ascends(entries, i, j - 1);
        lemma_before_transitive(
            entries[i],
            entries[j - 1],
            entries[j].key,
            entries[j].info.token_id,
        );
    }
}

/// Tests whether `ledger` can be the bids accepted on `auction`.
pub fn ledger_leads(auction: &TokenAuctionState, ledger: &Vec<Bid>) -> (ok: bool)
    ensures
        ok == auction@.led_by(bids_view(ledger@)),
{
    let ghost all = bids_view(ledger@);
    let n = ledger.len();
    let mut i: usize = 0;
    while i < n
        invariant
            n == ledger@.len(),
            all == bids_view(ledger@),
            i <= n,
            forall|k: int| 0 <= k < i ==> (#[trigger] all[k]).amount > 0,
            forall|k: int| 0 < k < i ==> all[k - 1].amount < (#[trigger] all[k]).amount,
        decreases n - i,
    {
        assert(all[i as int] == ledger@[i as int]@);
        if ledger[i].amount == 0 {
            return false;
        }
        if i > 0 {
            assert(all[i - 1] == ledger@[i - 1]@);
            if !(ledger[i - 1].amount < ledger[i].amount) {
                assert(!(all[i - 1].amount < all[i as int].amount));
                return false;
            }
        }
        i += 1;
    }
    proof {
        assert(rises_by_steps(all));
        assert forall|a: int, b: int| 0 <= a < b < all.len() implies (#[trigger] all[a]).amount < (
        #[trigger] all[b]).amount by {
            lemma_rises(all, a, b);
        }
    }
    if n == 0 {
        auction.high_bidder_amount == 0 && auction.high_bidder_addr.as_str().is_empty()
    } else {
        assert(all.last() == ledger@[n - 1]@);
        auction.high_bidder_amount == ledger[n - 1].amount && auction.high_bidder_addr
            == ledger[n - 1].bidder
    }
}

/// Tests whether an index is in order.
pub fn index_ascends(entries: &Vec<IndexEntry>) -> (ok: bool)
    ensures
        ok == index_sorted(index_view(entries@)),
{
    let ghost all = index_view(entries@);
    let n = entries.len();
    let mut i: usize = 0;
    while i < n
        invariant
            n == entries@.len(),
            all == index_view(entries@),
            i <= n,
            forall|k: int|
                0 <= k < i ==> (#[trigger] all[k]).key == asset_key(
                    all[k].info.token_id,
                    all[k].info.token_address,
                ),
            forall|k: int|
                0 < k < i ==> all[k - 1].before((#[trigger] all[k]).key, all[k].info.token_id),
        decreases n - i,
    {
        assert(all[i as int] == entries@[i as int]@);
        let key = make_asset_key(
            entries[i].info.token_id.as_str(),
            entries[i].info.token_address.as_str(),
        );
        if entries[i].key != key {
            return false;
        }
        if i > 0 {
            assert(all[i - 1] == entries@[i - 1]@);
            if !entry_before(
                &entries[i - 1],
                entries[i].key.as_str(),
                entries[i].info.token_id.as_str(),
            ) {
                assert(!all[i - 1].before(all[i as int].key, all[i as int].info.token_id));
                return false;
            }
        }
        i += 1;
    }
    proof {
        assert(ascends_by_steps(all));
        assert forall|a: int, b: int| 0 <= a < b < all.len() implies (#[trigger] all[a]).before(
            (#[trigger] all[b]).key,
            all[b].info.token_id,
        ) by {
            lemma_ascends(all, a, b);
        }
    }
    true
}

impl AuctionStore {
    /// Tests whether the auction `id` is there and sound.
    pub fn auction_is_sound(&self, id: u128) -> (ok: bool)
        ensures
            ok == (self@.auctions.contains_key(id) && self@.auction_ok(id)),
    {
        match self.auctions.get(&id) {
            None => false,
            Some(auction) => match self.bids.get(&id) {
                None => false,
                Some(ledger) => auction.auction_id == id && auction.end_time.gt(
                    &auction.start_time,
                ) && ledger_leads(auction, ledger),
            },
        }
    }

    /// Tests whether an index entry fits the auctions.
    pub fn entry_fits(&self, entry: &IndexEntry) -> (ok: bool)
        ensures
            ok == self@.entry_ok(entry@),
    {
        let n = entry.info.auction_ids.len();
        if n == 0 {
            return false;
        }
        let ghost ids = entry@.info.auction_ids;
        let mut k: usize = 0;
        while k < n
            invariant
                n == entry.info.auction_ids@.len(),
                ids == entry@.info.auction_ids,
                k <= n,
                forall|j: int| 0 < j < k ==> ids[j - 1] < #[trigger] ids[j],
                forall|j: int|
                    0 <= j < k ==> {
                        &&& self@.auctions.contains_key(#[trigger] entry@.info.auction_ids[j])
                        &&& self@.auctions[entry@.info.auction_ids[j]].of_asset(
                            entry@.info.token_id,
                            entry@.info.token_address,
                        )
                    },
            decreases n - k,
        {
            let id: u128 = entry.info.auction_ids[k];
            assert(id == entry@.info.auction_ids[k as int]);
            if k > 0 && !(entry.info.auction_ids[k - 1] < id) {
                assert(!(ids[k - 1] < ids[k as int]));
                return false;
            }
            match self.auctions.get(&id) {
                None => {
                    return false;
                },
                Some(auction) => {
                    if auction.token_id != entry.info.token_id || auction.token_address
                        != entry.info.token_address {
                        return false;
                    }
                },
            }
            k += 1;
        }
        proof {
            assert(counts_up_by_steps(ids));
            assert forall|a: int, b: int| 0 <= a < b < ids.len() implies (#[trigger] ids[a]) < (
            #[trigger] ids[b]) by {
                lemma_counts_up(ids, a, b);
            }
        }
        true
    }

    /// Tests whether the index, which is in order, lists the auction `id`
    /// in the entry of its asset.
    pub fn lists_auction(&self, id: u128, auction: &TokenAuctionState) -> (ok: bool)
        requires
            index_sorted(self@.infos),
            self@.auctions.contains_key(id),
            auction@ == self@.auctions[id],
        ensures
            ok == self@.indexed(id),
    {
        let ghost entries = self@.infos;
        let ghost token = auction@.token_id;
        let ghost collection = auction@.token_address;
        let p = find_slot(&self.infos, auction.token_id.as_str(), auction.token_address.as_str());
        if !holds_at(&self.infos, p, auction.token_id.as_str(), auction.token_address.as_str()) {
            assert(!self@.indexed(id)) by {
                if self@.indexed(id) {
                    let (i, j) = choose|i: int, j: int|
                        0 <= i < entries.len() && 0 <= j < entries[i].info.auction_ids.len()
                            && entries[i].of_asset(token, collection) && #[trigger] lists(
                            entries,
                            i,
                            j,
                            id,
                        );
                    lemma_position_unique(entries, token, collection, i);
                }
            }
            return false;
        }
        assert(entries[p as int] == self.infos@[p as int]@);
        proof {
            lemma_position_unique(entries, token, collection, p as int);
        }
        let ids = &self.infos[p].info.auction_ids;
        let mut k: usize = 0;
        while k < ids.len()
            invariant
                entries == self@.infos,
                p < entries.len(),
                ids@ == entries[p as int].info.auction_ids,
                entries[p as int].of_asset(
                    self@.auctions[id].token_id,
                    self@.auctions[id].token_address,
                ),
                k <= ids@.len(),
                forall|j: int| 0 <= j < k ==> ids@[j] != id,
            decreases ids@.len() - k,
        {
            if ids[k] == id {
                assert(lists(entries, p as int, k as int, id));
                return true;
            }
            k += 1;
        }
        proof {
            if self@.indexed(id) {
                let (i, j) = choose|i: int, j: int|
                    0 <= i < entries.len() && 0 <= j < entries[i].info.auction_ids.len()
                        && entries[i].of_asset(token, collection) && #[trigger] lists(
                        entries,
                        i,
                        j,
                        id,
                    );
                lemma_position_unique(entries, token, collection, i);
                assert(ids@[j] == id);
            }
        }
        false
    }

    /// Tests whether the store is valid. Every operation of the engine asks
    /// for a valid store and leaves one; a store that was put together in
    /// another way is tested with this.
    pub fn is_valid(&self) -> (ok: bool)
        ensures
            ok == self.wf(),
    {
        if self.next_auction_id == 0 {
            return false;
        }
        let next: u128 = self.next_auction_id;
        let count: u128 = next - 1;
        let ghost s = self@;
        proof {
            lemma_id_range(next);
            assert(s.auctions.dom() =~= self.auctions@.dom());
            assert(s.bids.dom() =~= self.bids@.dom());
            if s.wf() {
                assert(s.auctions.dom() =~= id_range(next));
                assert forall|id: u128| s.auctions.contains_key(id) implies s.bids.contains_key(
                    id,
                ) by {
                    assert(s.auction_ok(id));
                }
                assert(s.bids.dom() =~= id_range(next));
            }
        }
        if self.auctions.len() as u128 != count || self.bids.len() as u128 != count {
            return false;
        }
        if !index_ascends(&self.infos) {
            return false;
        }
        let mut id: u128 = 1;
        while id < next
            invariant
                s == self@,
                next == self.next_auction_id,
                index_sorted(s.infos),
                1 <= id <= next,
                forall|j: u128|
                    1 <= j < id ==> #[trigger] s.auctions.contains_key(j) && s.auction_ok(j)
                        && s.indexed(j),
            decreases next - id,
        {
            if !self.auction_is_sound(id) {
                return false;
            }
            match self.auctions.get(&id) {
                None => {
                    return false;
                },
                Some(auction) => {
                    if !self.lists_auction(id, auction) {
                        return false;
                    }
                },
            }
            id += 1;
        }
        proof {
            assert(id_range(next).subset_of(s.auctions.dom()));
            lemma_subset_equality(id_range(next), s.auctions.dom());
            assert forall|j: u128| id_range(next).contains(j) implies s.bids.dom().contains(j) by {
                assert(s.auctions.contains_key(j) && s.auction_ok(j));
            }
            assert(id_range(next).subset_of(s.bids.dom()));
            lemma_subset_equality(id_range(next), s.bids.dom());
            assert forall|j: u128| #[trigger] s.auctions.contains_key(j) <==> 1 <= j < next by {
                assert(id_range(next).contains(j) <==> 1 <= j < next);
            }
            assert forall|j: u128| #[trigger] s.bids.contains_key(j) implies s.auctions.contains_key(
                j,
            ) by {
                assert(id_range(next).contains(j));
            }
        }
        let n = self.infos.len();
        let mut i: usize = 0;
        while i < n
            invariant
                s == self@,
                n == self.infos@.len(),
                i <= n,
                forall|j: int| 0 <= j < i ==> s.entry_ok(#[trigger] s.infos[j]),
            decreases n - i,
        {
            assert(s.infos[i as int] == self.infos@[i as int]@);
            if !self.entry_fits(&self.infos[i]) {
                return false;
            }
            i += 1;
        }
        true
    }
}

} // verus!

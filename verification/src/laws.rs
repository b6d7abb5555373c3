//! What holds of the engine over all stores and calls.

use crate::error::ErrorView;
use crate::model::{
    auction_cancelled, auction_opened, bid_placed, cancel_outcome, claim_outcome, execute_outcome,
    lemma_auction_cancelled_wf, lemma_auction_opened_wf, lemma_bid_placed_wf,
    lemma_indexed_assets, lemma_latest_auction, new_auction, place_bid_error, place_bid_outcome,
    place_bid_response, start_auction_error, start_auction_outcome, start_auction_response,
};
use crate::msg::{Cw721CustomMsg, ExecuteMsg};
use crate::query::{listing, page_limit, page_of};
use crate::response::{Env, InstructionView, MessageInfoView};
use crate::state::{
    holds_asset, index_sorted, lemma_position_unique, lemma_slot_exists, position, slot,
    AuctionInfoView, AuctionPhase, BidView, IndexEntryView, OrderBy, StoreView,
};
use crate::text::asset_key;
use crate::time::BlockInfo;
use vstd::prelude::*;

verus! {

/// One call of the engine: where and when, by whom, and for what.
pub struct Call {
    pub env: Env,
    pub info: MessageInfoView,
    pub msg: ExecuteMsg,
}

/// The store after one call: as the operation leaves it, or unchanged where
/// the operation is refused.
pub open spec fn step(s: StoreView, call: Call) -> StoreView {
    match execute_outcome(s, call.env, call.info, call.msg) {
        Ok((after, _)) => after,
        Err(_) => s,
    }
}

/// The store after a sequence of calls.
pub open spec fn run(s: StoreView, calls: Seq<Call>) -> StoreView
    decreases calls.len(),
{
    if calls.len() == 0 {
        s
    } else {
        step(run(s, calls.drop_last()), calls.last())
    }
}

/// Whether `call` opens an auction on the store `s`.
pub open spec fn opens(s: StoreView, call: Call) -> bool {
    call.msg is ReceiveNft && execute_outcome(s, call.env, call.info, call.msg) is Ok
}

/// How many of `calls`, made one after the other from the store `s`, open
/// an auction.
pub open spec fn opened_count(s: StoreView, calls: Seq<Call>) -> nat
    decreases calls.len(),
{
    if calls.len() == 0 {
        0
    } else {
        let before = opened_count(s, calls.drop_last());
        if opens(run(s, calls.drop_last()), calls.last()) {
            before + 1
        } else {
            before
        }
    }
}

/// Whether `call` places a bid that the auction `id` of the store `s`
/// accepts.
pub open spec fn bids_on(s: StoreView, call: Call, id: u128) -> bool {
    call.msg matches ExecuteMsg::PlaceBid { token_id, token_address } && execute_outcome(
        s,
        call.env,
        call.info,
        call.msg,
    ) is Ok && s.latest_auction(token_id@, token_address@).auction_id == id
}

/// How many of `calls`, made one after the other from the store `s`, place
/// a bid that the auction `id` accepts.
pub open spec fn accepted_bids(s: StoreView, calls: Seq<Call>, id: u128) -> nat
    decreases calls.len(),
{
    if calls.len() == 0 {
        0
    } else {
        let before = accepted_bids(s, calls.drop_last(), id);
        if bids_on(run(s, calls.drop_last()), calls.last(), id) {
            before + 1
        } else {
            before
        }
    }
}

/// Every operation leaves a valid store valid.
pub proof fn law_step_keeps_validity(s: StoreView, call: Call)
    requires
        s.wf(),
    ensures
        step(s, call).wf(),
{
    match call.msg {
        ExecuteMsg::ReceiveNft(notice) => {
            match notice.msg {
                Cw721CustomMsg::StartAuction { start_time, duration, coin_denom, min_bid } => {
                    if start_auction_error(s, call.env.block, start_time, duration) is None {
                        lemma_auction_opened_wf(
                            s,
                            call.env.block,
                            notice.sender@,
                            notice.token_id@,
                            call.info.sender,
                            start_time,
                            duration,
                            coin_denom@,
                            min_bid,
                        );
                    }
                },
            }
        },
        ExecuteMsg::PlaceBid { token_id, token_address } => {
            if place_bid_error(s, call.env.block, call.info, token_id@, token_address@) is None {
                lemma_bid_placed_wf(s, call.env.block, call.info, token_id@, token_address@);
            }
        },
        ExecuteMsg::CancelAuction { token_id, token_address } => {
            if s.has_auction(token_id@, token_address@) {
                lemma_auction_cancelled_wf(s, token_id@, token_address@);
            }
        },
        ExecuteMsg::Claim { .. } => {},
    }
}

/// Every store that calls lead to from the empty one is valid: its auctions
/// carry the ids from one up to the next id, each ends after it starts, and
/// each leads with the last bid of its ledger.
pub proof fn law_reachable_stores_are_valid(calls: Seq<Call>)
    ensures
        run(StoreView::empty(), calls).wf(),
    decreases calls.len(),
{
    if calls.len() > 0 {
        law_reachable_stores_are_valid(calls.drop_last());
        law_step_keeps_validity(run(StoreView::empty(), calls.drop_last()), calls.last());
    }
}

/// An auction that is opened gets the id that was next, which no auction
/// had before, and the next id is one more. No other operation moves the
/// next id.
pub proof fn law_opening_counts_up(s: StoreView, call: Call)
    requires
        s.wf(),
    ensures
        opens(s, call) ==> {
            &&& step(s, call).next_auction_id == s.next_auction_id + 1
            &&& !s.auctions.contains_key(s.next_auction_id)
            &&& step(s, call).auctions.contains_key(s.next_auction_id)
            &&& step(s, call).auctions[s.next_auction_id].auction_id == s.next_auction_id
        },
        !opens(s, call) ==> step(s, call).next_auction_id == s.next_auction_id,
{
}

/// From the empty store the auction ids are given out as one, two, three
/// and so on: after any calls the next id is one more than the number of
/// auctions opened, and the auctions there are carry exactly the ids below
/// it.
pub proof fn law_auction_ids_from_one(calls: Seq<Call>)
    ensures
        run(StoreView::empty(), calls).next_auction_id == 1 + opened_count(
            StoreView::empty(),
            calls,
        ),
        forall|id: u128|
            run(StoreView::empty(), calls).auctions.contains_key(id) <==> 1 <= id <= opened_count(
                StoreView::empty(),
                calls,
            ),
    decreases calls.len(),
{
    law_reachable_stores_are_valid(calls);
    if calls.len() > 0 {
        law_auction_ids_from_one(calls.drop_last());
        law_reachable_stores_are_valid(calls.drop_last());
        law_opening_counts_up(run(StoreView::empty(), calls.drop_last()), calls.last());
    }
}

/// Every auction of a valid store ends strictly after it starts.
pub proof fn law_end_after_start(s: StoreView, id: u128)
    requires
        s.wf(),
        s.auctions.contains_key(id),
    ensures
        s.auctions[id].end_time.later_than(s.auctions[id].start_time),
{
    assert(s.auction_ok(id));
}

/// An auction without a start or without a duration is refused, and so is
/// one that ends beyond the range of instants; by the contract of every
/// operation a refusal changes nothing.
pub proof fn law_empty_window_refused(
    s: StoreView,
    block: BlockInfo,
    sender: Seq<char>,
    token_id: Seq<char>,
    token_address: Seq<char>,
    start_time: u64,
    duration: u64,
    coin_denom: Seq<char>,
    min_bid: Option<u128>,
)
    requires
        start_time == 0 || duration == 0 || start_time + duration > u64::MAX / 1_000_000,
    ensures
        start_auction_outcome(
            s,
            block,
            sender,
            token_id,
            token_address,
            start_time,
            duration,
            coin_denom,
            min_bid,
        ) == Err::<(StoreView, crate::response::ResponseView), ErrorView>(
            ErrorView::InvalidExpiration,
        ),
{
}

/// In a valid store an auction leads with the last bid of its ledger, by
/// that bid's bidder, and with nothing where the ledger is empty; the bids
/// of a ledger rise strictly.
pub proof fn law_leading_bid_is_last_bid(s: StoreView, id: u128)
    requires
        s.wf(),
        s.auctions.contains_key(id),
    ensures
        s.bids.contains_key(id),
        s.bids[id].len() == 0 ==> s.auctions[id].high_bidder_amount == 0,
        s.bids[id].len() > 0 ==> s.auctions[id].high_bidder_amount == s.bids[id].last().amount
            && s.auctions[id].high_bidder_addr == s.bids[id].last().bidder,
        forall|i: int, j: int|
            0 <= i < j < s.bids[id].len() ==> (#[trigger] s.bids[id][i]).amount < (
            #[trigger] s.bids[id][j]).amount,
{
    assert(s.auction_ok(id));
}

/// A bid that is accepted is higher than the one that led, leads itself
/// afterwards, and stands last in the ledger, which is one bid longer and
/// otherwise as it was.
pub proof fn law_accepted_bid_leads(
    s: StoreView,
    block: BlockInfo,
    info: MessageInfoView,
    token_id: Seq<char>,
    token_address: Seq<char>,
)
    requires
        s.wf(),
        place_bid_outcome(s, block, info, token_id, token_address) is Ok,
    ensures
        ({
            let id = s.latest_auction(token_id, token_address).auction_id;
            let after = bid_placed(s, block, info, token_id, token_address);
            &&& s.auctions.contains_key(id)
            &&& s.auctions[id].high_bidder_amount < after.auctions[id].high_bidder_amount
            &&& after.auctions[id].high_bidder_amount == info.funds[0].amount
            &&& after.auctions[id].high_bidder_addr == info.sender
            &&& after.bids[id].len() == s.bids[id].len() + 1
            &&& after.bids[id].drop_last() == s.bids[id]
            &&& after.bids[id].last() == (BidView {
                bidder: info.sender,
                amount: info.funds[0].amount,
                timestamp: block.time,
            })
        }),
{
    let id = s.latest_auction(token_id, token_address).auction_id;
    let after = bid_placed(s, block, info, token_id, token_address);
    lemma_latest_auction(s, token_id, token_address);
    assert(after.bids[id].drop_last() =~= s.bids[id]);
}

/// No operation lowers the leading bid of an auction or takes a bid out of
/// its ledger: the ledger before a call is the beginning of the ledger
/// after it, one bid longer where the call is a bid that the auction
/// accepts, and as long as before otherwise.
pub proof fn law_step_keeps_bids(s: StoreView, call: Call, id: u128)
    requires
        s.wf(),
        s.auctions.contains_key(id),
    ensures
        step(s, call).auctions.contains_key(id),
        step(s, call).bids.contains_key(id),
        s.auctions[id].high_bidder_amount <= step(s, call).auctions[id].high_bidder_amount,
        step(s, call).bids[id].take(s.bids[id].len() as int) == s.bids[id],
        step(s, call).bids[id].len() == s.bids[id].len() + (if bids_on(s, call, id) {
            1int
        } else {
            0int
        }),
{
    assert(s.auction_ok(id));
    let t = step(s, call);
    match call.msg {
        ExecuteMsg::ReceiveNft(notice) => {
            match notice.msg {
                Cw721CustomMsg::StartAuction { start_time, duration, coin_denom, min_bid } => {},
            }
        },
        ExecuteMsg::PlaceBid { token_id, token_address } => {
            if s.has_auction(token_id@, token_address@) {
                lemma_latest_auction(s, token_id@, token_address@);
            }
        },
        ExecuteMsg::CancelAuction { token_id, token_address } => {
            if s.has_auction(token_id@, token_address@) {
                lemma_latest_auction(s, token_id@, token_address@);
            }
        },
        ExecuteMsg::Claim { .. } => {},
    }
    assert(t.bids[id].take(s.bids[id].len() as int) =~= s.bids[id]);
}

/// After any calls on a valid store, the ledger of an auction that was
/// there has grown by as many bids as the auction has accepted, and the
/// auction leads with at least what it led with.
pub proof fn law_ledger_counts_accepted_bids(s: StoreView, calls: Seq<Call>, id: u128)
    requires
        s.wf(),
        s.auctions.contains_key(id),
    ensures
        run(s, calls).wf(),
        run(s, calls).auctions.contains_key(id),
        run(s, calls).bids.contains_key(id),
        run(s, calls).bids[id].len() == s.bids[id].len() + accepted_bids(s, calls, id),
        s.auctions[id].high_bidder_amount <= run(s, calls).auctions[id].high_bidder_amount,
    decreases calls.len(),
{
    assert(s.auction_ok(id));
    if calls.len() > 0 {
        law_ledger_counts_accepted_bids(s, calls.drop_last(), id);
        law_step_keeps_validity(run(s, calls.drop_last()), calls.last());
        law_step_keeps_bids(run(s, calls.drop_last()), calls.last(), id);
    }
}

/// A bid that is accepted asks for one refund at most: none where nobody
/// led, and else the amount that led, in the auction's currency, to the
/// bidder who led, who is the bidder of the ledger's last bid.
pub proof fn law_one_refund_to_outbid_bidder(
    s: StoreView,
    block: BlockInfo,
    info: MessageInfoView,
    token_id: Seq<char>,
    token_address: Seq<char>,
)
    requires
        s.wf(),
        place_bid_outcome(s, block, info, token_id, token_address) is Ok,
    ensures
        ({
            let a = s.latest_auction(token_id, token_address);
            let messages = place_bid_response(a, info, token_id).messages;
            &&& messages.len() <= 1
            &&& s.bids[a.auction_id].len() == 0 ==> messages.len() == 0
            &&& s.bids[a.auction_id].len() > 0 ==> messages == seq![
                InstructionView::TransferCurrency {
                    to: s.bids[a.auction_id].last().bidder,
                    denom: a.coin_denom,
                    amount: s.bids[a.auction_id].last().amount,
                },
            ]
        }),
{
    lemma_latest_auction(s, token_id, token_address);
    let a = s.latest_auction(token_id, token_address);
    let ledger = s.bids[a.auction_id];
    if ledger.len() > 0 {
        assert(ledger[ledger.len() - 1].amount > 0);
    }
}

/// An ascending page that resumes after the position `k` and takes at least
/// one bid begins with the bid at the position `k + 1`, or is empty where
/// the ledger has no such position; it is never longer than asked for, nor
/// than fifty.
pub proof fn law_ascending_page(bids: Seq<BidView>, k: u64, n: u64, order_by: Option<OrderBy>)
    requires
        order_by != Some(OrderBy::Desc),
    ensures
        ({
            let page = page_of(bids, Some(k), Some(n), order_by);
            &&& page.len() <= n
            &&& page.len() <= 50
            &&& k + 1 >= bids.len() ==> page.len() == 0
            &&& k + 1 < bids.len() && n > 0 ==> page.len() > 0 && page[0] == bids[k + 1]
        }),
{
}

/// A descending page without a cursor whose limit covers the ledger is the
/// whole ledger, newest bid first. A limit covers no more than fifty bids.
pub proof fn law_descending_page_is_reversed_ledger(bids: Seq<BidView>, limit: Option<u64>)
    requires
        page_limit(limit) >= bids.len(),
    ensures
        page_of(bids, None, limit, Some(OrderBy::Desc)) == bids.reverse(),
{
    assert(bids.subrange(0, bids.len() as int) =~= bids);
}

/// The auction that a lookup finds for a token is of exactly that token
/// and collection, stands under the id it carries, and is the newest of
/// them: no auction of that token and collection has a greater id.
pub proof fn law_latest_is_newest(
    s: StoreView,
    token_id: Seq<char>,
    token_address: Seq<char>,
    id: u128,
)
    requires
        s.wf(),
        s.auctions.contains_key(id),
        s.auctions[id].of_asset(token_id, token_address),
    ensures
        s.has_auction(token_id, token_address),
        s.latest_auction(token_id, token_address).of_asset(token_id, token_address),
        s.auctions[s.latest_auction(token_id, token_address).auction_id] == s.latest_auction(
            token_id,
            token_address,
        ),
        id <= s.latest_auction(token_id, token_address).auction_id,
{
    lemma_latest_auction(s, token_id, token_address);
}

/// Whether `call` opens an auction on the store `s` for the token
/// `token_id` of the collection `token_address`: it is the notice of that
/// token's deposit, sent by that collection, and it is not refused.
pub open spec fn opens_for(
    s: StoreView,
    call: Call,
    token_id: Seq<char>,
    token_address: Seq<char>,
) -> bool {
    &&& opens(s, call)
    &&& call.info.sender == token_address
    &&& call.msg matches ExecuteMsg::ReceiveNft(notice)
    &&& notice.token_id@ == token_id
}

/// A token has an auction after a call exactly when it had one before, or
/// the call has opened one for exactly this token of exactly this
/// collection.
pub proof fn law_only_opening_gives_an_auction(
    s: StoreView,
    call: Call,
    token_id: Seq<char>,
    token_address: Seq<char>,
)
    requires
        s.wf(),
    ensures
        step(s, call).has_auction(token_id, token_address) <==> s.has_auction(
            token_id,
            token_address,
        ) || opens_for(s, call, token_id, token_address),
{
    let t = step(s, call);
    law_step_keeps_validity(s, call);
    match call.msg {
        ExecuteMsg::ReceiveNft(notice) => {
            match notice.msg {
                Cw721CustomMsg::StartAuction { start_time, duration, coin_denom, min_bid } => {
                    if opens(s, call) {
                        assert(t.auctions.contains_key(s.next_auction_id));
                    }
                },
            }
        },
        ExecuteMsg::PlaceBid { token_id: bid_on, token_address: bid_at } => {
            if s.has_auction(bid_on@, bid_at@) {
                lemma_latest_auction(s, bid_on@, bid_at@);
            }
        },
        ExecuteMsg::CancelAuction { token_id: called_off, token_address: called_at } => {
            if s.has_auction(called_off@, called_at@) {
                lemma_latest_auction(s, called_off@, called_at@);
            }
        },
        ExecuteMsg::Claim { .. } => {},
    }
    if s.has_auction(token_id, token_address) {
        let id = choose|id: u128| #[trigger]
            s.auctions.contains_key(id) && s.auctions[id].of_asset(token_id, token_address);
        assert(t.auctions.contains_key(id) && t.auctions[id].of_asset(token_id, token_address));
    }
    if t.has_auction(token_id, token_address) && !opens_for(s, call, token_id, token_address) {
        let id = choose|id: u128| #[trigger]
            t.auctions.contains_key(id) && t.auctions[id].of_asset(token_id, token_address);
        assert(s.auctions.contains_key(id) && s.auctions[id].of_asset(token_id, token_address));
    }
}

/// No token has an auction in the empty store, so that, after any calls
/// from it, a token has one exactly when one of the calls has opened one for
/// exactly this token of exactly this collection.
pub proof fn law_no_auction_before_the_first(token_id: Seq<char>, token_address: Seq<char>)
    ensures
        !StoreView::empty().has_auction(token_id, token_address),
{
}

/// Two tokens are told apart though their joined names are one text: an
/// auction opened for one of them is none of the other's.
pub proof fn law_assets_with_one_text_are_apart(
    s: StoreView,
    token_id: Seq<char>,
    token_address: Seq<char>,
    other_id: Seq<char>,
    other_address: Seq<char>,
    id: u128,
)
    requires
        s.wf(),
        s.auctions.contains_key(id),
        s.auctions[id].of_asset(token_id, token_address),
        token_id != other_id || token_address != other_address,
    ensures
        !s.auctions[id].of_asset(other_id, other_address),
        s.has_auction(other_id, other_address) ==> s.latest_auction(other_id, other_address).auction_id
            != id,
        holds_asset(s.infos, other_id, other_address) ==> position(
            s.infos,
            other_id,
            other_address,
        ) != position(s.infos, token_id, token_address),
{
    lemma_latest_auction(s, token_id, token_address);
    if s.has_auction(other_id, other_address) {
        lemma_latest_auction(s, other_id, other_address);
    }
}

/// After an auction is opened for a token, the token's index entry names
/// that token and collection and lists the new auction last, after those it
/// listed before; the new auction is the token's newest, with an empty bid
/// ledger; every other auction and ledger is as it was; and nothing is
/// transferred.
pub proof fn law_open_files_under_the_asset(
    s: StoreView,
    block: BlockInfo,
    sender: Seq<char>,
    token_id: Seq<char>,
    token_address: Seq<char>,
    start_time: u64,
    duration: u64,
    coin_denom: Seq<char>,
    min_bid: Option<u128>,
)
    requires
        s.wf(),
        start_auction_error(s, block, start_time, duration) is None,
    ensures
        ({
            let t = auction_opened(
                s,
                sender,
                token_id,
                token_address,
                start_time,
                duration,
                coin_denom,
                min_bid,
            );
            let n = s.next_auction_id;
            let listed_before = if holds_asset(s.infos, token_id, token_address) {
                s.infos[position(s.infos, token_id, token_address)].info.auction_ids
            } else {
                Seq::empty()
            };
            &&& holds_asset(t.infos, token_id, token_address)
            &&& t.infos[position(t.infos, token_id, token_address)].info == (AuctionInfoView {
                auction_ids: listed_before.push(n),
                token_address,
                token_id,
            })
            &&& t.has_auction(token_id, token_address)
            &&& t.latest_auction(token_id, token_address) == new_auction(
                n,
                sender,
                token_id,
                token_address,
                start_time,
                duration,
                coin_denom,
                min_bid,
            )
            &&& t.bids[n] == Seq::<BidView>::empty()
            &&& forall|id: u128| #[trigger]
                s.auctions.contains_key(id) ==> t.auctions[id] == s.auctions[id] && t.bids[id]
                    == s.bids[id]
            &&& start_auction_response(n, start_time, duration, coin_denom).messages.len() == 0
        }),
{
    let t = auction_opened(
        s,
        sender,
        token_id,
        token_address,
        start_time,
        duration,
        coin_denom,
        min_bid,
    );
    let n = s.next_auction_id;
    lemma_auction_opened_wf(
        s,
        block,
        sender,
        token_id,
        token_address,
        start_time,
        duration,
        coin_denom,
        min_bid,
    );
    lemma_slot_exists(s.infos, token_id, token_address);
    let p = if holds_asset(s.infos, token_id, token_address) {
        position(s.infos, token_id, token_address)
    } else {
        slot(s.infos, token_id, token_address)
    };
    assert(t.infos[p].of_asset(token_id, token_address));
    lemma_position_unique(t.infos, token_id, token_address, p);
    assert(t.auctions.contains_key(n) && t.auctions[n].of_asset(token_id, token_address));
    lemma_latest_auction(t, token_id, token_address);
    if !holds_asset(s.infos, token_id, token_address) {
        assert(t.infos[p].info.auction_ids =~= Seq::<u128>::empty().push(n));
    }
    assert forall|id: u128| #[trigger] s.auctions.contains_key(id) implies t.auctions[id]
        == s.auctions[id] && t.bids[id] == s.bids[id] by {
        assert(id != n);
    }
}

/// Opening an auction for one token leaves the index entry of every other
/// token as it was, and makes none for it.
pub proof fn law_open_leaves_other_assets(
    s: StoreView,
    block: BlockInfo,
    sender: Seq<char>,
    token_id: Seq<char>,
    token_address: Seq<char>,
    start_time: u64,
    duration: u64,
    coin_denom: Seq<char>,
    min_bid: Option<u128>,
    other_id: Seq<char>,
    other_address: Seq<char>,
)
    requires
        s.wf(),
        start_auction_error(s, block, start_time, duration) is None,
        token_id != other_id || token_address != other_address,
    ensures
        ({
            let t = auction_opened(
                s,
                sender,
                token_id,
                token_address,
                start_time,
                duration,
                coin_denom,
                min_bid,
            );
            &&& holds_asset(t.infos, other_id, other_address) == holds_asset(
                s.infos,
                other_id,
                other_address,
            )
            &&& t.has_auction(other_id, other_address) == s.has_auction(other_id, other_address)
            &&& holds_asset(s.infos, other_id, other_address) ==> t.infos[position(
                t.infos,
                other_id,
                other_address,
            )] == s.infos[position(s.infos, other_id, other_address)]
        }),
{
    let t = auction_opened(
        s,
        sender,
        token_id,
        token_address,
        start_time,
        duration,
        coin_denom,
        min_bid,
    );
    lemma_auction_opened_wf(
        s,
        block,
        sender,
        token_id,
        token_address,
        start_time,
        duration,
        coin_denom,
        min_bid,
    );
    lemma_slot_exists(s.infos, token_id, token_address);
    lemma_indexed_assets(s, other_id, other_address);
    lemma_indexed_assets(t, other_id, other_address);
    let held = holds_asset(s.infos, token_id, token_address);
    let p = if held {
        position(s.infos, token_id, token_address)
    } else {
        slot(s.infos, token_id, token_address)
    };
    if holds_asset(s.infos, other_id, other_address) {
        let i = position(s.infos, other_id, other_address);
        let j = if held || i < p {
            i
        } else {
            i + 1
        };
        assert(t.infos[j] == s.infos[i]);
        lemma_position_unique(t.infos, other_id, other_address, j);
    }
    if holds_asset(t.infos, other_id, other_address) {
        let j = position(t.infos, other_id, other_address);
        let i = if held || j < p {
            j
        } else {
            j - 1
        };
        assert(j != p);
        assert(s.infos[i].of_asset(other_id, other_address));
    }
}

/// Whether `info` is what the entry `i` of `entries` says of its asset.
pub open spec fn is_info_of(entries: Seq<IndexEntryView>, i: int, info: AuctionInfoView) -> bool {
    0 <= i < entries.len() && entries[i].info == info
}

/// Whether `info` is what some entry of `entries` says of its asset.
pub open spec fn held_by(entries: Seq<IndexEntryView>, info: AuctionInfoView) -> bool {
    exists|i: int| #[trigger] is_info_of(entries, i, info)
}

/// Whether a listing shows `a` before `b`: by the joined names, and by the
/// token id where those are one text.
pub open spec fn shown_before(a: AuctionInfoView, b: AuctionInfoView) -> bool {
    (IndexEntryView { key: asset_key(a.token_id, a.token_address), info: a }).before(
        asset_key(b.token_id, b.token_address),
        b.token_id,
    )
}

/// A listing of an index in order shows only what the index holds, each
/// asset before those that follow it in the index.
pub proof fn lemma_listing_ascends(
    entries: Seq<IndexEntryView>,
    token_address: Option<Seq<char>>,
    start_after: Option<Seq<char>>,
)
    requires
        index_sorted(entries),
    ensures
        forall|a: int|
            0 <= a < listing(entries, token_address, start_after).len() ==> held_by(
                entries,
                #[trigger] listing(entries, token_address, start_after)[a],
            ),
        forall|a: int, b: int|
            0 <= a < b < listing(entries, token_address, start_after).len() ==> shown_before(
                #[trigger] listing(entries, token_address, start_after)[a],
                #[trigger] listing(entries, token_address, start_after)[b],
            ),
    decreases entries.len(),
{
    let all = listing(entries, token_address, start_after);
    if entries.len() > 0 {
        let front = entries.drop_last();
        let n = entries.len() - 1;
        let shown = listing(front, token_address, start_after);
        assert(index_sorted(front)) by {
            assert forall|i: int| 0 <= i < front.len() implies (#[trigger] front[i]).key
                == asset_key(front[i].info.token_id, front[i].info.token_address) by {
                assert(front[i] == entries[i]);
            }
            assert forall|i: int, j: int| 0 <= i < j < front.len() implies (#[trigger] front[i]).before(
                (#[trigger] front[j]).key,
                front[j].info.token_id,
            ) by {
                assert(front[i] == entries[i] && front[j] == entries[j]);
            }
        }
        lemma_listing_ascends(front, token_address, start_after);
        assert forall|a: int| 0 <= a < all.len() implies held_by(entries, #[trigger] all[a]) by {
            if a < shown.len() {
                assert(held_by(front, shown[a]));
                let i = choose|i: int| #[trigger] is_info_of(front, i, shown[a]);
                assert(front[i] == entries[i]);
                assert(is_info_of(entries, i, all[a]));
            } else {
                assert(is_info_of(entries, n, all[a]));
            }
        }
        assert forall|a: int, b: int| 0 <= a < b < all.len() implies shown_before(
            #[trigger] all[a],
            #[trigger] all[b],
        ) by {
            if b < shown.len() {
                assert(all[a] == shown[a] && all[b] == shown[b]);
            } else {
                assert(held_by(front, shown[a]));
                let i = choose|i: int| #[trigger] is_info_of(front, i, shown[a]);
                assert(front[i] == entries[i]);
                assert(entries[i].before(entries[n].key, entries[n].info.token_id));
            }
        }
    }
}

/// A listing of a valid store shows each asset once, in the order of the
/// joined names, and of the token ids where those are one text.
pub proof fn law_listing_ascends(
    s: StoreView,
    token_address: Option<Seq<char>>,
    start_after: Option<Seq<char>>,
)
    requires
        s.wf(),
    ensures
        forall|a: int, b: int|
            0 <= a < b < listing(s.infos, token_address, start_after).len() ==> shown_before(
                #[trigger] listing(s.infos, token_address, start_after)[a],
                #[trigger] listing(s.infos, token_address, start_after)[b],
            ),
{
    lemma_listing_ascends(s.infos, token_address, start_after);
}

/// A bid is accepted only while the auction is open; on a cancelled, a
/// pending or an ended auction it is refused as such.
pub proof fn law_bids_only_while_open(
    s: StoreView,
    block: BlockInfo,
    info: MessageInfoView,
    token_id: Seq<char>,
    token_address: Seq<char>,
)
    requires
        s.wf(),
        s.has_auction(token_id, token_address),
    ensures
        ({
            let phase = s.latest_auction(token_id, token_address).phase(block);
            let outcome = place_bid_outcome(s, block, info, token_id, token_address);
            &&& outcome is Ok ==> phase == AuctionPhase::Open
            &&& phase == AuctionPhase::Cancelled ==> outcome == Err::<
                (StoreView, crate::response::ResponseView),
                ErrorView,
            >(ErrorView::AuctionCancelled)
            &&& phase == AuctionPhase::Pending ==> outcome == Err::<
                (StoreView, crate::response::ResponseView),
                ErrorView,
            >(ErrorView::AuctionNotStarted)
            &&& phase == AuctionPhase::Ended ==> outcome == Err::<
                (StoreView, crate::response::ResponseView),
                ErrorView,
            >(ErrorView::AuctionEnded)
        }),
{
    lemma_latest_auction(s, token_id, token_address);
}

/// An auction is cancelled only before its end, and is cancelled
/// afterwards; an auction is settled only once its end is reached, and
/// settling changes no record.
pub proof fn law_cancel_before_and_claim_after_the_end(
    s: StoreView,
    block: BlockInfo,
    sender: Seq<char>,
    engine: Seq<char>,
    token_id: Seq<char>,
    token_address: Seq<char>,
    token_owner: Seq<char>,
    payload: Option<Seq<u8>>,
)
    requires
        s.wf(),
    ensures
        ({
            let a = s.latest_auction(token_id, token_address);
            &&& cancel_outcome(s, block, sender, token_id, token_address, payload) is Ok ==> {
                &&& !a.end_time.reached(block)
                &&& sender == a.owner
                &&& auction_cancelled(s, token_id, token_address).auctions[a.auction_id].phase(
                    block,
                ) == AuctionPhase::Cancelled
            }
            &&& claim_outcome(s, block, engine, token_id, token_address, token_owner, payload)
                matches Ok((after, _)) ==> a.end_time.reached(block) && token_owner == engine
                && after == s
        }),
{
    if s.has_auction(token_id, token_address) {
        lemma_latest_auction(s, token_id, token_address);
    }
}

/// Once an auction is cancelled it stays cancelled, whatever is called.
pub proof fn law_cancelled_is_final(s: StoreView, call: Call, id: u128)
    requires
        s.wf(),
        s.auctions.contains_key(id),
        s.auctions[id].is_cancelled,
    ensures
        step(s, call).auctions.contains_key(id),
        step(s, call).auctions[id].is_cancelled,
{
    match call.msg {
        ExecuteMsg::ReceiveNft(notice) => {
            match notice.msg {
                Cw721CustomMsg::StartAuction { start_time, duration, coin_denom, min_bid } => {},
            }
        },
        ExecuteMsg::PlaceBid { token_id, token_address } => {
            if s.has_auction(token_id@, token_address@) {
                lemma_latest_auction(s, token_id@, token_address@);
            }
        },
        ExecuteMsg::CancelAuction { token_id, token_address } => {
            if s.has_auction(token_id@, token_address@) {
                lemma_latest_auction(s, token_id@, token_address@);
            }
        },
        ExecuteMsg::Claim { .. } => {},
    }
}

} // verus!

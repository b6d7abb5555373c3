//! What each operation comes to, as a function of the store's value.
//!
//! The executable operations are proved to compute these functions, and the
//! laws are stated over them. An operation that is refused changes nothing.

use crate::error::{ContractError, ErrorView};
use crate::msg::{Cw721CustomMsg, Cw721ReceiveMsg, ExecuteMsg};
use crate::response::{attr_view, Env, InstructionView, MessageInfoView, Response, ResponseView};
use crate::state::{
    holds_asset, index_sorted, lemma_filed_in_order, lemma_position_unique, lemma_slot_exists,
    lists, position, slot, AuctionInfoView, AuctionView, BidView, IndexEntryView, StoreView,
};
use crate::text::{asset_key, decimal, expiration_text, transfer_nft_json};
use crate::time::{instant_at, BlockInfo, NANOS_PER_MILLI};
use vstd::prelude::*;

verus! {

/// What an operation comes to: the store after it and its answer, or why it
/// is refused.
pub type Outcome = Result<(StoreView, ResponseView), ErrorView>;

/// Whether a call that found the store as `before`, left it as `after` and
/// returned `r` did what `outcome` says: it answered as stated and left the
/// store as stated, or failed with the stated error and changed nothing.
pub open spec fn agrees(
    r: Result<Response, ContractError>,
    before: StoreView,
    after: StoreView,
    outcome: Outcome,
) -> bool {
    match outcome {
        Ok((store, response)) => r matches Ok(x) && x@ == response && after == store,
        Err(error) => r matches Err(e) && e@ == error && after == before,
    }
}

/// The bytes of a transfer that was encoded, or `None` where encoding
/// failed.
pub open spec fn payload_of(encoded: Result<Vec<u8>, cosmwasm_std::StdError>) -> Option<Seq<u8>> {
    match encoded {
        Ok(bytes) => Some(bytes@),
        Err(_) => None,
    }
}

/// Why an auction from `start_time` for `duration` milliseconds cannot be
/// opened in `block`, if it cannot: the first of these that holds. A time is
/// zero or ends beyond what 64 bits of nanoseconds hold; the start is not
/// after the block's time; no auction id is left.
pub open spec fn start_auction_error(
    s: StoreView,
    block: BlockInfo,
    start_time: u64,
    duration: u64,
) -> Option<ErrorView> {
    if start_time == 0 || duration == 0 {
        Some(ErrorView::InvalidExpiration)
    } else if start_time + duration > u64::MAX / NANOS_PER_MILLI {
        Some(ErrorView::InvalidExpiration)
    } else if start_time * NANOS_PER_MILLI <= block.time.0 {
        Some(
            ErrorView::InvalidStartTime {
                current_time: block.time.0 / NANOS_PER_MILLI,
                current_block: block.height,
            },
        )
    } else if s.next_auction_id == u128::MAX {
        Some(ErrorView::Overflow)
    } else {
        None
    }
}

/// The record of an auction as it is opened: nobody leads, nothing is bid.
pub open spec fn new_auction(
    id: u128,
    sender: Seq<char>,
    token_id: Seq<char>,
    token_address: Seq<char>,
    start_time: u64,
    duration: u64,
    coin_denom: Seq<char>,
    min_bid: Option<u128>,
) -> AuctionView {
    AuctionView {
        start_time: instant_at(start_time as int),
        end_time: instant_at(start_time + duration),
        high_bidder_addr: Seq::empty(),
        high_bidder_amount: 0,
        coin_denom,
        auction_id: id,
        min_bid,
        owner: sender,
        token_id,
        token_address,
        is_cancelled: false,
    }
}

/// The asset index after the auction `id` was opened for a token: the
/// token's entry lists `id` last, and an entry that names the token is made
/// at the token's place where it had none.
pub open spec fn index_opened(
    entries: Seq<IndexEntryView>,
    id: u128,
    token_id: Seq<char>,
    token_address: Seq<char>,
) -> Seq<IndexEntryView> {
    if holds_asset(entries, token_id, token_address) {
        let p = position(entries, token_id, token_address);
        entries.update(p, IndexEntryView { info: entries[p].info.with_auction(id), ..entries[p] })
    } else {
        entries.insert(
            slot(entries, token_id, token_address),
            IndexEntryView {
                key: asset_key(token_id, token_address),
                info: AuctionInfoView { auction_ids: seq![id], token_address, token_id },
            },
        )
    }
}

/// The store after an auction was opened: the auction stands under the id
/// that was next, with an empty bid ledger, and the counter has moved on by
/// one.
pub open spec fn auction_opened(
    s: StoreView,
    sender: Seq<char>,
    token_id: Seq<char>,
    token_address: Seq<char>,
    start_time: u64,
    duration: u64,
    coin_denom: Seq<char>,
    min_bid: Option<u128>,
) -> StoreView {
    let id = s.next_auction_id;
    StoreView {
        next_auction_id: (id + 1) as u128,
        auctions: s.auctions.insert(
            id,
            new_auction(
                id,
                sender,
                token_id,
                token_address,
                start_time,
                duration,
                coin_denom,
                min_bid,
            ),
        ),
        bids: s.bids.insert(id, Seq::empty()),
        infos: index_opened(s.infos, id, token_id, token_address),
    }
}

/// What opening the auction `id` reports.
pub open spec fn start_auction_response(
    id: u128,
    start_time: u64,
    duration: u64,
    coin_denom: Seq<char>,
) -> ResponseView {
    ResponseView::empty().with_attribute("action"@, "start_auction"@).with_attribute(
        "start_time"@,
        expiration_text(instant_at(start_time as int)),
    ).with_attribute(
        "end_time"@,
        expiration_text(instant_at(start_time + duration)),
    ).with_attribute("coin_denom"@, coin_denom).with_attribute("auction_id"@, decimal(id as nat))
}

/// What opening an auction comes to.
pub open spec fn start_auction_outcome(
    s: StoreView,
    block: BlockInfo,
    sender: Seq<char>,
    token_id: Seq<char>,
    token_address: Seq<char>,
    start_time: u64,
    duration: u64,
    coin_denom: Seq<char>,
    min_bid: Option<u128>,
) -> Outcome {
    match start_auction_error(s, block, start_time, duration) {
        Some(error) => Err(error),
        None => Ok(
            (
                auction_opened(
                    s,
                    sender,
                    token_id,
                    token_address,
                    start_time,
                    duration,
                    coin_denom,
                    min_bid,
                ),
                start_auction_response(s.next_auction_id, start_time, duration, coin_denom),
            ),
        ),
    }
}

/// What the notice of a deposit comes to: the auction that the depositor
/// asks for is opened for the token, whose collection is the notice's
/// sender.
pub open spec fn receive_outcome(
    s: StoreView,
    block: BlockInfo,
    collection: Seq<char>,
    msg: Cw721ReceiveMsg,
) -> Outcome {
    match msg.msg {
        Cw721CustomMsg::StartAuction {
            start_time,
            duration,
            coin_denom,
            min_bid,
        } => start_auction_outcome(
            s,
            block,
            msg.sender@,
            msg.token_id@,
            collection,
            start_time,
            duration,
            coin_denom@,
            min_bid,
        ),
    }
}

/// Why `info` cannot bid in `block` on the newest auction of a token, if it
/// cannot: the first of these that holds.
pub open spec fn place_bid_error(
    s: StoreView,
    block: BlockInfo,
    info: MessageInfoView,
    token_id: Seq<char>,
    token_address: Seq<char>,
) -> Option<ErrorView> {
    let a = s.latest_auction(token_id, token_address);
    if !s.has_auction(token_id, token_address) {
        Some(ErrorView::AuctionDoesNotExist)
    } else if a.is_cancelled {
        Some(ErrorView::AuctionCancelled)
    } else if !a.start_time.reached(block) {
        Some(ErrorView::AuctionNotStarted)
    } else if a.end_time.reached(block) {
        Some(ErrorView::AuctionEnded)
    } else if a.owner == info.sender {
        Some(ErrorView::TokenOwnerCannotBid)
    } else if info.funds.len() != 1 {
        Some(ErrorView::InvalidFunds { msg: "Auctions require exactly one coin to be sent."@ })
    } else if a.high_bidder_addr == info.sender {
        Some(ErrorView::HighestBidderCannotOutBid)
    } else if !(info.funds[0].denom == a.coin_denom && info.funds[0].amount > 0) {
        Some(
            ErrorView::InvalidFunds {
                msg: "No "@ + a.coin_denom + " assets are provided to auction"@,
            },
        )
    } else if !(a.high_bidder_amount < info.funds[0].amount) {
        Some(ErrorView::BidSmallerThanHighestBid)
    } else {
        None
    }
}

/// The store after `info` has bid on the newest auction of a token: the
/// bidder leads with the amount sent, and the bid stands last in the
/// auction's ledger.
pub open spec fn bid_placed(
    s: StoreView,
    block: BlockInfo,
    info: MessageInfoView,
    token_id: Seq<char>,
    token_address: Seq<char>,
) -> StoreView {
    let a = s.latest_auction(token_id, token_address);
    StoreView {
        auctions: s.auctions.insert(
            a.auction_id,
            AuctionView {
                high_bidder_addr: info.sender,
                high_bidder_amount: info.funds[0].amount,
                ..a
            },
        ),
        bids: s.bids.insert(
            a.auction_id,
            s.bids[a.auction_id].push(
                BidView {
                    bidder: info.sender,
                    amount: info.funds[0].amount,
                    timestamp: block.time,
                },
            ),
        ),
        ..s
    }
}

/// The transfer that gives the leading bid of `a` back to its bidder, where
/// there is one.
pub open spec fn refund(a: AuctionView) -> Seq<InstructionView> {
    if a.high_bidder_amount > 0 {
        seq![
            InstructionView::TransferCurrency {
                to: a.high_bidder_addr,
                denom: a.coin_denom,
                amount: a.high_bidder_amount,
            },
        ]
    } else {
        Seq::empty()
    }
}

/// What an accepted bid on the auction `a` answers: the refund of the bid it
/// outbids, and what was bid.
pub open spec fn place_bid_response(
    a: AuctionView,
    info: MessageInfoView,
    token_id: Seq<char>,
) -> ResponseView {
    ResponseView {
        messages: refund(a),
        attributes: seq![
            attr_view("action"@, "bid"@),
            attr_view("token_id"@, token_id),
            attr_view("bider"@, info.sender),
            attr_view("amount"@, decimal(info.funds[0].amount as nat)),
        ],
    }
}

/// What a bid comes to.
pub open spec fn place_bid_outcome(
    s: StoreView,
    block: BlockInfo,
    info: MessageInfoView,
    token_id: Seq<char>,
    token_address: Seq<char>,
) -> Outcome {
    match place_bid_error(s, block, info, token_id, token_address) {
        Some(error) => Err(error),
        None => Ok(
            (
                bid_placed(s, block, info, token_id, token_address),
                place_bid_response(s.latest_auction(token_id, token_address), info, token_id),
            ),
        ),
    }
}

/// Why `sender` cannot cancel in `block` the newest auction of a token, if
/// it cannot: the first of these that holds.
pub open spec fn cancel_error(
    s: StoreView,
    block: BlockInfo,
    sender: Seq<char>,
    token_id: Seq<char>,
    token_address: Seq<char>,
) -> Option<ErrorView> {
    let a = s.latest_auction(token_id, token_address);
    if !s.has_auction(token_id, token_address) {
        Some(ErrorView::AuctionDoesNotExist)
    } else if sender != a.owner {
        Some(ErrorView::Unauthorized)
    } else if a.end_time.reached(block) {
        Some(ErrorView::AuctionEnded)
    } else {
        None
    }
}

/// The store after the newest auction of a token was cancelled.
pub open spec fn auction_cancelled(
    s: StoreView,
    token_id: Seq<char>,
    token_address: Seq<char>,
) -> StoreView {
    let a = s.latest_auction(token_id, token_address);
    StoreView {
        auctions: s.auctions.insert(a.auction_id, AuctionView { is_cancelled: true, ..a }),
        ..s
    }
}

/// What cancelling the auction `a` answers: the token goes back to the
/// owner, with `payload` as the message for its collection, and the leading
/// bid to its bidder.
pub open spec fn cancel_response(
    a: AuctionView,
    sender: Seq<char>,
    token_id: Seq<char>,
    payload: Seq<u8>,
) -> ResponseView {
    ResponseView {
        messages: seq![
            InstructionView::TransferAssetOut {
                to: sender,
                token_id,
                token_address: a.token_address,
                msg: payload,
            },
        ] + refund(a),
        attributes: Seq::empty(),
    }
}

/// What cancelling comes to, where encoding the token's transfer has given
/// `payload`, or has failed.
pub open spec fn cancel_outcome(
    s: StoreView,
    block: BlockInfo,
    sender: Seq<char>,
    token_id: Seq<char>,
    token_address: Seq<char>,
    payload: Option<Seq<u8>>,
) -> Outcome {
    match cancel_error(s, block, sender, token_id, token_address) {
        Some(error) => Err(error),
        None => match payload {
            None => Err(ErrorView::Std),
            Some(bytes) => Ok(
                (
                    auction_cancelled(s, token_id, token_address),
                    cancel_response(
                        s.latest_auction(token_id, token_address),
                        sender,
                        token_id,
                        bytes,
                    ),
                ),
            ),
        },
    }
}

/// Why the newest auction of a token cannot be settled in `block`, if it
/// cannot: the first of these that holds. There is no such
/// auction; its end is not reached; the token's collection names another
/// holder than the engine, so that the token has left escrow already.
pub open spec fn claim_error(
    s: StoreView,
    block: BlockInfo,
    engine: Seq<char>,
    token_id: Seq<char>,
    token_address: Seq<char>,
    token_owner: Seq<char>,
) -> Option<ErrorView> {
    let a = s.latest_auction(token_id, token_address);
    if !s.has_auction(token_id, token_address) {
        Some(ErrorView::AuctionDoesNotExist)
    } else if !a.end_time.reached(block) {
        Some(ErrorView::AuctionNotEnded)
    } else if token_owner != engine {
        Some(ErrorView::AuctionAlreadyClaimed)
    } else {
        None
    }
}

/// Who gets the token when the auction `a` is settled: its leading bidder,
/// or its owner where nobody has bid.
pub open spec fn claim_recipient(a: AuctionView) -> Seq<char> {
    if a.high_bidder_amount == 0 {
        a.owner
    } else {
        a.high_bidder_addr
    }
}

/// The payment of the winning bid of `a` to the owner, where there is one.
pub open spec fn proceeds(a: AuctionView) -> Seq<InstructionView> {
    if a.high_bidder_amount == 0 {
        Seq::empty()
    } else {
        seq![
            InstructionView::TransferCurrency {
                to: a.owner,
                denom: a.coin_denom,
                amount: a.high_bidder_amount,
            },
        ]
    }
}

/// What settling the auction `a` answers: the winning bid goes to the owner
/// and the token to the winner, with `payload` as the message for its
/// collection; without a bid the token goes back to the owner.
pub open spec fn claim_response(a: AuctionView, token_id: Seq<char>, payload: Seq<u8>) -> ResponseView {
    ResponseView {
        messages: proceeds(a) + seq![
            InstructionView::TransferAssetOut {
                to: claim_recipient(a),
                token_id,
                token_address: a.token_address,
                msg: payload,
            },
        ],
        attributes: seq![
            attr_view("action"@, "claim"@),
            attr_view("token_id"@, token_id),
            attr_view("token_contract"@, a.token_address),
            attr_view("recipient"@, claim_recipient(a)),
            attr_view("winning_bid_amount"@, decimal(a.high_bidder_amount as nat)),
            attr_view("auction_id"@, decimal(a.auction_id as nat)),
        ],
    }
}

/// What settling comes to, where encoding the token's transfer has given
/// `payload`, or has failed. Settling changes no record.
pub open spec fn claim_outcome(
    s: StoreView,
    block: BlockInfo,
    engine: Seq<char>,
    token_id: Seq<char>,
    token_address: Seq<char>,
    token_owner: Seq<char>,
    payload: Option<Seq<u8>>,
) -> Outcome {
    match claim_error(s, block, engine, token_id, token_address, token_owner) {
        Some(error) => Err(error),
        None => match payload {
            None => Err(ErrorView::Std),
            Some(bytes) => Ok(
                (s, claim_response(s.latest_auction(token_id, token_address), token_id, bytes)),
            ),
        },
    }
}

/// What the operation `msg` comes to when `info` asks for it in `env`.
pub open spec fn execute_outcome(
    s: StoreView,
    env: Env,
    info: MessageInfoView,
    msg: ExecuteMsg,
) -> Outcome {
    match msg {
        ExecuteMsg::ReceiveNft(notice) => receive_outcome(s, env.block, info.sender, notice),
        ExecuteMsg::PlaceBid { token_id, token_address } => place_bid_outcome(
            s,
            env.block,
            info,
            token_id@,
            token_address@,
        ),
        ExecuteMsg::CancelAuction { token_id, token_address } => cancel_outcome(
            s,
            env.block,
            info.sender,
            token_id@,
            token_address@,
            transfer_nft_json(info.sender, token_id@),
        ),
        ExecuteMsg::Claim { token_id, token_address, token_owner } => claim_outcome(
            s,
            env.block,
            env.contract.address@,
            token_id@,
            token_address@,
            token_owner@,
            transfer_nft_json(
                claim_recipient(s.latest_auction(token_id@, token_address@)),
                token_id@,
            ),
        ),
    }
}

/// In a valid store the newest auction of an asset that has one is the one
/// that the asset's index entry lists last; it stands under the id it
/// carries and has its bid ledger.
pub proof fn lemma_latest_auction(s: StoreView, token_id: Seq<char>, token_address: Seq<char>)
    requires
        s.wf(),
        s.has_auction(token_id, token_address),
    ensures
        holds_asset(s.infos, token_id, token_address),
        s.latest_id(token_id, token_address) == s.infos[position(
            s.infos,
            token_id,
            token_address,
        )].info.auction_ids.last(),
        s.is_latest(s.latest_id(token_id, token_address), token_id, token_address),
        s.auctions.contains_key(s.latest_id(token_id, token_address)),
        s.bids.contains_key(s.latest_id(token_id, token_address)),
        s.auction_ok(s.latest_id(token_id, token_address)),
        s.latest_auction(token_id, token_address).auction_id == s.latest_id(
            token_id,
            token_address,
        ),
        s.latest_auction(token_id, token_address).of_asset(token_id, token_address),
{
    let w = choose|id: u128| #[trigger]
        s.auctions.contains_key(id) && s.auctions[id].of_asset(token_id, token_address);
    assert(s.indexed(w));
    let (i, k) = choose|i: int, k: int|
        0 <= i < s.infos.len() && 0 <= k < s.infos[i].info.auction_ids.len() && s.infos[i].of_asset(
            s.auctions[w].token_id,
            s.auctions[w].token_address,
        ) && #[trigger] lists(s.infos, i, k, w);
    lemma_position_unique(s.infos, token_id, token_address, i);
    let ids = s.infos[i].info.auction_ids;
    let newest = ids[ids.len() - 1];
    assert(s.entry_ok(s.infos[i]));
    assert(s.auctions.contains_key(newest));
    assert forall|other: u128| #[trigger]
        s.auctions.contains_key(other) && s.auctions[other].of_asset(
            token_id,
            token_address,
        ) implies other <= newest by {
        assert(s.indexed(other));
        let (j, l) = choose|j: int, l: int|
            0 <= j < s.infos.len() && 0 <= l < s.infos[j].info.auction_ids.len()
                && s.infos[j].of_asset(s.auctions[other].token_id, s.auctions[other].token_address)
                && #[trigger] lists(s.infos, j, l, other);
        lemma_position_unique(s.infos, token_id, token_address, j);
        if l < ids.len() - 1 {
            assert(ids[l] < ids[ids.len() - 1]);
        }
    }
    assert(s.is_latest(newest, token_id, token_address));
    assert(s.auction_ok(newest));
}

/// In a valid store the index holds an entry for exactly the assets that
/// ever had an auction.
pub proof fn lemma_indexed_assets(s: StoreView, token_id: Seq<char>, token_address: Seq<char>)
    requires
        s.wf(),
    ensures
        holds_asset(s.infos, token_id, token_address) <==> s.has_auction(token_id, token_address),
{
    if s.has_auction(token_id, token_address) {
        lemma_latest_auction(s, token_id, token_address);
    }
    if holds_asset(s.infos, token_id, token_address) {
        let e = s.infos[position(s.infos, token_id, token_address)];
        assert(s.entry_ok(e));
        assert(s.auctions.contains_key(e.info.auction_ids[0]));
    }
}

/// Opening an auction keeps the index in order.
pub proof fn lemma_index_opened_sorted(
    entries: Seq<IndexEntryView>,
    id: u128,
    token_id: Seq<char>,
    token_address: Seq<char>,
)
    requires
        index_sorted(entries),
    ensures
        index_sorted(index_opened(entries, id, token_id, token_address)),
{
    let key = asset_key(token_id, token_address);
    let p = slot(entries, token_id, token_address);
    let after = index_opened(entries, id, token_id, token_address);
    lemma_slot_exists(entries, token_id, token_address);
    if holds_asset(entries, token_id, token_address) {
        assert forall|i: int| 0 <= i < after.len() implies (#[trigger] after[i]).key == asset_key(
            after[i].info.token_id,
            after[i].info.token_address,
        ) by {
            assert(after[i].key == entries[i].key);
            assert(after[i].info.token_id == entries[i].info.token_id);
            assert(after[i].info.token_address == entries[i].info.token_address);
        }
        assert forall|i: int, j: int| 0 <= i < j < after.len() implies (#[trigger] after[i]).before(
            (#[trigger] after[j]).key,
            after[j].info.token_id,
        ) by {
            assert(entries[i].before(entries[j].key, entries[j].info.token_id));
            assert(after[i].key == entries[i].key);
            assert(after[i].info.token_id == entries[i].info.token_id);
            assert(after[j].key == entries[j].key);
            assert(after[j].info.token_id == entries[j].info.token_id);
        }
    } else {
        lemma_filed_in_order(
            entries,
            IndexEntryView {
                key,
                info: AuctionInfoView { auction_ids: seq![id], token_address, token_id },
            },
        );
    }
}

/// Opening an auction on a valid store gives a valid store.
pub proof fn lemma_auction_opened_wf(
    s: StoreView,
    block: BlockInfo,
    sender: Seq<char>,
    token_id: Seq<char>,
    token_address: Seq<char>,
    start_time: u64,
    duration: u64,
    coin_denom: Seq<char>,
    min_bid: Option<u128>,
)
    requires
        s.wf(),
        start_auction_error(s, block, start_time, duration) is None,
    ensures
        auction_opened(
            s,
            sender,
            token_id,
            token_address,
            start_time,
            duration,
            coin_denom,
            min_bid,
        ).wf(),
{
    let t = auction_opened(
        s,
        sender,
        token_id,
        token_address,
        start_time,
        duration,
        coin_denom,
        min_bid,
    );
    let id = s.next_auction_id;
    let held = holds_asset(s.infos, token_id, token_address);
    let p = slot(s.infos, token_id, token_address);
    lemma_slot_exists(s.infos, token_id, token_address);
    if held {
        lemma_position_unique(s.infos, token_id, token_address, position(s.infos, token_id, token_address));
    }
    lemma_index_opened_sorted(s.infos, id, token_id, token_address);
    assert(!s.auctions.contains_key(id));
    assert(t.auctions[id].of_asset(token_id, token_address));
    assert forall|other: u128| t.auctions.contains_key(other) implies #[trigger] t.auction_ok(
        other,
    ) by {
        if other != id {
            assert(s.auction_ok(other));
        }
    }
    assert forall|i: int| 0 <= i < t.infos.len() implies t.entry_ok(#[trigger] t.infos[i]) by {
        let e = t.infos[i];
        let j = if held || i < p {
            i
        } else {
            i - 1
        };
        if i == p {
            if held {
                let before = s.infos[p].info;
                assert(s.entry_ok(s.infos[p]));
                assert(s.infos[p].of_asset(token_id, token_address));
                assert forall|k: int| 0 <= k < e.info.auction_ids.len() implies {
                    &&& t.auctions.contains_key(#[trigger] e.info.auction_ids[k])
                    &&& t.auctions[e.info.auction_ids[k]].of_asset(
                        e.info.token_id,
                        e.info.token_address,
                    )
                } by {
                    if k < before.auction_ids.len() {
                        assert(e.info.auction_ids[k] == before.auction_ids[k]);
                        assert(s.auctions.contains_key(before.auction_ids[k]));
                    }
                }
                assert forall|k: int, l: int|
                    0 <= k < l < e.info.auction_ids.len() implies (#[trigger] e.info.auction_ids[k])
                    < (#[trigger] e.info.auction_ids[l]) by {
                    assert(e.info.auction_ids[k] == before.auction_ids[k]);
                    assert(s.auctions.contains_key(before.auction_ids[k]));
                    if l < before.auction_ids.len() {
                        assert(e.info.auction_ids[l] == before.auction_ids[l]);
                    }
                }
            }
        } else {
            assert(e == s.infos[j]);
            assert(s.entry_ok(s.infos[j]));
            assert forall|k: int| 0 <= k < e.info.auction_ids.len() implies {
                &&& t.auctions.contains_key(#[trigger] e.info.auction_ids[k])
                &&& t.auctions[e.info.auction_ids[k]].of_asset(
                    e.info.token_id,
                    e.info.token_address,
                )
            } by {
                assert(s.auctions.contains_key(e.info.auction_ids[k]));
            }
        }
    }
    assert forall|other: u128| t.auctions.contains_key(other) implies #[trigger] t.indexed(
        other,
    ) by {
        if other == id {
            let k = t.infos[p].info.auction_ids.len() - 1;
            assert(lists(t.infos, p, k, id));
        } else {
            assert(s.indexed(other));
            let (i, k) = choose|i: int, k: int|
                0 <= i < s.infos.len() && 0 <= k < s.infos[i].info.auction_ids.len()
                    && s.infos[i].of_asset(
                    s.auctions[other].token_id,
                    s.auctions[other].token_address,
                ) && #[trigger] lists(s.infos, i, k, other);
            let j = if held || i < p {
                i
            } else {
                i + 1
            };
            assert(lists(t.infos, j, k, other));
        }
    }
}

/// A store stays valid when one of its auctions gets a new leading bid that
/// its ledger takes up, or is marked as cancelled.
pub proof fn lemma_auction_updated_wf(s: StoreView, t: StoreView, id: u128)
    requires
        s.wf(),
        s.auctions.contains_key(id),
        t.next_auction_id == s.next_auction_id,
        t.infos == s.infos,
        t.auctions == s.auctions.insert(id, t.auctions[id]),
        t.bids == s.bids.insert(id, t.bids[id]),
        t.auctions[id].auction_id == id,
        t.auctions[id].start_time == s.auctions[id].start_time,
        t.auctions[id].end_time == s.auctions[id].end_time,
        t.auctions[id].token_id == s.auctions[id].token_id,
        t.auctions[id].token_address == s.auctions[id].token_address,
        t.auctions[id].led_by(t.bids[id]),
    ensures
        t.wf(),
{
    assert(s.auction_ok(id));
    assert forall|other: u128| t.auctions.contains_key(other) implies #[trigger] t.auction_ok(
        other,
    ) by {
        if other != id {
            assert(s.auction_ok(other));
        }
    }
    assert forall|i: int| 0 <= i < t.infos.len() implies t.entry_ok(#[trigger] t.infos[i]) by {
        let e = t.infos[i];
        assert(s.entry_ok(s.infos[i]));
        assert forall|k: int| 0 <= k < e.info.auction_ids.len() implies {
            &&& t.auctions.contains_key(#[trigger] e.info.auction_ids[k])
            &&& t.auctions[e.info.auction_ids[k]].of_asset(e.info.token_id, e.info.token_address)
        } by {
            assert(s.auctions.contains_key(e.info.auction_ids[k]));
        }
    }
    assert forall|other: u128| t.auctions.contains_key(other) implies #[trigger] t.indexed(
        other,
    ) by {
        assert(s.indexed(other));
        let (i, k) = choose|i: int, k: int|
            0 <= i < s.infos.len() && 0 <= k < s.infos[i].info.auction_ids.len()
                && s.infos[i].of_asset(s.auctions[other].token_id, s.auctions[other].token_address)
                && #[trigger] lists(s.infos, i, k, other);
        assert(lists(t.infos, i, k, other));
    }
}

/// An accepted bid on a valid store gives a valid store.
pub proof fn lemma_bid_placed_wf(
    s: StoreView,
    block: BlockInfo,
    info: MessageInfoView,
    token_id: Seq<char>,
    token_address: Seq<char>,
)
    requires
        s.wf(),
        place_bid_error(s, block, info, token_id, token_address) is None,
    ensures
        bid_placed(s, block, info, token_id, token_address).wf(),
{
    let t = bid_placed(s, block, info, token_id, token_address);
    let a = s.latest_auction(token_id, token_address);
    let id = a.auction_id;
    lemma_latest_auction(s, token_id, token_address);
    let before = s.bids[id];
    let after = t.bids[id];
    assert(after == before.push(after.last()));
    assert forall|i: int, j: int| 0 <= i < j < after.len() implies (#[trigger] after[i]).amount < (
    #[trigger] after[j]).amount by {
        if j < before.len() {
            assert(after[i] == before[i] && after[j] == before[j]);
        } else {
            assert(after[i] == before[i]);
            if i < before.len() - 1 {
                assert(before[i].amount < before[before.len() - 1].amount);
            }
        }
    }
    assert forall|i: int| 0 <= i < after.len() implies (#[trigger] after[i]).amount > 0 by {
        if i < before.len() {
            assert(after[i] == before[i]);
        }
    }
    assert(t.auctions =~= s.auctions.insert(id, t.auctions[id]));
    assert(t.bids =~= s.bids.insert(id, t.bids[id]));
    lemma_auction_updated_wf(s, t, id);
}

/// Cancelling an auction of a valid store gives a valid store.
pub proof fn lemma_auction_cancelled_wf(s: StoreView, token_id: Seq<char>, token_address: Seq<char>)
    requires
        s.wf(),
        s.has_auction(token_id, token_address),
    ensures
        auction_cancelled(s, token_id, token_address).wf(),
{
    let t = auction_cancelled(s, token_id, token_address);
    let id = s.latest_auction(token_id, token_address).auction_id;
    lemma_latest_auction(s, token_id, token_address);
    assert(t.auctions =~= s.auctions.insert(id, t.auctions[id]));
    assert(t.bids =~= s.bids.insert(id, t.bids[id]));
    lemma_auction_updated_wf(s, t, id);
}

} // verus!

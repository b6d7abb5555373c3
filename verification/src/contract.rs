//! The four operations of an auction's life: open, bid, cancel, claim.
//!
//! Each operation is proved to do to the store, and to answer, what the
//! model says it comes to.

use crate::error::{ContractError, ErrorView};
use crate::model::{
    agrees, auction_cancelled, auction_opened, bid_placed, cancel_outcome, cancel_response,
    claim_outcome, claim_recipient, claim_response, lemma_auction_cancelled_wf,
    lemma_auction_opened_wf, lemma_bid_placed_wf, lemma_indexed_assets, lemma_latest_auction,
    new_auction, payload_of,
    place_bid_outcome, place_bid_response, receive_outcome, refund, start_auction_outcome,
};
use crate::msg::{Cw721CustomMsg, Cw721ReceiveMsg};
use crate::response::{Env, Instruction, MessageInfo, Response};
use crate::state::{
    bids_view, find_slot, holds_at, AuctionInfo, AuctionStore, Bid, IndexEntry, IndexEntryView,
    TokenAuctionState,
};
use crate::text::{
    amount_to_string, encode_transfer_nft, make_asset_key, transfer_nft_json,
};
use crate::time::{block_to_expiration, millisecond_to_expiration, NANOS_PER_MILLI};
use vstd::prelude::*;

verus! {

broadcast use vstd::std_specs::hash::group_hash_axioms;

/// Takes the next auction id and moves the counter on by one. Fails with
/// `Overflow`, and changes nothing, exactly when the counter has reached the
/// largest number.
pub fn get_and_increment_next_auction_id(store: &mut AuctionStore) -> (r: Result<
    u128,
    ContractError,
>)
    ensures
        final(store).auctions == old(store).auctions,
        final(store).bids == old(store).bids,
        final(store).infos == old(store).infos,
        match r {
            Ok(id) => id == old(store).next_auction_id && final(store).next_auction_id == id + 1,
            Err(e) => old(store).next_auction_id == u128::MAX && e@ == ErrorView::Overflow
                && final(store).next_auction_id == old(store).next_auction_id,
        },
{
    let next_auction_id: u128 = store.next_auction_id;
    match next_auction_id.checked_add(1) {
        Some(incremented) => {
            store.next_auction_id = incremented;
            Ok(next_auction_id)
        },
        None => Err(ContractError::Overflow {  }),
    }
}

/// Looks up the newest auction of a token: the one with the greatest id
/// among the auctions opened for exactly this token of exactly this
/// collection. Fails with `AuctionDoesNotExist` exactly when none was ever
/// opened for it.
pub fn get_token_auction_state(store: &AuctionStore, token_id: &str, token_address: &str) -> (r:
    Result<TokenAuctionState, ContractError>)
    requires
        store.wf(),
    ensures
        match r {
            Ok(auction) => {
                &&& auction@.token_id == token_id@
                &&& auction@.token_address == token_address@
                &&& store@.auctions.contains_key(auction@.auction_id)
                &&& store@.auctions[auction@.auction_id] == auction@
                &&& forall|id: u128| #[trigger]
                    store@.auctions.contains_key(id) && store@.auctions[id].of_asset(
                        token_id@,
                        token_address@,
                    ) ==> id <= auction@.auction_id
                &&& store@.has_auction(token_id@, token_address@)
                &&& auction@ == store@.latest_auction(token_id@, token_address@)
            },
            Err(e) => {
                &&& e@ == ErrorView::AuctionDoesNotExist
                &&& forall|id: u128| #[trigger]
                    store@.auctions.contains_key(id) ==> !store@.auctions[id].of_asset(
                        token_id@,
                        token_address@,
                    )
                &&& !store@.has_auction(token_id@, token_address@)
            },
        },
{
    let p = find_slot(&store.infos, token_id, token_address);
    proof {
        lemma_indexed_assets(store@, token_id@, token_address@);
    }
    if !holds_at(&store.infos, p, token_id, token_address) {
        return Err(ContractError::AuctionDoesNotExist {  });
    }
    proof {
        assert(store@.infos[p as int] == store.infos@[p as int]@);
        assert(store@.entry_ok(store@.infos[p as int]));
        lemma_latest_auction(store@, token_id@, token_address@);
    }
    match store.infos[p].info.latest() {
        Some(id) => {
            assert(store@.auctions.contains_key(*id));
            match store.auctions.get(id) {
                Some(auction) => Ok(auction.clone()),
                None => Err(ContractError::AuctionDoesNotExist {  }),
            }
        },
        None => Err(ContractError::AuctionDoesNotExist {  }),
    }
}

/// Takes the notice that a token was deposited and opens the auction that
/// its depositor asks for. The collection that holds the token is the
/// call's sender.
pub fn exec_handle_receive_cw721(
    store: &mut AuctionStore,
    env: Env,
    info: MessageInfo,
    msg: Cw721ReceiveMsg,
) -> (r: Result<Response, ContractError>)
    requires
        old(store).wf(),
    ensures
        final(store).wf(),
        agrees(
            r,
            old(store)@,
            final(store)@,
            receive_outcome(old(store)@, env.block, info@.sender, msg),
        ),
{
    match msg.msg {
        Cw721CustomMsg::StartAuction {
            start_time,
            duration,
            coin_denom,
            min_bid,
        } => exec_start_auction(
            store,
            env,
            msg.sender,
            msg.token_id,
            info.sender,
            start_time,
            duration,
            coin_denom,
            min_bid,
        ),
    }
}

/// Opens an auction for a token that `sender` has deposited: from
/// `start_time`, in milliseconds since the epoch, for `duration`
/// milliseconds, in the currency `coin_denom`. The auction gets the next id
/// and an empty bid ledger, and the token's index entry lists it last.
pub fn exec_start_auction(
    store: &mut AuctionStore,
    env: Env,
    sender: String,
    token_id: String,
    token_address: String,
    start_time: u64,
    duration: u64,
    coin_denom: String,
    min_bid: Option<u128>,
) -> (r: Result<Response, ContractError>)
    requires
        old(store).wf(),
    ensures
        final(store).wf(),
        agrees(
            r,
            old(store)@,
            final(store)@,
            start_auction_outcome(
                old(store)@,
                env.block,
                sender@,
                token_id@,
                token_address@,
                start_time,
                duration,
                coin_denom@,
                min_bid,
            ),
        ),
{
    if !(start_time > 0 && duration > 0) {
        return Err(ContractError::InvalidExpiration {  });
    }
    let start_expiration = match millisecond_to_expiration(start_time) {
        Ok(instant) => instant,
        Err(e) => {
            return Err(e);
        },
    };
    let end_millis: u64 = match start_time.checked_add(duration) {
        Some(millis) => millis,
        None => {
            return Err(ContractError::InvalidExpiration {  });
        },
    };
    let end_expiration = match millisecond_to_expiration(end_millis) {
        Ok(instant) => instant,
        Err(e) => {
            return Err(e);
        },
    };
    let block_time = match block_to_expiration(&env.block, start_expiration) {
        Some(instant) => instant,
        None => {
            return Err(ContractError::InvalidExpiration {  });
        },
    };
    if !start_expiration.gt(&block_time) {
        return Err(
            ContractError::InvalidStartTime {
                current_time: env.block.time.nanos() / NANOS_PER_MILLI,
                current_block: env.block.height,
            },
        );
    }
    let ghost before = store@;
    let auction_id: u128 = match get_and_increment_next_auction_id(store) {
        Ok(id) => id,
        Err(e) => {
            return Err(e);
        },
    };
    let p = find_slot(&store.infos, token_id.as_str(), token_address.as_str());
    let found: bool = holds_at(&store.infos, p, token_id.as_str(), token_address.as_str());
    let mut entry = if found {
        store.infos.remove(p)
    } else {
        let mut info = AuctionInfo::default();
        info.token_address = token_address.clone();
        info.token_id = token_id.clone();
        IndexEntry { key: make_asset_key(token_id.as_str(), token_address.as_str()), info }
    };
    entry.info.push(auction_id);
    let ghost filed = entry@;
    store.infos.insert(p, entry);
    let ledger: Vec<Bid> = Vec::new();
    assert(bids_view(ledger@) =~= Seq::empty());
    store.bids.insert(auction_id, ledger);
    let start_text = start_expiration.to_string();
    let end_text = end_expiration.to_string();
    let id_text = amount_to_string(auction_id);
    let response = Response::new().add_attribute("action", "start_auction").add_attribute(
        "start_time",
        start_text.as_str(),
    ).add_attribute("end_time", end_text.as_str()).add_attribute(
        "coin_denom",
        coin_denom.as_str(),
    ).add_attribute("auction_id", id_text.as_str());
    let ghost auction = new_auction(
        auction_id,
        sender@,
        token_id@,
        token_address@,
        start_time,
        duration,
        coin_denom@,
        min_bid,
    );
    let state = TokenAuctionState {
        start_time: start_expiration,
        end_time: end_expiration,
        high_bidder_addr: String::new(),
        high_bidder_amount: 0,
        coin_denom,
        auction_id,
        min_bid,
        owner: sender,
        token_id,
        token_address,
        is_cancelled: false,
    };
    assert(state@ == auction);
    store.auctions.insert(auction_id, state);
    proof {
        let after = auction_opened(
            before,
            auction.owner,
            auction.token_id,
            auction.token_address,
            start_time,
            duration,
            auction.coin_denom,
            min_bid,
        );
        assert(store@.auctions =~= after.auctions);
        assert(store@.bids =~= after.bids);
        if found {
            assert(filed == (IndexEntryView {
                info: before.infos[p as int].info.with_auction(auction_id),
                ..before.infos[p as int]
            }));
            assert(store@.infos =~= before.infos.update(p as int, filed));
        } else {
            assert(filed.info.auction_ids =~= seq![auction_id]);
            assert(store@.infos =~= before.infos.insert(p as int, filed));
        }
        assert(store@.infos == after.infos);
        assert(store@ == after);
        lemma_auction_opened_wf(
            before,
            env.block,
            auction.owner,
            auction.token_id,
            auction.token_address,
            start_time,
            duration,
            auction.coin_denom,
            min_bid,
        );
    }
    Ok(response)
}

/// Places a bid on the latest auction of a token with the one coin that
/// came with the call. The bid must be of the auction's currency and higher
/// than the leading one, whose bidder gets the amount back.
pub fn exec_place_bid(
    store: &mut AuctionStore,
    env: Env,
    info: MessageInfo,
    token_id: String,
    token_address: String,
) -> (r: Result<Response, ContractError>)
    requires
        old(store).wf(),
    ensures
        final(store).wf(),
        agrees(
            r,
            old(store)@,
            final(store)@,
            place_bid_outcome(old(store)@, env.block, info@, token_id@, token_address@),
        ),
{
    let ghost before = store@;
    let ghost token = token_id@;
    let ghost collection = token_address@;
    let mut token_auction_state = match get_token_auction_state(
        store,
        token_id.as_str(),
        token_address.as_str(),
    ) {
        Ok(auction) => auction,
        Err(e) => {
            return Err(e);
        },
    };
    let ghost a = token_auction_state@;
    if token_auction_state.is_cancelled {
        return Err(ContractError::AuctionCancelled {  });
    }
    if !token_auction_state.start_time.is_expired(&env.block) {
        return Err(ContractError::AuctionNotStarted {  });
    }
    if token_auction_state.end_time.is_expired(&env.block) {
        return Err(ContractError::AuctionEnded {  });
    }
    if token_auction_state.owner == info.sender {
        return Err(ContractError::TokenOwnerCannotBid {  });
    }
    if info.funds.len() != 1 {
        return Err(
            ContractError::InvalidFunds {
                msg: String::from_str("Auctions require exactly one coin to be sent."),
            },
        );
    }
    if token_auction_state.high_bidder_addr == info.sender {
        return Err(ContractError::HighestBidderCannotOutBid {  });
    }
    let payment = &info.funds[0];
    assert(payment@ == info@.funds[0]);
    if !(payment.denom == token_auction_state.coin_denom && payment.amount > 0) {
        let msg = String::from_str("No ").concat(token_auction_state.coin_denom.as_str()).concat(
            " assets are provided to auction",
        );
        return Err(ContractError::InvalidFunds { msg });
    }
    if !(token_auction_state.high_bidder_amount < payment.amount) {
        return Err(ContractError::BidSmallerThanHighestBid {  });
    }
    let mut response = Response::new();
    // The bid that is outbid goes back to its bidder.
    if token_auction_state.high_bidder_amount > 0 {
        response = response.add_message(
            Instruction::TransferCurrency {
                to: token_auction_state.high_bidder_addr.clone(),
                denom: token_auction_state.coin_denom.clone(),
                amount: token_auction_state.high_bidder_amount,
            },
        );
    }
    assert(response@.messages =~= refund(a));
    let amount_text = amount_to_string(payment.amount);
    let response = response.add_attribute("action", "bid").add_attribute(
        "token_id",
        token_id.as_str(),
    ).add_attribute("bider", info.sender.as_str()).add_attribute("amount", amount_text.as_str());
    assert(response@.attributes =~= place_bid_response(a, info@, token_id@).attributes);

    token_auction_state.high_bidder_addr = info.sender.clone();
    token_auction_state.high_bidder_amount = payment.amount;
    let id: u128 = token_auction_state.auction_id;
    proof {
        lemma_latest_auction(before, token, collection);
    }
    store.auctions.insert(id, token_auction_state);
    let mut bids_for_auction = match store.bids.remove(&id) {
        Some(ledger) => ledger,
        None => Vec::new(),
    };
    let ghost ledger = bids_for_auction@;
    let bid = Bid { bidder: info.sender.clone(), amount: payment.amount, timestamp: env.block.time };
    bids_for_auction.push(bid);
    assert(bids_view(bids_for_auction@) =~= bids_view(ledger).push(
        bid@,
    ));
    store.bids.insert(id, bids_for_auction);
    proof {
        let after = bid_placed(before, env.block, info@, token, collection);
        assert(store@.auctions =~= after.auctions);
        assert(store@.bids =~= after.bids);
        assert(store@.infos == after.infos);
        assert(store@ == after);
        lemma_bid_placed_wf(before, env.block, info@, token, collection);
    }
    Ok(response)
}

/// Cancels the latest auction of a token for its owner, before the
/// auction's end: the token goes back to the owner and the leading bid to
/// its bidder.
pub fn exec_cancel(
    store: &mut AuctionStore,
    env: Env,
    info: MessageInfo,
    token_id: String,
    token_address: String,
) -> (r: Result<Response, ContractError>)
    requires
        old(store).wf(),
    ensures
        final(store).wf(),
        agrees(
            r,
            old(store)@,
            final(store)@,
            cancel_outcome(
                old(store)@,
                env.block,
                info@.sender,
                token_id@,
                token_address@,
                transfer_nft_json(info@.sender, token_id@),
            ),
        ),
{
    let encoded = encode_transfer_nft(info.sender.as_str(), token_id.as_str());
    cancel_with(store, env, info, token_id, token_address, encoded)
}

/// Cancels the latest auction of a token, given what encoding the token's
/// transfer to the caller has come to. Only the auction's owner can cancel,
/// and only before the auction's end. Where the encoding has failed and
/// nothing else stands against the call, its error is handed on as `Std`.
pub fn cancel_with(
    store: &mut AuctionStore,
    env: Env,
    info: MessageInfo,
    token_id: String,
    token_address: String,
    encoded: Result<Vec<u8>, cosmwasm_std::StdError>,
) -> (r: Result<Response, ContractError>)
    requires
        old(store).wf(),
    ensures
        final(store).wf(),
        agrees(
            r,
            old(store)@,
            final(store)@,
            cancel_outcome(
                old(store)@,
                env.block,
                info@.sender,
                token_id@,
                token_address@,
                payload_of(encoded),
            ),
        ),
        r matches Err(ContractError::Std(error)) ==> encoded == Err::<Vec<u8>, cosmwasm_std::StdError>(
            error,
        ),
{
    let ghost before = store@;
    let ghost token = token_id@;
    let ghost collection = token_address@;
    let mut token_auction_state = match get_token_auction_state(
        store,
        token_id.as_str(),
        token_address.as_str(),
    ) {
        Ok(auction) => auction,
        Err(e) => {
            return Err(e);
        },
    };
    let ghost a = token_auction_state@;
    if info.sender != token_auction_state.owner {
        return Err(ContractError::Unauthorized {  });
    }
    if token_auction_state.end_time.is_expired(&env.block) {
        return Err(ContractError::AuctionEnded {  });
    }
    let payload = match encoded {
        Ok(bytes) => bytes,
        Err(e) => {
            return Err(ContractError::Std(e));
        },
    };
    let ghost bytes = payload@;
    let mut response = Response::new().add_message(
        Instruction::TransferAssetOut {
            to: info.sender,
            token_id,
            token_address: token_auction_state.token_address.clone(),
            msg: payload,
        },
    );
    // The leading bid, where there is one, goes back to its bidder.
    if token_auction_state.high_bidder_amount != 0 {
        response = response.add_message(
            Instruction::TransferCurrency {
                to: token_auction_state.high_bidder_addr.clone(),
                denom: token_auction_state.coin_denom.clone(),
                amount: token_auction_state.high_bidder_amount,
            },
        );
    }
    assert(response@.messages =~= cancel_response(a, a.owner, token, bytes).messages);
    token_auction_state.is_cancelled = true;
    let id: u128 = token_auction_state.auction_id;
    store.auctions.insert(id, token_auction_state);
    proof {
        let after = auction_cancelled(before, token, collection);
        lemma_latest_auction(before, token, collection);
        assert(store@.auctions =~= after.auctions);
        assert(store@.bids =~= after.bids);
        assert(store@ == after);
        lemma_auction_cancelled_wf(before, token, collection);
    }
    Ok(response)
}

/// Settles the latest auction of a token once its end is reached: the
/// winning bid goes to the owner and the token to the winner, or back to the
/// owner where nobody has bid. `token_owner` is the account that the token's
/// collection names as the token's holder; where that is not the engine, the
/// auction counts as settled already.
pub fn exec_claim(
    store: &AuctionStore,
    env: Env,
    info: MessageInfo,
    token_id: String,
    token_address: String,
    token_owner: String,
) -> (r: Result<Response, ContractError>)
    requires
        store.wf(),
    ensures
        agrees(
            r,
            store@,
            store@,
            claim_outcome(
                store@,
                env.block,
                env.contract.address@,
                token_id@,
                token_address@,
                token_owner@,
                transfer_nft_json(
                    claim_recipient(store@.latest_auction(token_id@, token_address@)),
                    token_id@,
                ),
            ),
        ),
{
    let recipient = match claim_receiver(store, token_id.as_str(), token_address.as_str()) {
        Ok(recipient) => recipient,
        Err(e) => {
            return Err(e);
        },
    };
    let encoded = encode_transfer_nft(recipient.as_str(), token_id.as_str());
    claim_with(store, env, info, token_id, token_address, token_owner, encoded)
}

/// The account that gets the token when its latest auction is settled.
/// Fails with `AuctionDoesNotExist` exactly when the token never had an
/// auction.
pub fn claim_receiver(store: &AuctionStore, token_id: &str, token_address: &str) -> (r: Result<
    String,
    ContractError,
>)
    requires
        store.wf(),
    ensures
        match r {
            Ok(recipient) => store@.has_auction(token_id@, token_address@) && recipient@
                == claim_recipient(store@.latest_auction(token_id@, token_address@)),
            Err(e) => !store@.has_auction(token_id@, token_address@) && e@
                == ErrorView::AuctionDoesNotExist,
        },
{
    let auction = match get_token_auction_state(store, token_id, token_address) {
        Ok(auction) => auction,
        Err(e) => {
            return Err(e);
        },
    };
    if auction.high_bidder_amount == 0 {
        Ok(auction.owner)
    } else {
        Ok(auction.high_bidder_addr)
    }
}

/// Settles the latest auction of a token, given what encoding the token's
/// transfer to its recipient has come to. `token_owner` is the account that
/// the token's collection names as the token's holder. Anyone may settle,
/// once the auction's end is reached. Where the encoding has failed and
/// nothing else stands against the call, its error is handed on as `Std`.
pub fn claim_with(
    store: &AuctionStore,
    env: Env,
    info: MessageInfo,
    token_id: String,
    token_address: String,
    token_owner: String,
    encoded: Result<Vec<u8>, cosmwasm_std::StdError>,
) -> (r: Result<Response, ContractError>)
    requires
        store.wf(),
    ensures
        agrees(
            r,
            store@,
            store@,
            claim_outcome(
                store@,
                env.block,
                env.contract.address@,
                token_id@,
                token_address@,
                token_owner@,
                payload_of(encoded),
            ),
        ),
        r matches Err(ContractError::Std(error)) ==> encoded == Err::<Vec<u8>, cosmwasm_std::StdError>(
            error,
        ),
{
    let ghost token = token_id@;
    let ghost collection = token_address@;
    let token_auction_state = match get_token_auction_state(
        store,
        token_id.as_str(),
        token_address.as_str(),
    ) {
        Ok(auction) => auction,
        Err(e) => {
            return Err(e);
        },
    };
    let ghost a = token_auction_state@;
    if !token_auction_state.end_time.is_expired(&env.block) {
        return Err(ContractError::AuctionNotEnded {  });
    }
    // A token that has another holder than the engine has left escrow.
    if token_owner != env.contract.address {
        return Err(ContractError::AuctionAlreadyClaimed {  });
    }
    let payload = match encoded {
        Ok(bytes) => bytes,
        Err(e) => {
            return Err(ContractError::Std(e));
        },
    };
    let ghost bytes = payload@;
    let amount_text = amount_to_string(token_auction_state.high_bidder_amount);
    let id_text = amount_to_string(token_auction_state.auction_id);
    let mut response = Response::new();
    let recipient = if token_auction_state.high_bidder_amount == 0 {
        token_auction_state.owner.clone()
    } else {
        response = response.add_message(
            Instruction::TransferCurrency {
                to: token_auction_state.owner.clone(),
                denom: token_auction_state.coin_denom.clone(),
                amount: token_auction_state.high_bidder_amount,
            },
        );
        token_auction_state.high_bidder_addr.clone()
    };
    let response = response.add_message(
        Instruction::TransferAssetOut {
            to: recipient.clone(),
            token_id: token_id.clone(),
            token_address: token_auction_state.token_address.clone(),
            msg: payload,
        },
    ).add_attribute("action", "claim").add_attribute("token_id", token_id.as_str()).add_attribute(
        "token_contract",
        token_auction_state.token_address.as_str(),
    ).add_attribute("recipient", recipient.as_str()).add_attribute(
        "winning_bid_amount",
        amount_text.as_str(),
    ).add_attribute("auction_id", id_text.as_str());
    proof {
        let expected = claim_response(a, token, bytes);
        assert(response@.messages =~= expected.messages);
        assert(response@.attributes =~= expected.attributes);
    }
    Ok(response)
}

} // verus!

//! An auction engine for unique assets held in escrow.
//!
//! An owner deposits an asset, bidders compete with strictly increasing bids
//! in one currency inside a time window, and after the window the highest bid
//! is settled. The engine keeps its records in an [`state::AuctionStore`] and
//! answers every operation with the transfers that the caller has to carry
//! out.

pub mod contract;
pub mod error;
pub mod laws;
pub mod model;
pub mod msg;
pub mod query;
pub mod response;
pub mod state;
pub mod text;
pub mod time;
pub mod validity;

use crate::contract::{exec_cancel, exec_claim, exec_handle_receive_cw721, exec_place_bid};
use crate::error::{ContractError, ErrorView};
use crate::model::{agrees, execute_outcome};
use crate::msg::{ExecuteMsg, InstantiateMsg, QueryMsg};
use crate::query::{
    infos_view, least, listing, option_text, page_limit, page_of, query_auction_state,
    read_auction_infos, read_bids,
};
use crate::response::{Env, MessageInfo, Response, ResponseView};
use crate::state::{bids_view, AuctionInfo, AuctionStore, Bid, StoreView, TokenAuctionState};
use vstd::prelude::*;

verus! {

/// Sets the engine up: whatever the store held, it is empty afterwards, and
/// the first auction will get the id one.
pub fn instantiate(store: &mut AuctionStore, env: Env, info: MessageInfo, msg: InstantiateMsg) -> (r:
    Result<Response, ContractError>)
    ensures
        final(store)@ == StoreView::empty(),
        final(store).wf(),
        r matches Ok(response) && response@ == ResponseView::empty(),
{
    *store = AuctionStore::new();
    Ok(Response::new())
}

/// Carries out one operation on the store.
pub fn execute(store: &mut AuctionStore, env: Env, info: MessageInfo, msg: ExecuteMsg) -> (r: Result<
    Response,
    ContractError,
>)
    requires
        old(store).wf(),
    ensures
        final(store).wf(),
        agrees(r, old(store)@, final(store)@, execute_outcome(old(store)@, env, info@, msg)),
{
    match msg {
        ExecuteMsg::ReceiveNft(notice) => exec_handle_receive_cw721(store, env, info, notice),
        ExecuteMsg::PlaceBid { token_id, token_address } => exec_place_bid(
            store,
            env,
            info,
            token_id,
            token_address,
        ),
        ExecuteMsg::CancelAuction { token_id, token_address } => exec_cancel(
            store,
            env,
            info,
            token_id,
            token_address,
        ),
        ExecuteMsg::Claim { token_id, token_address, token_owner } => exec_claim(
            store,
            env,
            info,
            token_id,
            token_address,
            token_owner,
        ),
    }
}

/// The answer to a question about the records.
#[derive(Debug, PartialEq)]
pub enum QueryResponse {
    AuctionInfos(Vec<AuctionInfo>),
    AuctionState(TokenAuctionState),
    Bids(Vec<Bid>),
}

/// Whether `r` answers the question `msg` about the store `s`: with the
/// listing, the auction or the page of bids asked for, or with
/// `AuctionDoesNotExist` where the auction asked for is not there.
pub open spec fn answers(r: Result<QueryResponse, ContractError>, s: StoreView, msg: QueryMsg) -> bool {
    match msg {
        QueryMsg::AuctionInfos { token_address, start_after, limit } => {
            let all = listing(s.infos, option_text(token_address), option_text(start_after));
            r matches Ok(QueryResponse::AuctionInfos(infos)) && infos_view(infos@) == all.take(
                least(all.len() as int, page_limit(limit)),
            )
        },
        QueryMsg::AuctionState { auction_id } => if s.auctions.contains_key(auction_id) {
            r matches Ok(QueryResponse::AuctionState(auction)) && auction@
                == s.auctions[auction_id]
        } else {
            r matches Err(e) && e@ == ErrorView::AuctionDoesNotExist
        },
        QueryMsg::Bids { auction_id, start_after, limit, order_by } => if s.bids.contains_key(
            auction_id,
        ) {
            r matches Ok(QueryResponse::Bids(page)) && bids_view(page@) == page_of(
                s.bids[auction_id],
                start_after,
                limit,
                order_by,
            )
        } else {
            r matches Err(e) && e@ == ErrorView::AuctionDoesNotExist
        },
    }
}

/// Answers one question about the store.
pub fn query(store: &AuctionStore, env: Env, msg: QueryMsg) -> (r: Result<
    QueryResponse,
    ContractError,
>)
    ensures
        answers(r, store@, msg),
{
    match msg {
        QueryMsg::AuctionInfos { token_address, start_after, limit } => {
            match read_auction_infos(store, token_address, start_after, limit) {
                Ok(infos) => Ok(QueryResponse::AuctionInfos(infos)),
                Err(e) => Err(e),
            }
        },
        QueryMsg::AuctionState { auction_id } => {
            match query_auction_state(store, auction_id) {
                Ok(auction) => Ok(QueryResponse::AuctionState(auction)),
                Err(e) => Err(e),
            }
        },
        QueryMsg::Bids { auction_id, start_after, limit, order_by } => {
            match read_bids(store, auction_id, start_after, limit, order_by) {
                Ok(page) => Ok(QueryResponse::Bids(page)),
                Err(e) => Err(e),
            }
        },
    }
}

} // verus!

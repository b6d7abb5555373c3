//! The messages that the engine takes.

use crate::state::OrderBy;
use vstd::prelude::*;

verus! {

/// Sets the engine up. It carries nothing.
#[derive(Clone, Debug, PartialEq)]
pub struct InstantiateMsg {}

/// What the depositor of an asset asks for with the deposit.
#[derive(Clone, Debug, PartialEq)]
pub enum Cw721CustomMsg {
    /// Open an auction for the asset: from `start_time`, in milliseconds
    /// since the epoch, for `duration` milliseconds, in the currency
    /// `coin_denom`.
    StartAuction { start_time: u64, duration: u64, coin_denom: String, min_bid: Option<u128> },
}

/// The notice that a collection sends when it has put a token into the
/// engine's custody: who deposited it, which token, and the request that
/// came with it. The call's sender is the collection.
#[derive(Clone, Debug, PartialEq)]
pub struct Cw721ReceiveMsg {
    pub sender: String,
    pub token_id: String,
    pub msg: Cw721CustomMsg,
}

/// An operation that changes the engine's records.
#[derive(Clone, Debug, PartialEq)]
pub enum ExecuteMsg {
    ReceiveNft(Cw721ReceiveMsg),
    PlaceBid { token_id: String, token_address: String },
    CancelAuction { token_id: String, token_address: String },
    /// Settle the latest auction of a token. `token_owner` is the account
    /// that the token's collection names as the token's holder at the time
    /// of the call.
    Claim { token_id: String, token_address: String, token_owner: String },
}

/// A question about the engine's records.
#[derive(Clone, Debug, PartialEq)]
#[allow(inconsistent_fields)]
pub enum QueryMsg {
    AuctionInfos { token_address: Option<String>, start_after: Option<String>, limit: Option<u64> },
    AuctionState { auction_id: u128 },
    Bids {
        auction_id: u128,
        start_after: Option<u64>,
        limit: Option<u64>,
        order_by: Option<OrderBy>,
    },
}

} // verus!

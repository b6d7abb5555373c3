use vstd::prelude::*;

verus! {

/// The error type of the outside serialiser. Nothing is known of a value of
/// it; the engine only carries it to the caller.
#[verifier::external_type_specification]
#[verifier::external_body]
pub struct ExStdError(cosmwasm_std::StdError);

/// Why an operation was refused. A refused operation changes nothing.
#[derive(Debug, PartialEq)]
pub enum ContractError {
    Std(cosmwasm_std::StdError),
    InvalidExpiration {},
    InvalidStartTime { current_time: u64, current_block: u64 },
    Overflow {},
    AuctionDoesNotExist {},
    AuctionCancelled {},
    AuctionNotStarted {},
    AuctionEnded {},
    AuctionNotEnded {},
    AuctionAlreadyClaimed {},
    TokenOwnerCannotBid {},
    InvalidFunds { msg: String },
    HighestBidderCannotOutBid {},
    BidSmallerThanHighestBid {},
    Unauthorized {},
}

/// A [`ContractError`] with its text as a sequence of characters and without
/// the outside error value.
pub enum ErrorView {
    Std,
    InvalidExpiration,
    InvalidStartTime { current_time: u64, current_block: u64 },
    Overflow,
    AuctionDoesNotExist,
    AuctionCancelled,
    AuctionNotStarted,
    AuctionEnded,
    AuctionNotEnded,
    AuctionAlreadyClaimed,
    TokenOwnerCannotBid,
    InvalidFunds { msg: Seq<char> },
    HighestBidderCannotOutBid,
    BidSmallerThanHighestBid,
    Unauthorized,
}

impl View for ContractError {
    type V = ErrorView;

    open spec fn view(&self) -> ErrorView {
        match *self {
            ContractError::Std(_) => ErrorView::Std,
            ContractError::InvalidExpiration {  } => ErrorView::InvalidExpiration,
            ContractError::InvalidStartTime { current_time, current_block } => {
                ErrorView::InvalidStartTime { current_time, current_block }
            },
            ContractError::Overflow {  } => ErrorView::Overflow,
            ContractError::AuctionDoesNotExist {  } => ErrorView::AuctionDoesNotExist,
            ContractError::AuctionCancelled {  } => ErrorView::AuctionCancelled,
            ContractError::AuctionNotStarted {  } => ErrorView::AuctionNotStarted,
            ContractError::AuctionEnded {  } => ErrorView::AuctionEnded,
            ContractError::AuctionNotEnded {  } => ErrorView::AuctionNotEnded,
            ContractError::AuctionAlreadyClaimed {  } => ErrorView::AuctionAlreadyClaimed,
            ContractError::TokenOwnerCannotBid {  } => ErrorView::TokenOwnerCannotBid,
            ContractError::InvalidFunds { msg } => ErrorView::InvalidFunds { msg: msg@ },
            ContractError::HighestBidderCannotOutBid {  } => ErrorView::HighestBidderCannotOutBid,
            ContractError::BidSmallerThanHighestBid {  } => ErrorView::BidSmallerThanHighestBid,
            ContractError::Unauthorized {  } => ErrorView::Unauthorized,
        }
    }
}

} // verus!

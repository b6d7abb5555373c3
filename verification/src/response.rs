//! What the engine is told about a call and what it answers: the caller's
//! context, and the transfers and attributes of a response.

use crate::time::BlockInfo;
use vstd::prelude::*;

verus! {

/// An amount of one currency.
#[derive(Clone, Debug, PartialEq)]
pub struct Coin {
    pub denom: String,
    pub amount: u128,
}

/// The value of a [`Coin`].
pub struct CoinView {
    pub denom: Seq<char>,
    pub amount: u128,
}

impl View for Coin {
    type V = CoinView;

    open spec fn view(&self) -> CoinView {
        CoinView { denom: self.denom@, amount: self.amount }
    }
}

/// Who calls, and with which funds.
#[derive(Clone, Debug, PartialEq)]
pub struct MessageInfo {
    pub sender: String,
    pub funds: Vec<Coin>,
}

/// The value of a [`MessageInfo`].
pub struct MessageInfoView {
    pub sender: Seq<char>,
    pub funds: Seq<CoinView>,
}

impl View for MessageInfo {
    type V = MessageInfoView;

    open spec fn view(&self) -> MessageInfoView {
        MessageInfoView { sender: self.sender@, funds: self.funds@.map_values(|c: Coin| c@) }
    }
}

/// The engine's own account.
#[derive(Clone, Debug, PartialEq)]
pub struct ContractInfo {
    pub address: String,
}

/// Where and when a call runs.
#[derive(Clone, Debug, PartialEq)]
pub struct Env {
    pub block: BlockInfo,
    pub contract: ContractInfo,
}

/// A transfer that the caller has to carry out for the engine.
#[derive(Debug, PartialEq)]
pub enum Instruction {
    /// Pay `amount` of `denom` out of escrow to `to`.
    TransferCurrency { to: String, denom: String, amount: u128 },
    /// Hand the token `token_id` of the collection `token_address` to `to`;
    /// `msg` is the message for the collection, encoded.
    TransferAssetOut { to: String, token_id: String, token_address: String, msg: Vec<u8> },
}

/// The value of an [`Instruction`].
pub enum InstructionView {
    TransferCurrency { to: Seq<char>, denom: Seq<char>, amount: u128 },
    TransferAssetOut {
        to: Seq<char>,
        token_id: Seq<char>,
        token_address: Seq<char>,
        msg: Seq<u8>,
    },
}

impl View for Instruction {
    type V = InstructionView;

    open spec fn view(&self) -> InstructionView {
        match *self {
            Instruction::TransferCurrency { to, denom, amount } => InstructionView::TransferCurrency {
                to: to@,
                denom: denom@,
                amount,
            },
            Instruction::TransferAssetOut {
                to,
                token_id,
                token_address,
                msg,
            } => InstructionView::TransferAssetOut {
                to: to@,
                token_id: token_id@,
                token_address: token_address@,
                msg: msg@,
            },
        }
    }
}

/// One key and value of a response.
#[derive(Debug, PartialEq)]
pub struct Attribute {
    pub key: String,
    pub value: String,
}

/// The value of an [`Attribute`].
pub struct AttributeView {
    pub key: Seq<char>,
    pub value: Seq<char>,
}

impl View for Attribute {
    type V = AttributeView;

    open spec fn view(&self) -> AttributeView {
        AttributeView { key: self.key@, value: self.value@ }
    }
}

/// An attribute as a value.
pub open spec fn attr_view(key: Seq<char>, value: Seq<char>) -> AttributeView {
    AttributeView { key, value }
}

/// Makes an attribute of a key and a value.
pub fn attr(key: &str, value: &str) -> (a: Attribute)
    ensures
        a@ == attr_view(key@, value@),
{
    Attribute { key: String::from_str(key), value: String::from_str(value) }
}

/// The answer to an operation that was carried out: the transfers it asks
/// for, in their order, and what it reports.
#[derive(Debug, PartialEq)]
pub struct Response {
    pub messages: Vec<Instruction>,
    pub attributes: Vec<Attribute>,
}

/// The value of a [`Response`].
pub struct ResponseView {
    pub messages: Seq<InstructionView>,
    pub attributes: Seq<AttributeView>,
}

impl View for Response {
    type V = ResponseView;

    open spec fn view(&self) -> ResponseView {
        ResponseView {
            messages: self.messages@.map_values(|m: Instruction| m@),
            attributes: self.attributes@.map_values(|a: Attribute| a@),
        }
    }
}

impl ResponseView {
    /// The answer that asks for nothing and reports nothing.
    pub open spec fn empty() -> ResponseView {
        ResponseView { messages: Seq::empty(), attributes: Seq::empty() }
    }

    pub open spec fn with_message(self, message: InstructionView) -> ResponseView {
        ResponseView { messages: self.messages.push(message), ..self }
    }

    pub open spec fn with_attribute(self, key: Seq<char>, value: Seq<char>) -> ResponseView {
        ResponseView { attributes: self.attributes.push(attr_view(key, value)), ..self }
    }
}

impl Response {
    pub fn new() -> (r: Response)
        ensures
            r@ == ResponseView::empty(),
    {
        let r = Response { messages: Vec::new(), attributes: Vec::new() };
        assert(r@.messages =~= Seq::empty());
        assert(r@.attributes =~= Seq::empty());
        r
    }

    /// Adds one transfer after those already asked for.
    pub fn add_message(self, message: Instruction) -> (r: Response)
        ensures
            r@ == self@.with_message(message@),
    {
        let mut r = self;
        r.messages.push(message);
        assert(r@.messages =~= self@.messages.push(message@));
        assert(r@.attributes =~= self@.attributes);
        r
    }

    /// Adds one attribute after those already there.
    pub fn add_attribute(self, key: &str, value: &str) -> (r: Response)
        ensures
            r@ == self@.with_attribute(key@, value@),
    {
        let mut r = self;
        let a = attr(key, value);
        r.attributes.push(a);
        assert(r@.attributes =~= self@.attributes.push(attr_view(key@, value@)));
        assert(r@.messages =~= self@.messages);
        r
    }
}

} // verus!

//! What a contract answers: messages for the chain to run, and events.
use vstd::prelude::*;
use crate::payment::{Coin, CoinView};

verus! {

/// A message that the chain runs for a contract.
#[derive(Debug, PartialEq, Eq)]
pub enum CosmosMsg {
    /// Sends coins of the contract to an address.
    BankSend { to_address: String, amount: Vec<Coin> },
    /// Calls a contract, and sends it coins.
    WasmExecute { contract_addr: String, msg: Vec<u8>, funds: Vec<Coin> },
    /// A protobuf message of the given type.
    Any { type_url: String, value: Vec<u8> },
}

/// What a message is.
pub enum MsgView {
    BankSend { to_address: Seq<char>, amount: Seq<CoinView> },
    WasmExecute { contract_addr: Seq<char>, msg: Seq<u8>, funds: Seq<CoinView> },
    Any { type_url: Seq<char>, value: Seq<u8> },
}

/// What each coin of a list is.
pub open spec fn coins_view(coins: Seq<Coin>) -> Seq<CoinView> {
    coins.map_values(|c: Coin| c@)
}

impl View for CosmosMsg {
    type V = MsgView;

    open spec fn view(&self) -> MsgView {
        match self {
            CosmosMsg::BankSend { to_address, amount } => MsgView::BankSend {
                to_address: to_address@,
                amount: coins_view(amount@),
            },
            CosmosMsg::WasmExecute { contract_addr, msg, funds } => MsgView::WasmExecute {
                contract_addr: contract_addr@,
                msg: msg@,
                funds: coins_view(funds@),
            },
            CosmosMsg::Any { type_url, value } => MsgView::Any {
                type_url: type_url@,
                value: value@,
            },
        }
    }
}

/// An attribute of an event.
#[derive(Debug, PartialEq, Eq)]
pub struct Attribute {
    pub key: String,
    pub value: String,
}

/// Something that happened, for the log of the chain.
#[derive(Debug, PartialEq, Eq)]
pub struct Event {
    pub kind: String,
    pub attributes: Vec<Attribute>,
}

/// What an event is: its kind, and its keys with their values.
pub struct EventView {
    pub kind: Seq<char>,
    pub attributes: Seq<(Seq<char>, Seq<char>)>,
}

impl View for Event {
    type V = EventView;

    open spec fn view(&self) -> EventView {
        EventView {
            kind: self.kind@,
            attributes: self.attributes@.map_values(|a: Attribute| (a.key@, a.value@)),
        }
    }
}

/// The answer of a contract, with messages of type `M`.
#[derive(Debug, PartialEq, Eq)]
pub struct Response<M> {
    pub messages: Vec<M>,
    pub events: Vec<Event>,
}

/// What an answer is.
pub struct ResponseView {
    pub messages: Seq<MsgView>,
    pub events: Seq<EventView>,
}

impl View for Response<CosmosMsg> {
    type V = ResponseView;

    open spec fn view(&self) -> ResponseView {
        ResponseView {
            messages: self.messages@.map_values(|m: CosmosMsg| m@),
            events: self.events@.map_values(|e: Event| e@),
        }
    }
}

impl ResponseView {
    /// The answer without messages and events.
    pub open spec fn empty() -> ResponseView {
        ResponseView { messages: Seq::empty(), events: Seq::empty() }
    }

    /// The answer with one more message.
    pub open spec fn message(self, msg: MsgView) -> ResponseView {
        ResponseView { messages: self.messages.push(msg), events: self.events }
    }

    /// The answer with one more event.
    pub open spec fn event(self, event: EventView) -> ResponseView {
        ResponseView { messages: self.messages, events: self.events.push(event) }
    }
}

/// The list of one coin.
pub open spec fn one_coin(amount: nat, denom: Seq<char>) -> Seq<CoinView> {
    seq![CoinView { denom, amount }]
}

/// The list of one coin.
pub fn coins(amount: u128, denom: &String) -> (r: Vec<Coin>)
    ensures
        coins_view(r@) == one_coin(amount as nat, denom@),
{
    let mut list: Vec<Coin> = Vec::new();
    list.push(Coin { denom: denom.clone(), amount });
    assert(coins_view(list@) =~= one_coin(amount as nat, denom@));
    list
}

impl Response<CosmosMsg> {
    /// The answer without messages and events.
    pub fn empty() -> (r: Self)
        ensures
            r@ == ResponseView::empty(),
    {
        let r = Response { messages: Vec::new(), events: Vec::new() };
        assert(r@.messages =~= Seq::<MsgView>::empty());
        assert(r@.events =~= Seq::<EventView>::empty());
        r
    }

    /// The answer with one more message.
    pub fn add_message(self, msg: CosmosMsg) -> (r: Self)
        ensures
            r@ == self@.message(msg@),
    {
        let mut messages = self.messages;
        messages.push(msg);
        let r = Response { messages, events: self.events };
        assert(r@.messages =~= self@.messages.push(msg@));
        r
    }

    /// The answer with one more event.
    pub fn add_event(self, event: Event) -> (r: Self)
        ensures
            r@ == self@.event(event@),
    {
        let mut events = self.events;
        events.push(event);
        let r = Response { messages: self.messages, events };
        assert(r@.events =~= self@.events.push(event@));
        r
    }
}

} // verus!

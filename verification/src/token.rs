//! The receipt token: minted to depositors, burned when they withdraw.
use vstd::prelude::*;
use crate::message::{CosmosMsg, MsgView};

verus! {

/// How a token presents itself.
#[derive(Debug, PartialEq, Eq)]
pub struct TokenMetadata {
    pub description: String,
    pub display: String,
    pub name: String,
    pub symbol: String,
    pub uri: Option<String>,
    pub uri_hash: Option<String>,
}

/// What token metadata says.
pub struct MetadataView {
    pub description: Seq<char>,
    pub display: Seq<char>,
    pub name: Seq<char>,
    pub symbol: Seq<char>,
    pub uri: Option<Seq<char>>,
    pub uri_hash: Option<Seq<char>>,
}

/// The text of an optional string.
pub open spec fn text(s: Option<String>) -> Option<Seq<char>> {
    match s {
        Some(s) => Some(s@),
        None => None,
    }
}

impl View for TokenMetadata {
    type V = MetadataView;

    open spec fn view(&self) -> MetadataView {
        MetadataView {
            description: self.description@,
            display: self.display@,
            name: self.name@,
            symbol: self.symbol@,
            uri: text(self.uri),
            uri_hash: text(self.uri_hash),
        }
    }
}

/// A token that a contract administers.
#[derive(Debug, PartialEq, Eq)]
pub struct TokenFactory {
    /// The address of the contract.
    pub contract: String,
    /// The name of the token within the chain.
    pub id: String,
}

/// The denomination of a token.
pub open spec fn token_denom(id: Seq<char>) -> Seq<char> {
    "x/"@ + id
}

/// The encoded request to create a token.
pub uninterp spec fn create_value(contract: Seq<char>, id: Seq<char>, metadata: MetadataView) -> Seq<u8>;

/// The encoded request to mint a token.
pub uninterp spec fn mint_value(contract: Seq<char>, id: Seq<char>, amount: u128, recipient: Seq<char>) -> Seq<u8>;

/// The encoded request to burn a token.
pub uninterp spec fn burn_value(contract: Seq<char>, id: Seq<char>, amount: u128) -> Seq<u8>;

/// The message that creates a token.
pub open spec fn create_message(contract: Seq<char>, id: Seq<char>, metadata: MetadataView) -> MsgView {
    MsgView::Any {
        type_url: "/thorchain.denom.v1.MsgCreateDenom"@,
        value: create_value(contract, id, metadata),
    }
}

/// The message that mints `amount` of a token to `recipient`.
pub open spec fn mint_message(contract: Seq<char>, id: Seq<char>, amount: nat, recipient: Seq<char>) -> MsgView {
    MsgView::Any {
        type_url: "/thorchain.denom.v1.MsgMintTokens"@,
        value: mint_value(contract, id, amount as u128, recipient),
    }
}

/// The message that burns `amount` of a token that the contract holds.
pub open spec fn burn_message(contract: Seq<char>, id: Seq<char>, amount: nat) -> MsgView {
    MsgView::Any {
        type_url: "/thorchain.denom.v1.MsgBurnTokens"@,
        value: burn_value(contract, id, amount as u128),
    }
}

/// Calls `rujira_rs::TokenFactory::denom`, which puts `x/` before the name.
#[verifier::external_body]
fn factory_denom(contract: &str, id: &str) -> (r: String)
    ensures
        r@ == token_denom(id@),
{
    let block = cosmwasm_std::BlockInfo { height: 0, time: Default::default(), chain_id: String::new() };
    let contract = cosmwasm_std::ContractInfo { address: cosmwasm_std::Addr::unchecked(contract) };
    let env = cosmwasm_std::Env { block, transaction: None, contract };
    rujira_rs::TokenFactory::new(&env, id).denom()
}

/// Calls `rujira_rs::TokenFactory::create_msg`.
///
/// It returns a protobuf message of type `MsgCreateDenom`. What the message encodes depends on
/// the address of the contract, the name and the metadata alone.
#[verifier::external_body]
fn factory_create(contract: &str, id: &str, metadata: &TokenMetadata) -> (r: Option<CosmosMsg>)
    ensures
        r is Some,
        r->0@ == (MsgView::Any {
            type_url: "/thorchain.denom.v1.MsgCreateDenom"@,
            value: create_value(contract@, id@, metadata@),
        }),
{
    let block = cosmwasm_std::BlockInfo { height: 0, time: Default::default(), chain_id: String::new() };
    let contract = cosmwasm_std::ContractInfo { address: cosmwasm_std::Addr::unchecked(contract) };
    let env = cosmwasm_std::Env { block, transaction: None, contract };
    let metadata = rujira_rs::TokenMetadata {
        description: metadata.description.clone(),
        display: metadata.display.clone(),
        name: metadata.name.clone(),
        symbol: metadata.symbol.clone(),
        uri: metadata.uri.clone(),
        uri_hash: metadata.uri_hash.clone(),
    };
    match rujira_rs::TokenFactory::new(&env, id).create_msg(metadata) {
        cosmwasm_std::CosmosMsg::Any(any) => Some(CosmosMsg::Any { type_url: any.type_url, value: any.value.to_vec() }),
        _ => None,
    }
}

/// Calls `rujira_rs::TokenFactory::mint_msg`.
///
/// It returns a protobuf message of type `MsgMintTokens`. What the message encodes depends on
/// the address of the contract, the name, the amount and the recipient alone.
#[verifier::external_body]
fn factory_mint(contract: &str, id: &str, amount: u128, recipient: &str) -> (r: Option<CosmosMsg>)
    ensures
        r is Some,
        r->0@ == (MsgView::Any {
            type_url: "/thorchain.denom.v1.MsgMintTokens"@,
            value: mint_value(contract@, id@, amount, recipient@),
        }),
{
    let block = cosmwasm_std::BlockInfo { height: 0, time: Default::default(), chain_id: String::new() };
    let contract = cosmwasm_std::ContractInfo { address: cosmwasm_std::Addr::unchecked(contract) };
    let env = cosmwasm_std::Env { block, transaction: None, contract };
    let recipient = cosmwasm_std::Addr::unchecked(recipient);
    match rujira_rs::TokenFactory::new(&env, id).mint_msg(cosmwasm_std::Uint128::new(amount), recipient) {
        cosmwasm_std::CosmosMsg::Any(any) => Some(CosmosMsg::Any { type_url: any.type_url, value: any.value.to_vec() }),
        _ => None,
    }
}

/// Calls `rujira_rs::TokenFactory::burn_msg`.
///
/// It returns a protobuf message of type `MsgBurnTokens`. What the message encodes depends on
/// the address of the contract, the name and the amount alone.
#[verifier::external_body]
fn factory_burn(contract: &str, id: &str, amount: u128) -> (r: Option<CosmosMsg>)
    ensures
        r is Some,
        r->0@ == (MsgView::Any {
            type_url: "/thorchain.denom.v1.MsgBurnTokens"@,
            value: burn_value(contract@, id@, amount),
        }),
{
    let block = cosmwasm_std::BlockInfo { height: 0, time: Default::default(), chain_id: String::new() };
    let contract = cosmwasm_std::ContractInfo { address: cosmwasm_std::Addr::unchecked(contract) };
    let env = cosmwasm_std::Env { block, transaction: None, contract };
    match rujira_rs::TokenFactory::new(&env, id).burn_msg(cosmwasm_std::Uint128::new(amount)) {
        cosmwasm_std::CosmosMsg::Any(any) => Some(CosmosMsg::Any { type_url: any.type_url, value: any.value.to_vec() }),
        _ => None,
    }
}

impl TokenFactory {
    /// The denomination of the token.
    pub fn denom(&self) -> (r: String)
        ensures
            r@ == token_denom(self.id@),
    {
        factory_denom(self.contract.as_str(), self.id.as_str())
    }

    /// The message that creates the token.
    pub fn create_msg(&self, metadata: &TokenMetadata) -> (r: CosmosMsg)
        ensures
            r@ == create_message(self.contract@, self.id@, metadata@),
    {
        factory_create(self.contract.as_str(), self.id.as_str(), metadata).unwrap()
    }

    /// The message that mints `amount` to `recipient`.
    pub fn mint_msg(&self, amount: u128, recipient: &String) -> (r: CosmosMsg)
        ensures
            r@ == mint_message(self.contract@, self.id@, amount as nat, recipient@),
    {
        factory_mint(self.contract.as_str(), self.id.as_str(), amount, recipient.as_str()).unwrap()
    }

    /// The message that burns `amount`.
    pub fn burn_msg(&self, amount: u128) -> (r: CosmosMsg)
        ensures
            r@ == burn_message(self.contract@, self.id@, amount as nat),
    {
        factory_burn(self.contract.as_str(), self.id.as_str(), amount).unwrap()
    }
}

} // verus!

//! Callbacks: funds sent back to the caller together with data that it chose.
use vstd::prelude::*;
use crate::error::{ContractError, ErrorView};
use crate::message::{one_coin, CosmosMsg, MsgView};
use crate::payment::Coin;

verus! {

/// The data that a caller wants to get back, encoded by the caller.
#[derive(Debug, PartialEq, Eq)]
pub struct CallbackData {
    pub data: Vec<u8>,
}

/// The encoded call that hands the data back, or the text of the error that encoding it gives.
pub uninterp spec fn callback_payload(data: Seq<u8>) -> Result<Seq<u8>, Seq<char>>;

/// The message that calls `address` back with `data` and sends it `amount` of `denom`.
pub open spec fn callback_message(data: Seq<u8>, address: Seq<char>, amount: nat, denom: Seq<char>) -> Result<MsgView, ErrorView> {
    match callback_payload(data) {
        Ok(msg) => Ok(
            MsgView::WasmExecute { contract_addr: address, msg, funds: one_coin(amount, denom) },
        ),
        Err(text) => Err(ErrorView::Std(text)),
    }
}

/// Calls `rujira_rs::CallbackData::to_message` with no data besides the callback's.
///
/// It returns a call of the given contract, which carries the given funds. What the call says
/// depends on the callback's data alone; so does whether it can be encoded.
#[verifier::external_body]
fn callback_to_message(data: &Vec<u8>, address: &str, amount: u128, denom: &str) -> (r: Result<CosmosMsg, String>)
    ensures
        match r {
            Ok(msg) => callback_message(data@, address@, amount as nat, denom@) == Ok::<_, ErrorView>(msg@),
            Err(text) => callback_payload(data@) == Err::<Seq<u8>, _>(text@),
        },
{
    let callback = rujira_rs::CallbackData(cosmwasm_std::Binary::new(data.clone()));
    let address = cosmwasm_std::Addr::unchecked(address);
    let funds = cosmwasm_std::coins(amount, denom);
    let msg = callback.to_message(&address, cosmwasm_std::Empty {}, funds).map_err(|e| e.to_string())?;
    match msg.into() {
        cosmwasm_std::CosmosMsg::<cosmwasm_std::Empty>::Wasm(cosmwasm_std::WasmMsg::Execute { contract_addr, msg, funds }) => {
            let funds = funds.into_iter().map(|c| Coin { denom: c.denom, amount: c.amount.u128() }).collect();
            Ok(CosmosMsg::WasmExecute { contract_addr, msg: msg.to_vec(), funds })
        },
        _ => Err(String::new()),
    }
}

impl CallbackData {
    /// The message that calls `address` back and sends it `amount` of `denom`.
    pub fn to_message(&self, address: &String, amount: u128, denom: &String) -> (r: Result<CosmosMsg, ContractError>)
        ensures
            match r {
                Ok(msg) => callback_message(self.data@, address@, amount as nat, denom@) == Ok::<_, ErrorView>(
                    msg@,
                ),
                Err(e) => callback_message(self.data@, address@, amount as nat, denom@) == Err::<MsgView, _>(e@),
            },
    {
        match callback_to_message(&self.data, address.as_str(), amount, denom.as_str()) {
            Ok(msg) => Ok(msg),
            Err(text) => Err(ContractError::Std(text)),
        }
    }
}

} // verus!

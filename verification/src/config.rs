//! The configuration of a vault.
use vstd::prelude::*;
use crate::address::Address;
use crate::decimal::{one, Decimal, ONE};
use crate::error::{ContractError, ErrorView};
use crate::interest::Interest;
use crate::token::TokenMetadata;

verus! {

/// What a vault is set up with.
#[derive(Debug, PartialEq, Eq)]
pub struct InstantiateMsg {
    /// The denomination that can be deposited and lent.
    pub denom: String,
    /// How the receipt token presents itself.
    pub receipt: TokenMetadata,
    pub interest: Interest,
    /// The part of all interest that goes to the fee address.
    pub fee: Decimal,
    pub fee_address: Address,
}

/// The configuration that a vault keeps.
#[derive(Debug, PartialEq, Eq)]
pub struct Config {
    pub denom: String,
    pub interest: Interest,
    pub fee: Decimal,
    pub fee_address: String,
}

impl Config {
    /// The interest model is valid, and the fee is at most all of the interest.
    pub open spec fn wf(self) -> bool {
        self.interest.wf() && self.fee.atomics <= one()
    }

    /// The text that refuses the configuration; nothing where it is valid.
    pub open spec fn fault(self) -> Option<Seq<char>> {
        match self.interest.fault() {
            Some(text) => Some(text),
            None => if self.fee.atomics > one() {
                Some("fee must be <= 1"@)
            } else {
                None
            },
        }
    }

    /// The configuration that a message asks for, if its fee address is valid.
    pub fn new(msg: &InstantiateMsg) -> (r: Result<Config, ContractError>)
        ensures
            match r {
                Ok(config) => {
                    &&& config.denom == msg.denom
                    &&& config.interest == msg.interest
                    &&& config.fee == msg.fee
                    &&& msg.fee_address.validated == Ok::<_, String>(config.fee_address)
                },
                Err(e) => msg.fee_address.outcome() == Err::<Seq<char>, _>(e@),
            },
    {
        match msg.fee_address.validate() {
            Ok(fee_address) => Ok(
                Config { denom: msg.denom.clone(), interest: msg.interest, fee: msg.fee, fee_address },
            ),
            Err(e) => Err(e),
        }
    }

    /// Whether the configuration is valid, and if not, why.
    pub fn validate(&self) -> (r: Result<(), ContractError>)
        ensures
            match r {
                Ok(()) => self.fault() is None && self.wf(),
                Err(e) => self.fault() is Some && !self.wf() && e@ == ErrorView::Std(self.fault()->0),
            },
    {
        match self.interest.validate() {
            Ok(()) => if self.fee.atomics > ONE {
                Err(ContractError::Std("fee must be <= 1".to_owned()))
            } else {
                Ok(())
            },
            Err(message) => Err(ContractError::Std(message)),
        }
    }
}

} // verus!

//! Addresses in messages, together with the chain's verdict on them.
use vstd::prelude::*;
use crate::error::{ContractError, ErrorView};

verus! {

/// An address as it was written in a message, and what the chain's address validation made of it:
/// the valid address, or the text of the error.
#[derive(Debug, PartialEq, Eq)]
pub struct Address {
    pub text: String,
    pub validated: Result<String, String>,
}

impl Address {
    /// The valid address, or the error.
    pub open spec fn outcome(self) -> Result<Seq<char>, ErrorView> {
        match self.validated {
            Ok(address) => Ok(address@),
            Err(message) => Err(ErrorView::Std(message@)),
        }
    }

    /// The valid address, or the error.
    pub fn validate(&self) -> (r: Result<String, ContractError>)
        ensures
            match r {
                Ok(address) => self.outcome() == Ok::<_, ErrorView>(address@) && self.validated
                    == Ok::<_, String>(address),
                Err(e) => self.outcome() == Err::<Seq<char>, _>(e@),
            },
    {
        match &self.validated {
            Ok(address) => Ok(address.clone()),
            Err(message) => Err(ContractError::Std(message.clone())),
        }
    }
}

} // verus!

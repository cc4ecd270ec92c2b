//! An account: it runs the messages that the chain hands it, and takes no others.
use vstd::prelude::*;
use crate::error::{ContractError, ErrorView};
use crate::message::{Event, Response};
use crate::version::{contract_version, present_version, ContractVersion};

verus! {

/// Sets an account up: the version to record, and an empty answer.
pub fn instantiate<M>() -> (r: (ContractVersion, Response<M>))
    ensures
        r.0@ == present_version("rujira-account"@),
        r.1.messages@ == Seq::<M>::empty(),
        r.1.events@ == Seq::<Event>::empty(),
{
    (contract_version("rujira-account"), Response { messages: Vec::new(), events: Vec::new() })
}

/// Nobody may call an account.
pub fn execute<M>() -> (r: Result<Response<M>, ContractError>)
    ensures
        r is Err,
        r->Err_0@ == ErrorView::Unauthorized,
{
    Err(ContractError::Unauthorized)
}

/// Runs the message that the chain hands over.
pub fn sudo<M>(msg: M) -> (r: Result<Response<M>, ContractError>)
    ensures
        r is Ok,
        r->Ok_0.messages@ == seq![msg],
        r->Ok_0.events@ == Seq::<Event>::empty(),
{
    let mut messages: Vec<M> = Vec::new();
    messages.push(msg);
    assert(messages@ =~= seq![msg]);
    Ok(Response { messages, events: Vec::new() })
}

/// An account answers no queries.
pub fn query() -> (r: Result<Vec<u8>, ContractError>)
    ensures
        r is Err,
        r->Err_0@ == ErrorView::Unauthorized,
{
    Err(ContractError::Unauthorized)
}

} // verus!

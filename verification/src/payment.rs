//! Coins, and the funds that come with a message.
use vstd::prelude::*;
use crate::error::{PaymentError, PaymentErrorView};

verus! {

/// An amount of one denomination.
#[derive(Debug, PartialEq, Eq)]
pub struct Coin {
    pub denom: String,
    pub amount: u128,
}

/// What a coin is.
pub struct CoinView {
    pub denom: Seq<char>,
    pub amount: nat,
}

impl View for Coin {
    type V = CoinView;

    open spec fn view(&self) -> CoinView {
        CoinView { denom: self.denom@, amount: self.amount as nat }
    }
}

/// Who sent a message, and the funds sent along.
#[derive(Debug, PartialEq, Eq)]
pub struct MessageInfo {
    pub sender: String,
    pub funds: Vec<Coin>,
}

/// What is paid in `denom`: exactly one coin, not empty and of that denomination.
pub open spec fn payment(funds: Seq<Coin>, denom: Seq<char>) -> Result<nat, PaymentErrorView> {
    if funds.len() == 0 {
        Err(PaymentErrorView::NoFunds)
    } else if funds.len() > 1 {
        Err(PaymentErrorView::MultipleDenoms)
    } else if funds[0].amount == 0 {
        Err(PaymentErrorView::NoFunds)
    } else if funds[0].denom@ != denom {
        Err(PaymentErrorView::MissingDenom(denom))
    } else {
        Ok(funds[0].amount as nat)
    }
}

/// The amount paid in `denom`.
///
/// Calls `cw_utils::must_pay`, which asks for exactly one coin, not empty and of that
/// denomination, and returns its amount.
#[verifier::external_body]
pub(crate) fn must_pay(info: &MessageInfo, denom: &str) -> (r: Result<u128, PaymentError>)
    ensures
        match r {
            Ok(amount) => payment(info.funds@, denom@) == Ok::<_, PaymentErrorView>(amount as nat),
            Err(e) => payment(info.funds@, denom@) == Err::<nat, _>(e@),
        },
{
    let sender = cosmwasm_std::Addr::unchecked(info.sender.as_str());
    let funds = info.funds.iter().map(|c| cosmwasm_std::coin(c.amount, c.denom.as_str())).collect();
    match cw_utils::must_pay(&cosmwasm_std::MessageInfo { sender, funds }, denom) {
        Ok(amount) => Ok(amount.u128()),
        Err(cw_utils::PaymentError::MissingDenom(d)) => Err(PaymentError::MissingDenom(d)),
        Err(cw_utils::PaymentError::ExtraDenom(d)) => Err(PaymentError::ExtraDenom(d)),
        Err(cw_utils::PaymentError::MultipleDenoms {}) => Err(PaymentError::MultipleDenoms),
        Err(cw_utils::PaymentError::NoFunds {}) => Err(PaymentError::NoFunds),
        Err(cw_utils::PaymentError::NonPayable {}) => Err(PaymentError::NonPayable),
    }
}

} // verus!

//! The errors of the contracts.
use vstd::prelude::*;

verus! {

/// Why a payment is refused.
#[derive(Debug, PartialEq, Eq)]
pub enum PaymentError {
    MissingDenom(String),
    ExtraDenom(String),
    MultipleDenoms,
    NoFunds,
    NonPayable,
}

/// Why a share pool refuses a request.
#[derive(Clone, Copy, Debug, PartialEq, Eq, Structural)]
pub enum SharePoolError {
    ShareOverflow,
    ZeroAmount,
    InvalidDeposit,
    ZeroShares,
}

/// Why a contract refuses a request.
#[derive(Debug, PartialEq, Eq)]
pub enum ContractError {
    /// The caller is not allowed to do this.
    Unauthorized,
    /// An address, a rate model or a configuration is not valid, for the reason given.
    Std(String),
    Payment(PaymentError),
    SharePool(SharePoolError),
    /// A quantity is outside the range of the number that has to hold it.
    Overflow,
    /// The vault does not hold the funds that would have to leave it.
    InsufficientLiquidity,
    /// The debt would exceed the limit of the borrower.
    BorrowLimit,
}

/// What a payment error says.
pub enum PaymentErrorView {
    MissingDenom(Seq<char>),
    ExtraDenom(Seq<char>),
    MultipleDenoms,
    NoFunds,
    NonPayable,
}

/// What a contract error says.
pub enum ErrorView {
    Unauthorized,
    Std(Seq<char>),
    Payment(PaymentErrorView),
    SharePool(SharePoolError),
    Overflow,
    InsufficientLiquidity,
    BorrowLimit,
}

impl View for PaymentError {
    type V = PaymentErrorView;

    open spec fn view(&self) -> PaymentErrorView {
        match self {
            PaymentError::MissingDenom(denom) => PaymentErrorView::MissingDenom(denom@),
            PaymentError::ExtraDenom(denom) => PaymentErrorView::ExtraDenom(denom@),
            PaymentError::MultipleDenoms => PaymentErrorView::MultipleDenoms,
            PaymentError::NoFunds => PaymentErrorView::NoFunds,
            PaymentError::NonPayable => PaymentErrorView::NonPayable,
        }
    }
}

impl View for ContractError {
    type V = ErrorView;

    open spec fn view(&self) -> ErrorView {
        match self {
            ContractError::Unauthorized => ErrorView::Unauthorized,
            ContractError::Std(message) => ErrorView::Std(message@),
            ContractError::Payment(error) => ErrorView::Payment(error@),
            ContractError::SharePool(error) => ErrorView::SharePool(*error),
            ContractError::Overflow => ErrorView::Overflow,
            ContractError::InsufficientLiquidity => ErrorView::InsufficientLiquidity,
            ContractError::BorrowLimit => ErrorView::BorrowLimit,
        }
    }
}

} // verus!

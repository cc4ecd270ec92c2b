//! The requests that a vault takes, and its answers to queries.
use vstd::prelude::*;
use crate::address::Address;
use crate::borrowers::Borrower;
use crate::callback::CallbackData;
use crate::decimal::Decimal;
use crate::interest::Interest;

verus! {

/// A request to a vault.
#[derive(Debug, PartialEq, Eq)]
pub enum ExecuteMsg {
    /// Deposit the asset and get receipt tokens.
    Deposit { callback: Option<CallbackData> },
    /// Give receipt tokens back and get the asset.
    Withdraw { callback: Option<CallbackData> },
    /// A request of a contract that may borrow.
    Market(MarketMsg),
}

/// A request of a contract that may borrow.
#[derive(Debug, PartialEq, Eq)]
pub enum MarketMsg {
    /// Borrow the asset.
    Borrow {
        amount: u128,
        callback: Option<CallbackData>,
        /// The address that the debt is allocated to.
        delegate: Option<Address>,
    },
    /// Repay debt with the funds sent along.
    Repay {
        /// The address whose allocated debt is repaid, instead of any debt of the caller.
        delegate: Option<Address>,
    },
}

/// A request of the chain itself.
#[derive(Debug, PartialEq, Eq)]
pub enum SudoMsg {
    /// Let a contract borrow, up to a limit.
    SetBorrower { contract: Address, limit: u128 },
    /// Replace the interest model.
    SetInterest(Interest),
}

/// An address in a query, and the borrower that is stored at it, if there is one.
#[derive(Debug, PartialEq, Eq)]
pub struct Lookup {
    pub addr: Address,
    pub found: Option<Borrower>,
}

/// A query.
#[derive(Debug, PartialEq, Eq)]
pub enum QueryMsg {
    Config,
    Status,
    Borrower { borrower: Lookup },
    Delegate { borrower: Lookup, addr: Address },
    /// The borrowers after an address, as many as the limit allows. `stored` is what is stored from
    /// that address on, in the order of the addresses.
    Borrowers { limit: Option<u8>, start_after: Option<Address>, stored: Vec<Borrower> },
}

#[derive(Debug, PartialEq, Eq)]
pub struct ConfigResponse {
    pub denom: String,
    pub interest: Interest,
}

#[derive(Clone, Copy, Debug, PartialEq, Eq, Structural)]
pub struct PoolResponse {
    /// The assets of the pool.
    pub size: u128,
    /// The shares outstanding.
    pub shares: u128,
    /// The value of one share.
    pub ratio: Decimal,
}

#[derive(Clone, Copy, Debug, PartialEq, Eq, Structural)]
pub struct StatusResponse {
    pub debt_rate: Decimal,
    pub lend_rate: Decimal,
    pub utilization_ratio: Decimal,
    /// When interest was charged last, in nanoseconds.
    pub last_updated: u64,
    pub debt_pool: PoolResponse,
    pub deposit_pool: PoolResponse,
}

#[derive(Debug, PartialEq, Eq)]
pub struct BorrowerResponse {
    pub addr: String,
    pub denom: String,
    /// The most that the borrower may owe after a loan.
    pub limit: u128,
    /// What the borrower owes.
    pub current: u128,
    /// The debt shares of the borrower.
    pub shares: u128,
    /// What the borrower can borrow now.
    pub available: u128,
}

#[derive(Debug, PartialEq, Eq)]
pub struct DelegateResponse {
    pub borrower: BorrowerResponse,
    pub addr: String,
    /// What is owed on behalf of the delegate.
    pub current: u128,
    /// The debt shares allocated to the delegate.
    pub shares: u128,
}

/// The answer to a query.
#[derive(Debug, PartialEq, Eq)]
pub enum QueryResponse {
    Config(ConfigResponse),
    Status(StatusResponse),
    Borrower(BorrowerResponse),
    Delegate(DelegateResponse),
    Borrowers(Vec<BorrowerResponse>),
}

} // verus!

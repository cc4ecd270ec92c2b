//! The share pool: a fund whose members own it in proportion to the shares they hold.
use vstd::prelude::*;
use crate::decimal::{mul_div, multiply_ratio, one, Decimal, ONE};
use crate::error::{ContractError, ErrorView, SharePoolError};

verus! {

#[verifier::external_type_specification]
#[verifier::external_body]
pub struct ExSharePool(rujira_rs::SharePool);

/// The units of the asset that a pool owns: its `size` field.
pub uninterp spec fn pool_size(pool: rujira_rs::SharePool) -> u128;

/// The shares of a pool that are outstanding, in atomic units: its `shares` field.
pub uninterp spec fn pool_atomics(pool: rujira_rs::SharePool) -> u128;

/// What a pool holds.
pub open spec fn pool_view(pool: rujira_rs::SharePool) -> PoolView {
    PoolView { size: pool_size(pool) as nat, atomics: pool_atomics(pool) as nat }
}

/// The size of a pool, and its shares in atomic units.
pub struct PoolView {
    pub size: nat,
    pub atomics: nat,
}

impl PoolView {
    /// A pool that nobody has joined.
    pub open spec fn empty() -> PoolView {
        PoolView { size: 0, atomics: 0 }
    }

    /// The whole shares outstanding.
    pub open spec fn shares(self) -> nat {
        self.atomics / one()
    }

    /// The pool has a whole number of shares, and it has shares exactly if it has assets.
    pub open spec fn wf(self) -> bool {
        &&& self.atomics % one() == 0
        &&& (self.size > 0 <==> self.atomics > 0)
        &&& self.size <= u128::MAX
        &&& self.atomics <= u128::MAX
    }

    /// The part of the pool that `amount` buys, as a decimal.
    pub open spec fn portion(self, amount: nat) -> nat {
        mul_div(amount, one(), self.size)
    }

    /// The shares that are issued for `amount`, in atomic units and before rounding to whole
    /// shares.
    pub open spec fn raw_issuance(self, amount: nat) -> nat {
        mul_div(self.atomics, self.portion(amount), one())
    }

    /// The whole shares that are issued for `amount`.
    pub open spec fn issuance(self, amount: nat) -> nat {
        if self.atomics == 0 {
            amount
        } else {
            self.raw_issuance(amount) / one()
        }
    }

    /// The arithmetic of `join` stays in range.
    pub open spec fn can_join(self, amount: nat) -> bool {
        ||| amount == 0
        ||| {
            &&& self.atomics == 0
            &&& self.size + amount <= u128::MAX
            &&& amount * one() <= u128::MAX
        }
        ||| {
            &&& self.atomics > 0
            &&& self.size > 0
            &&& self.portion(amount) <= u128::MAX
            &&& self.raw_issuance(amount) <= u128::MAX
            &&& self.issuance(amount) > 0 ==> {
                &&& self.size + amount <= u128::MAX
                &&& self.atomics + self.issuance(amount) * one() <= u128::MAX
            }
        }
    }

    /// Buys shares for `amount`: the new pool and the shares issued.
    pub open spec fn join(self, amount: nat) -> Result<(PoolView, nat), SharePoolError> {
        if amount == 0 {
            Err(SharePoolError::ZeroAmount)
        } else if self.issuance(amount) == 0 {
            Err(SharePoolError::ZeroShares)
        } else {
            Ok(
                (
                    PoolView {
                        size: self.size + amount,
                        atomics: self.atomics + self.issuance(amount) * one(),
                    },
                    self.issuance(amount),
                ),
            )
        }
    }

    /// The value of `shares`, rounded down.
    pub open spec fn ownership(self, shares: nat) -> nat {
        if shares == 0 {
            0
        } else {
            mul_div(self.size, shares, self.shares())
        }
    }

    /// The arithmetic of `ownership` stays in range.
    pub open spec fn can_own(self, shares: nat) -> bool {
        shares == 0 || (self.shares() > 0 && self.ownership(shares) <= u128::MAX)
    }

    /// Sells `shares`: the new pool and the amount paid out. The last shares are paid all that
    /// is left.
    pub open spec fn leave(self, shares: nat) -> Result<(PoolView, nat), SharePoolError> {
        if shares == 0 {
            Err(SharePoolError::ZeroAmount)
        } else if shares > self.shares() {
            Err(SharePoolError::ShareOverflow)
        } else if shares == self.shares() {
            Ok((PoolView::empty(), self.size))
        } else {
            Ok(
                (
                    PoolView {
                        size: (self.size - self.ownership(shares)) as nat,
                        atomics: (self.atomics - shares * one()) as nat,
                    },
                    self.ownership(shares),
                ),
            )
        }
    }

    /// The pool with `amount` more assets and no more shares.
    pub open spec fn donated(self, amount: nat) -> PoolView {
        PoolView { size: self.size + amount, atomics: self.atomics }
    }

    /// The arithmetic of `deposit` stays in range.
    pub open spec fn can_deposit(self, amount: nat) -> bool {
        self.size + amount <= u128::MAX && self.donated(amount).can_join(1000)
    }

    /// Adds `amount` to what the shares own. Refused where afterwards nobody could join with
    /// 1000 units without losing more than one percent of them to rounding.
    pub open spec fn deposit(self, amount: nat) -> Result<PoolView, SharePoolError> {
        match self.donated(amount).join(1000) {
            Err(error) => Err(error),
            Ok((joined, shares)) => if joined.ownership(shares) < 990 {
                Err(SharePoolError::InvalidDeposit)
            } else {
                Ok(self.donated(amount))
            },
        }
    }

    /// The value of one share, as a decimal; zero where there is none.
    pub open spec fn ratio(self) -> nat {
        if self.atomics == 0 {
            0
        } else {
            mul_div(self.size * one(), one(), self.atomics)
        }
    }

    /// The arithmetic of `ratio` stays in range.
    pub open spec fn can_ratio(self) -> bool {
        self.atomics == 0 || (self.size * one() <= u128::MAX && self.ratio() <= u128::MAX)
    }

    /// `join`, with an error where a number leaves its range.
    pub open spec fn try_join(self, amount: nat) -> Result<(PoolView, nat), ErrorView> {
        if !self.can_join(amount) {
            Err(ErrorView::Overflow)
        } else {
            match self.join(amount) {
                Ok(joined) => Ok(joined),
                Err(error) => Err(ErrorView::SharePool(error)),
            }
        }
    }

    /// `leave`, with the errors of the contract.
    pub open spec fn try_leave(self, shares: nat) -> Result<(PoolView, nat), ErrorView> {
        match self.leave(shares) {
            Ok(left) => Ok(left),
            Err(error) => Err(ErrorView::SharePool(error)),
        }
    }

    /// `deposit`, with an error where a number leaves its range.
    pub open spec fn try_deposit(self, amount: nat) -> Result<PoolView, ErrorView> {
        if !self.can_deposit(amount) {
            Err(ErrorView::Overflow)
        } else {
            match self.deposit(amount) {
                Ok(pool) => Ok(pool),
                Err(error) => Err(ErrorView::SharePool(error)),
            }
        }
    }

    /// `ownership`, with an error where the pool has no shares or the value leaves its range.
    pub open spec fn try_ownership(self, shares: nat) -> Result<nat, ErrorView> {
        if self.can_own(shares) {
            Ok(self.ownership(shares))
        } else {
            Err(ErrorView::Overflow)
        }
    }

    /// `ratio`, with an error where it leaves its range.
    pub open spec fn try_ratio(self) -> Result<nat, ErrorView> {
        if self.can_ratio() {
            Ok(self.ratio())
        } else {
            Err(ErrorView::Overflow)
        }
    }
}

/// Calls `rujira_rs::SharePool::default`, a pool without assets and without shares.
#[verifier::external_body]
pub(crate) fn empty() -> (r: rujira_rs::SharePool)
    ensures
        pool_view(r) == PoolView::empty(),
{
    rujira_rs::SharePool::default()
}

/// Calls `rujira_rs::SharePool::clone`, which copies both fields.
#[verifier::external_body]
pub(crate) fn copy(pool: &rujira_rs::SharePool) -> (r: rujira_rs::SharePool)
    ensures
        pool_size(r) == pool_size(*pool),
        pool_atomics(r) == pool_atomics(*pool),
{
    pool.clone()
}

/// Calls `rujira_rs::SharePool::size`, which returns the size.
#[verifier::external_body]
pub(crate) fn size(pool: &rujira_rs::SharePool) -> (r: u128)
    ensures
        r == pool_size(*pool),
{
    pool.size().u128()
}

/// Calls `rujira_rs::SharePool::shares`, which returns the whole shares, rounded down.
#[verifier::external_body]
pub(crate) fn shares(pool: &rujira_rs::SharePool) -> (r: u128)
    ensures
        r == pool_view(*pool).shares(),
{
    pool.shares().u128()
}

/// Calls `rujira_rs::SharePool::join`.
///
/// It buys shares as `PoolView::join` says. Its decimal arithmetic panics outside
/// `PoolView::can_join`. A refusal leaves the pool alone.
#[verifier::external_body]
fn share_pool_join(pool: &mut rujira_rs::SharePool, amount: u128) -> (r: Result<u128, SharePoolError>)
    requires
        pool_view(*old(pool)).can_join(amount as nat),
    ensures
        match r {
            Ok(n) => pool_view(*old(pool)).join(amount as nat) == Ok::<_, SharePoolError>(
                (pool_view(*final(pool)), n as nat),
            ),
            Err(e) => pool_view(*old(pool)).join(amount as nat) == Err::<(PoolView, nat), _>(e)
                && pool_view(*final(pool)) == pool_view(*old(pool)),
        },
{
    match pool.join(cosmwasm_std::Uint128::new(amount)) {
        Ok(issued) => Ok(issued.u128()),
        Err(rujira_rs::SharePoolError::ShareOverflow {}) => Err(SharePoolError::ShareOverflow),
        Err(rujira_rs::SharePoolError::ZeroAmount {}) => Err(SharePoolError::ZeroAmount),
        Err(rujira_rs::SharePoolError::InvalidDeposit {}) => Err(SharePoolError::InvalidDeposit),
        Err(rujira_rs::SharePoolError::ZeroShares {}) => Err(SharePoolError::ZeroShares),
    }
}

/// Calls `rujira_rs::SharePool::leave`.
///
/// It sells shares as `PoolView::leave` says. A refusal leaves the pool alone.
#[verifier::external_body]
fn share_pool_leave(pool: &mut rujira_rs::SharePool, shares: u128) -> (r: Result<u128, SharePoolError>)
    ensures
        match r {
            Ok(n) => pool_view(*old(pool)).leave(shares as nat) == Ok::<_, SharePoolError>(
                (pool_view(*final(pool)), n as nat),
            ),
            Err(e) => pool_view(*old(pool)).leave(shares as nat) == Err::<(PoolView, nat), _>(e)
                && pool_view(*final(pool)) == pool_view(*old(pool)),
        },
{
    match pool.leave(cosmwasm_std::Uint128::new(shares)) {
        Ok(claim) => Ok(claim.u128()),
        Err(rujira_rs::SharePoolError::ShareOverflow {}) => Err(SharePoolError::ShareOverflow),
        Err(rujira_rs::SharePoolError::ZeroAmount {}) => Err(SharePoolError::ZeroAmount),
        Err(rujira_rs::SharePoolError::InvalidDeposit {}) => Err(SharePoolError::InvalidDeposit),
        Err(rujira_rs::SharePoolError::ZeroShares {}) => Err(SharePoolError::ZeroShares),
    }
}

/// Calls `rujira_rs::SharePool::deposit`.
///
/// It adds assets as `PoolView::deposit` says. Its arithmetic panics outside
/// `PoolView::can_deposit`. A refusal leaves the pool alone.
#[verifier::external_body]
fn share_pool_deposit(pool: &mut rujira_rs::SharePool, amount: u128) -> (r: Result<(), SharePoolError>)
    requires
        pool_view(*old(pool)).can_deposit(amount as nat),
    ensures
        match r {
            Ok(()) => pool_view(*old(pool)).deposit(amount as nat) == Ok::<_, SharePoolError>(
                pool_view(*final(pool)),
            ),
            Err(e) => pool_view(*old(pool)).deposit(amount as nat) == Err::<PoolView, _>(e)
                && pool_view(*final(pool)) == pool_view(*old(pool)),
        },
{
    match pool.deposit(cosmwasm_std::Uint128::new(amount)) {
        Ok(()) => Ok(()),
        Err(rujira_rs::SharePoolError::ShareOverflow {}) => Err(SharePoolError::ShareOverflow),
        Err(rujira_rs::SharePoolError::ZeroAmount {}) => Err(SharePoolError::ZeroAmount),
        Err(rujira_rs::SharePoolError::InvalidDeposit {}) => Err(SharePoolError::InvalidDeposit),
        Err(rujira_rs::SharePoolError::ZeroShares {}) => Err(SharePoolError::ZeroShares),
    }
}

/// Calls `rujira_rs::SharePool::ownership`.
///
/// It values shares as `PoolView::ownership` says, and panics outside `PoolView::can_own`.
#[verifier::external_body]
fn share_pool_ownership(pool: &rujira_rs::SharePool, shares: u128) -> (r: u128)
    requires
        pool_view(*pool).can_own(shares as nat),
    ensures
        r == pool_view(*pool).ownership(shares as nat),
{
    pool.ownership(cosmwasm_std::Uint128::new(shares)).u128()
}

/// Calls `rujira_rs::SharePool::ratio`.
///
/// It prices one share as `PoolView::ratio` says, and panics outside `PoolView::can_ratio`.
#[verifier::external_body]
fn share_pool_ratio(pool: &rujira_rs::SharePool) -> (r: u128)
    requires
        pool_view(*pool).can_ratio(),
    ensures
        r == pool_view(*pool).ratio(),
{
    pool.ratio().atomics().u128()
}

/// In a pool with whole shares, issuing is multiplying the shares by the part that is bought.
proof fn lemma_whole_shares(pool: PoolView, amount: nat)
    requires
        pool.atomics % one() == 0,
    ensures
        pool.atomics == pool.shares() * one(),
        pool.raw_issuance(amount) == pool.shares() * pool.portion(amount),
{
    let (s, x) = (pool.shares() as int, pool.portion(amount) as int);
    assert(pool.atomics == s * one());
    assert(s * one() * x == s * x * one()) by (nonlinear_arith);
    assert(s * x * one() / one() as int == s * x) by (nonlinear_arith)
        requires one() == 1_000_000_000_000_000_000;
}

/// A pool that is joined stays well-formed.
pub proof fn lemma_join_wf(pool: PoolView, amount: nat)
    requires
        pool.wf(),
        pool.try_join(amount) is Ok,
    ensures
        pool.try_join(amount)->Ok_0.0.wf(),
        pool.try_join(amount)->Ok_0.0.size == pool.size + amount,
        pool.try_join(amount)->Ok_0.0.shares() == pool.shares() + pool.try_join(amount)->Ok_0.1,
        0 < pool.try_join(amount)->Ok_0.1 <= u128::MAX,
{
    lemma_whole_shares(pool, amount);
}

/// A pool that is left stays well-formed, and pays at most what it has.
pub proof fn lemma_leave_wf(pool: PoolView, shares: nat)
    requires
        pool.wf(),
        pool.try_leave(shares) is Ok,
    ensures
        pool.try_leave(shares)->Ok_0.0.wf(),
        pool.try_leave(shares)->Ok_0.1 <= pool.size,
        pool.try_leave(shares)->Ok_0.0.size == pool.size - pool.try_leave(shares)->Ok_0.1,
        pool.try_leave(shares)->Ok_0.0.shares() == pool.shares() - shares,
{
    lemma_whole_shares(pool, 0);
    if shares < pool.shares() {
        let (z, n, s) = (pool.size as int, shares as int, pool.shares() as int);
        assert(0 <= z * n / s < z) by (nonlinear_arith)
            requires 0 < n < s, 0 < z;
        assert((pool.atomics - shares * one()) % one() as int == 0);
    }
}

/// A pool with assets that is added to stays well-formed.
pub proof fn lemma_deposit_wf(pool: PoolView, amount: nat)
    requires
        pool.wf(),
        pool.size > 0,
        pool.try_deposit(amount) is Ok,
    ensures
        pool.try_deposit(amount)->Ok_0 == pool.donated(amount),
        pool.donated(amount).wf(),
        pool.donated(amount).shares() == pool.shares(),
{
}

/// Whether the arithmetic of joining a pool of the given size and whole shares stays in range.
fn join_fits(size: u128, shares: u128, amount: u128) -> (r: bool)
    requires
        shares > 0 ==> size > 0,
        shares * one() <= u128::MAX,
    ensures
        r == (PoolView { size: size as nat, atomics: shares as nat * one() }).can_join(amount as nat),
{
    let ghost pool = PoolView { size: size as nat, atomics: shares as nat * one() };
    proof {
        lemma_whole_shares(pool, amount as nat);
        assert(pool.shares() == shares);
    }
    if amount == 0 {
        return true;
    }
    if shares == 0 {
        return size.checked_add(amount).is_some() && amount.checked_mul(ONE).is_some();
    }
    match multiply_ratio(amount, ONE, size) {
        None => false,
        Some(portion) => match shares.checked_mul(portion) {
            None => false,
            Some(issued) => {
                let whole: u128 = issued / ONE;
                proof {
                    assert(issued == pool.raw_issuance(amount as nat));
                    assert(whole == pool.issuance(amount as nat));
                }
                whole == 0 || (size.checked_add(amount).is_some() && whole <= u128::MAX / ONE - shares)
            },
        },
    }
}

/// Buys shares of `pool` for `amount`, and returns how many.
pub fn join(pool: &mut rujira_rs::SharePool, amount: u128) -> (r: Result<u128, ContractError>)
    requires
        pool_view(*old(pool)).wf(),
    ensures
        match r {
            Ok(n) => pool_view(*old(pool)).try_join(amount as nat) == Ok::<_, ErrorView>(
                (pool_view(*final(pool)), n as nat),
            ),
            Err(e) => pool_view(*old(pool)).try_join(amount as nat) == Err::<(PoolView, nat), _>(e@)
                && pool_view(*final(pool)) == pool_view(*old(pool)),
        },
{
    proof {
        lemma_whole_shares(pool_view(*pool), amount as nat);
    }
    if !join_fits(size(pool), shares(pool), amount) {
        return Err(ContractError::Overflow);
    }
    match share_pool_join(pool, amount) {
        Ok(issued) => Ok(issued),
        Err(error) => Err(ContractError::SharePool(error)),
    }
}

/// Sells shares of `pool`, and returns what they are paid.
pub fn leave(pool: &mut rujira_rs::SharePool, shares: u128) -> (r: Result<u128, ContractError>)
    ensures
        match r {
            Ok(n) => pool_view(*old(pool)).try_leave(shares as nat) == Ok::<_, ErrorView>(
                (pool_view(*final(pool)), n as nat),
            ),
            Err(e) => pool_view(*old(pool)).try_leave(shares as nat) == Err::<(PoolView, nat), _>(e@)
                && pool_view(*final(pool)) == pool_view(*old(pool)),
        },
{
    match share_pool_leave(pool, shares) {
        Ok(claim) => Ok(claim),
        Err(error) => Err(ContractError::SharePool(error)),
    }
}

/// Adds `amount` to what the shares of `pool` own.
pub fn deposit(pool: &mut rujira_rs::SharePool, amount: u128) -> (r: Result<(), ContractError>)
    requires
        pool_view(*old(pool)).wf(),
    ensures
        match r {
            Ok(()) => pool_view(*old(pool)).try_deposit(amount as nat) == Ok::<_, ErrorView>(
                pool_view(*final(pool)),
            ),
            Err(e) => pool_view(*old(pool)).try_deposit(amount as nat) == Err::<PoolView, _>(e@)
                && pool_view(*final(pool)) == pool_view(*old(pool)),
        },
{
    proof {
        lemma_whole_shares(pool_view(*pool), amount as nat);
    }
    match size(pool).checked_add(amount) {
        None => return Err(ContractError::Overflow),
        Some(grown) => {
            if !join_fits(grown, shares(pool), 1000) {
                return Err(ContractError::Overflow);
            }
        },
    }
    match share_pool_deposit(pool, amount) {
        Ok(()) => Ok(()),
        Err(error) => Err(ContractError::SharePool(error)),
    }
}

/// The value of `shares`.
pub fn ownership(pool: &rujira_rs::SharePool, shares: u128) -> (r: Result<u128, ContractError>)
    ensures
        match r {
            Ok(n) => pool_view(*pool).try_ownership(shares as nat) == Ok::<_, ErrorView>(n as nat),
            Err(e) => pool_view(*pool).try_ownership(shares as nat) == Err::<nat, _>(e@),
        },
{
    if shares != 0 && multiply_ratio(size(pool), shares, self::shares(pool)).is_none() {
        return Err(ContractError::Overflow);
    }
    Ok(share_pool_ownership(pool, shares))
}

/// The value of one share, as a decimal.
pub fn ratio(pool: &rujira_rs::SharePool) -> (r: Result<Decimal, ContractError>)
    requires
        pool_view(*pool).wf(),
    ensures
        match r {
            Ok(d) => pool_view(*pool).try_ratio() == Ok::<_, ErrorView>(d.atomics as nat),
            Err(e) => pool_view(*pool).try_ratio() == Err::<nat, _>(e@),
        },
{
    let whole: u128 = shares(pool);
    proof {
        lemma_whole_shares(pool_view(*pool), 0);
    }
    if whole != 0 {
        match size(pool).checked_mul(ONE) {
            None => return Err(ContractError::Overflow),
            Some(numerator) => {
                if multiply_ratio(numerator, ONE, whole * ONE).is_none() {
                    return Err(ContractError::Overflow);
                }
            },
        }
    }
    Ok(Decimal { atomics: share_pool_ratio(pool) })
}

} // verus!

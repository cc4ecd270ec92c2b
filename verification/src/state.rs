//! The ledger of a vault: what depositors own together, and what borrowers owe together.
use vstd::prelude::*;
use crate::config::Config;
use crate::decimal::{lemma_scaled_down, mul_div, multiply_ratio, one, Decimal, ONE};
use crate::error::{ContractError, ErrorView};
use crate::interest::Interest;
use crate::pool;
use crate::pool::{lemma_deposit_wf, lemma_join_wf, lemma_leave_wf, pool_view, PoolView};

verus! {

/// The seconds of a year, for which rates are quoted.
pub const SECONDS_PER_YEAR: u128 = 31_536_000;

/// The nanoseconds of a second.
pub const NANOS_PER_SECOND: u64 = 1_000_000_000;

/// The block in which a message runs.
#[derive(Debug, PartialEq, Eq)]
pub struct Env {
    /// The address of the contract.
    pub contract: String,
    /// The time of the block, in nanoseconds.
    pub time: u64,
}

/// The ledger of a vault.
#[derive(Debug)]
pub struct State {
    /// When interest was charged last, in nanoseconds.
    pub last_updated: u64,
    /// What borrowers owe. Borrowers hold its shares.
    pub debt_pool: rujira_rs::SharePool,
    /// What depositors own. Receipt tokens are its shares.
    pub deposit_pool: rujira_rs::SharePool,
}

/// What a ledger says.
pub struct StateView {
    pub last_updated: nat,
    pub debt: PoolView,
    pub deposit: PoolView,
}

impl View for State {
    type V = StateView;

    open spec fn view(&self) -> StateView {
        StateView {
            last_updated: self.last_updated as nat,
            debt: pool_view(self.debt_pool),
            deposit: pool_view(self.deposit_pool),
        }
    }
}

impl StateView {
    /// Both pools are well-formed, and no more is lent than was deposited.
    pub open spec fn wf(self) -> bool {
        &&& self.debt.wf()
        &&& self.deposit.wf()
        &&& self.debt.size <= self.deposit.size
    }

    /// What the vault holds and can pay out: the deposits that are not lent.
    pub open spec fn liquidity(self) -> nat {
        (self.deposit.size - self.debt.size) as nat
    }

    /// The part of the deposits that is lent, as a decimal, rounded up.
    pub open spec fn utilization(self) -> nat {
        if self.deposit.size == 0 {
            0
        } else {
            (one() - mul_div(self.liquidity(), one(), self.deposit.size)) as nat
        }
    }

    /// The yearly rate that borrowers are charged.
    pub open spec fn debt_rate(self, interest: Interest) -> Result<nat, ErrorView> {
        if interest.rate(self.utilization()) > u128::MAX {
            Err(ErrorView::Overflow)
        } else {
            Ok(interest.rate(self.utilization()))
        }
    }

    /// The yearly rate that the interest is of all deposits.
    pub open spec fn lend_rate(self, interest: Interest) -> Result<nat, ErrorView> {
        match self.debt_rate(interest) {
            Err(error) => Err(error),
            Ok(rate) => Ok(mul_div(rate, self.utilization(), one())),
        }
    }

    /// The whole seconds between the last charge and a time.
    pub open spec fn elapsed(self, now: nat) -> int {
        now / NANOS_PER_SECOND as nat - self.last_updated / NANOS_PER_SECOND as nat
    }

    /// The rate for the time since the last charge.
    pub open spec fn period_rate(self, now: nat, interest: Interest) -> nat {
        mul_div(
            interest.rate(self.utilization()),
            mul_div(self.elapsed(now) as nat, one(), SECONDS_PER_YEAR as nat),
            one(),
        )
    }

    /// The interest on all debt since the last charge.
    pub open spec fn charge(self, now: nat, interest: Interest) -> nat {
        mul_div(self.debt.size, self.period_rate(now, interest), one())
    }

    /// The clock runs forward, and the arithmetic of a charge stays in range. Where nothing is lent
    /// there is nothing to compute.
    pub open spec fn can_charge(self, now: nat, interest: Interest) -> bool {
        &&& self.elapsed(now) >= 0
        &&& self.debt.size > 0 ==> {
            &&& interest.rate(self.utilization()) <= u128::MAX
            &&& self.period_rate(now, interest) <= u128::MAX
            &&& self.charge(now, interest) <= u128::MAX
        }
    }

    /// The ledger after `interest` was credited to the depositors and `fee` was deposited for the
    /// fee address, both at the borrowers' expense, and the shares that the fee buys.
    pub open spec fn charged(self, now: nat, interest: nat, fee: nat) -> Result<(StateView, nat), ErrorView> {
        match (if interest == 0 { Ok(self.deposit) } else { self.deposit.try_deposit(interest) }) {
            Err(error) => Err(error),
            Ok(credited) => match (if interest + fee == 0 { Ok(self.debt) } else { self.debt.try_deposit(interest + fee) }) {
                Err(error) => Err(error),
                Ok(debt) => if fee == 0 {
                    Ok((StateView { last_updated: now, debt, deposit: credited }, 0nat))
                } else {
                    match credited.try_join(fee) {
                        Err(error) => Err(error),
                        Ok((deposit, shares)) => Ok((StateView { last_updated: now, debt, deposit }, shares)),
                    }
                },
            },
        }
    }

    /// The ledger after interest was charged up to a time, and the shares issued for the fee.
    pub open spec fn accrue(self, now: nat, interest: Interest, fee: Decimal) -> Result<(StateView, nat), ErrorView> {
        let charge = self.charge(now, interest);
        let fee = mul_div(charge, fee.atomics as nat, one());
        if !self.can_charge(now, interest) {
            Err(ErrorView::Overflow)
        } else {
            self.charged(now, (charge - fee) as nat, fee)
        }
    }

    /// The ledger after a deposit, and the shares issued for it.
    pub open spec fn deposited(self, amount: nat) -> Result<(StateView, nat), ErrorView> {
        match self.deposit.try_join(amount) {
            Err(error) => Err(error),
            Ok((deposit, shares)) => Ok(
                (StateView { last_updated: self.last_updated, debt: self.debt, deposit }, shares),
            ),
        }
    }

    /// The ledger after shares were given back, and what is paid for them.
    pub open spec fn withdrawn(self, shares: nat) -> Result<(StateView, nat), ErrorView> {
        match self.deposit.try_leave(shares) {
            Err(error) => Err(error),
            Ok((deposit, amount)) => if amount > self.liquidity() {
                Err(ErrorView::InsufficientLiquidity)
            } else {
                Ok((StateView { last_updated: self.last_updated, debt: self.debt, deposit }, amount))
            },
        }
    }

    /// The ledger after a loan, and the debt shares issued for it.
    pub open spec fn borrowed(self, amount: nat) -> Result<(StateView, nat), ErrorView> {
        if amount > self.liquidity() {
            Err(ErrorView::InsufficientLiquidity)
        } else {
            match self.debt.try_join(amount) {
                Err(error) => Err(error),
                Ok((debt, shares)) => Ok(
                    (StateView { last_updated: self.last_updated, debt, deposit: self.deposit }, shares),
                ),
            }
        }
    }

    /// The debt shares that an amount pays off, rounded down.
    pub open spec fn shares_paid(self, amount: nat) -> nat {
        if self.debt.size == 0 {
            amount
        } else {
            mul_div(amount, self.debt.shares(), self.debt.size)
        }
    }

    /// The ledger after a repayment, and the debt shares that it pays off.
    pub open spec fn repaid(self, amount: nat) -> Result<(StateView, nat), ErrorView> {
        let shares = self.shares_paid(amount);
        if shares > u128::MAX {
            Err(ErrorView::Overflow)
        } else {
            match self.debt.try_leave(shares) {
                Err(error) => Err(error),
                Ok((debt, _)) => Ok(
                    (StateView { last_updated: self.last_updated, debt, deposit: self.deposit }, shares),
                ),
            }
        }
    }
}

/// The utilization is at most one, and zero where nothing is lent.
pub proof fn lemma_utilization(state: StateView)
    requires
        state.wf(),
    ensures
        state.utilization() <= one(),
        state.debt.size == 0 ==> state.utilization() == 0,
        state.deposit.size > 0 ==> mul_div(state.liquidity(), one(), state.deposit.size) <= one(),
{
    if state.deposit.size > 0 {
        let (l, d) = (state.liquidity() as int, state.deposit.size as int);
        assert(0 <= l * one() / d <= one()) by (nonlinear_arith)
            requires 0 <= l <= d, 0 < d;
        assert(l == d ==> l * one() / d == one()) by (nonlinear_arith)
            requires 0 < d;
    }
}

/// Charging keeps a ledger well-formed, and raises deposits and debt alike.
pub proof fn lemma_charged(state: StateView, now: nat, interest: nat, fee: nat)
    requires
        state.wf(),
        interest + fee > 0 ==> state.debt.size > 0,
        state.charged(now, interest, fee) is Ok,
    ensures
        state.charged(now, interest, fee)->Ok_0.0.wf(),
        state.charged(now, interest, fee)->Ok_0.0.deposit.size == state.deposit.size + interest + fee,
        state.charged(now, interest, fee)->Ok_0.0.debt.size == state.debt.size + interest + fee,
        state.charged(now, interest, fee)->Ok_0.0.debt.atomics == state.debt.atomics,
        state.charged(now, interest, fee)->Ok_0.1 <= u128::MAX,
{
    if interest > 0 {
        lemma_deposit_wf(state.deposit, interest);
    }
    if interest + fee > 0 {
        lemma_deposit_wf(state.debt, interest + fee);
    }
    if fee > 0 {
        lemma_join_wf(if interest == 0 { state.deposit } else { state.deposit.donated(interest) }, fee);
    }
}

/// A charge is made only where there is debt.
pub proof fn lemma_charge_on_debt(state: StateView, now: nat, interest: Interest)
    ensures
        state.charge(now, interest) > 0 ==> state.debt.size > 0,
{
    let rate = state.period_rate(now, interest);
    assert(0 * rate / one() == 0) by (nonlinear_arith)
        requires one() == 1_000_000_000_000_000_000;
}

impl State {
    /// The ledger of a new vault.
    pub fn init(env: &Env) -> (r: State)
        ensures
            r@ == (StateView {
                last_updated: env.time as nat,
                debt: PoolView::empty(),
                deposit: PoolView::empty(),
            }),
            r@.wf(),
    {
        State { last_updated: env.time, debt_pool: pool::empty(), deposit_pool: pool::empty() }
    }

    /// Another ledger that says the same.
    pub fn copy(&self) -> (r: State)
        ensures
            r@ == self@,
    {
        State {
            last_updated: self.last_updated,
            debt_pool: pool::copy(&self.debt_pool),
            deposit_pool: pool::copy(&self.deposit_pool),
        }
    }

    /// What the vault holds and can pay out.
    pub fn liquidity(&self) -> (r: u128)
        requires
            self@.wf(),
        ensures
            r == self@.liquidity(),
    {
        pool::size(&self.deposit_pool) - pool::size(&self.debt_pool)
    }

    /// The part of the deposits that is lent.
    pub fn utilization(&self) -> (r: Decimal)
        requires
            self@.wf(),
        ensures
            r.atomics == self@.utilization(),
    {
        let deposits: u128 = pool::size(&self.deposit_pool);
        if deposits == 0 {
            return Decimal { atomics: 0 };
        }
        proof {
            lemma_utilization(self@);
        }
        Decimal { atomics: ONE - multiply_ratio(self.liquidity(), ONE, deposits).unwrap() }
    }

    /// The yearly rate that borrowers are charged.
    pub fn debt_rate(&self, interest: &Interest) -> (r: Result<Decimal, ContractError>)
        requires
            self@.wf(),
            interest.wf(),
        ensures
            match r {
                Ok(rate) => self@.debt_rate(*interest) == Ok::<_, ErrorView>(rate.atomics as nat),
                Err(e) => self@.debt_rate(*interest) == Err::<nat, _>(e@),
            },
    {
        let utilization: u128 = self.utilization().atomics;
        proof {
            lemma_utilization(self@);
        }
        if interest.rate_fits(utilization) {
            Ok(Decimal { atomics: interest.rate_at(utilization).unwrap() })
        } else {
            Err(ContractError::Overflow)
        }
    }

    /// The yearly rate that the interest is of all deposits.
    pub fn lend_rate(&self, interest: &Interest) -> (r: Result<Decimal, ContractError>)
        requires
            self@.wf(),
            interest.wf(),
        ensures
            match r {
                Ok(rate) => self@.lend_rate(*interest) == Ok::<_, ErrorView>(rate.atomics as nat),
                Err(e) => self@.lend_rate(*interest) == Err::<nat, _>(e@),
            },
    {
        match self.debt_rate(interest) {
            Err(e) => Err(e),
            Ok(rate) => {
                proof {
                    lemma_utilization(self@);
                    lemma_scaled_down(rate.atomics as nat, self@.utilization());
                }
                Ok(Decimal { atomics: multiply_ratio(rate.atomics, self.utilization().atomics, ONE).unwrap() })
            },
        }
    }

    /// The interest on all debt since the last charge.
    fn charge(&self, now: u64, interest: &Interest) -> (r: Result<u128, ContractError>)
        requires
            self@.wf(),
            interest.wf(),
        ensures
            match r {
                Ok(charge) => self@.can_charge(now as nat, *interest) && charge == self@.charge(
                    now as nat,
                    *interest,
                ),
                Err(e) => !self@.can_charge(now as nat, *interest) && e@ == ErrorView::Overflow,
            },
    {
        let (end, start): (u64, u64) = (now / NANOS_PER_SECOND, self.last_updated / NANOS_PER_SECOND);
        if end < start {
            return Err(ContractError::Overflow);
        }
        let debt: u128 = pool::size(&self.debt_pool);
        if debt == 0 {
            proof {
                lemma_charge_on_debt(self@, now as nat, *interest);
            }
            return Ok(0);
        }
        let rate = match self.debt_rate(interest) {
            Err(e) => return Err(e),
            Ok(rate) => rate,
        };
        let elapsed: u128 = (end - start) as u128;
        let years: u128 = elapsed * ONE / SECONDS_PER_YEAR;
        match multiply_ratio(rate.atomics, years, ONE) {
            None => Err(ContractError::Overflow),
            Some(period) => match multiply_ratio(debt, period, ONE) {
                None => Err(ContractError::Overflow),
                Some(charge) => Ok(charge),
            },
        }
    }

    /// Charges the borrowers the interest since the last charge, credits it to the depositors
    /// less the fee, and deposits the fee. Returns the shares issued for the fee.
    pub fn distribute_interest(&mut self, env: &Env, config: &Config) -> (r: Result<u128, ContractError>)
        requires
            old(self)@.wf(),
            config.wf(),
        ensures
            final(self)@.wf(),
            match r {
                Ok(fees) => old(self)@.accrue(env.time as nat, config.interest, config.fee)
                    == Ok::<_, ErrorView>((final(self)@, fees as nat)),
                Err(e) => old(self)@.accrue(env.time as nat, config.interest, config.fee)
                    == Err::<(StateView, nat), _>(e@) && final(self)@ == old(self)@,
            },
    {
        let ghost before = self@;
        let charge = match self.charge(env.time, &config.interest) {
            Err(e) => return Err(e),
            Ok(charge) => charge,
        };
        proof {
            lemma_scaled_down(charge as nat, config.fee.atomics as nat);
            lemma_charge_on_debt(before, env.time as nat, config.interest);
        }
        let fee: u128 = multiply_ratio(charge, config.fee.atomics, ONE).unwrap();
        let interest: u128 = charge - fee;
        let mut deposit_pool = pool::copy(&self.deposit_pool);
        let mut debt_pool = pool::copy(&self.debt_pool);
        if interest != 0 {
            match pool::deposit(&mut deposit_pool, interest) {
                Err(e) => return Err(e),
                Ok(()) => {
                    proof {
                        lemma_deposit_wf(before.deposit, interest as nat);
                    }
                },
            }
        }
        if charge != 0 {
            match pool::deposit(&mut debt_pool, charge) {
                Err(e) => return Err(e),
                Ok(()) => {},
            }
        }
        let mut fees: u128 = 0;
        if fee != 0 {
            match pool::join(&mut deposit_pool, fee) {
                Err(e) => return Err(e),
                Ok(shares) => {
                    fees = shares;
                },
            }
        }
        self.last_updated = env.time;
        self.deposit_pool = deposit_pool;
        self.debt_pool = debt_pool;
        proof {
            lemma_charged(before, env.time as nat, interest as nat, fee as nat);
        }
        Ok(fees)
    }

    /// Takes a deposit, and returns the shares issued for it.
    pub fn deposit(&mut self, amount: u128) -> (r: Result<u128, ContractError>)
        requires
            old(self)@.wf(),
        ensures
            final(self)@.wf(),
            match r {
                Ok(shares) => old(self)@.deposited(amount as nat) == Ok::<_, ErrorView>(
                    (final(self)@, shares as nat),
                ),
                Err(e) => old(self)@.deposited(amount as nat) == Err::<(StateView, nat), _>(e@)
                    && final(self)@ == old(self)@,
            },
    {
        let ghost before = self@;
        let r = pool::join(&mut self.deposit_pool, amount);
        proof {
            if r is Ok {
                lemma_join_wf(before.deposit, amount as nat);
            }
        }
        r
    }

    /// Takes shares back, and returns what is paid for them.
    pub fn withdraw(&mut self, shares: u128) -> (r: Result<u128, ContractError>)
        requires
            old(self)@.wf(),
        ensures
            final(self)@.wf(),
            match r {
                Ok(amount) => old(self)@.withdrawn(shares as nat) == Ok::<_, ErrorView>(
                    (final(self)@, amount as nat),
                ),
                Err(e) => old(self)@.withdrawn(shares as nat) == Err::<(StateView, nat), _>(e@)
                    && final(self)@ == old(self)@,
            },
    {
        let ghost before = self@;
        let mut deposit_pool = pool::copy(&self.deposit_pool);
        match pool::leave(&mut deposit_pool, shares) {
            Err(e) => Err(e),
            Ok(amount) => {
                proof {
                    lemma_leave_wf(before.deposit, shares as nat);
                }
                if amount > self.liquidity() {
                    return Err(ContractError::InsufficientLiquidity);
                }
                self.deposit_pool = deposit_pool;
                Ok(amount)
            },
        }
    }

    /// Lends an amount, and returns the debt shares issued for it.
    pub fn borrow(&mut self, amount: u128) -> (r: Result<u128, ContractError>)
        requires
            old(self)@.wf(),
        ensures
            final(self)@.wf(),
            match r {
                Ok(shares) => old(self)@.borrowed(amount as nat) == Ok::<_, ErrorView>(
                    (final(self)@, shares as nat),
                ),
                Err(e) => old(self)@.borrowed(amount as nat) == Err::<(StateView, nat), _>(e@)
                    && final(self)@ == old(self)@,
            },
    {
        let ghost before = self@;
        if amount > self.liquidity() {
            return Err(ContractError::InsufficientLiquidity);
        }
        let r = pool::join(&mut self.debt_pool, amount);
        proof {
            if r is Ok {
                lemma_join_wf(before.debt, amount as nat);
            }
        }
        r
    }

    /// Takes a repayment, and returns the debt shares that it pays off.
    pub fn repay(&mut self, amount: u128) -> (r: Result<u128, ContractError>)
        requires
            old(self)@.wf(),
        ensures
            final(self)@.wf(),
            match r {
                Ok(shares) => old(self)@.repaid(amount as nat) == Ok::<_, ErrorView>(
                    (final(self)@, shares as nat),
                ),
                Err(e) => old(self)@.repaid(amount as nat) == Err::<(StateView, nat), _>(e@)
                    && final(self)@ == old(self)@,
            },
    {
        let ghost before = self@;
        let debt: u128 = pool::size(&self.debt_pool);
        let paid = if debt == 0 {
            Some(amount)
        } else {
            multiply_ratio(amount, pool::shares(&self.debt_pool), debt)
        };
        match paid {
            None => Err(ContractError::Overflow),
            Some(shares) => match pool::leave(&mut self.debt_pool, shares) {
                Err(e) => Err(e),
                Ok(_) => {
                    proof {
                        lemma_leave_wf(before.debt, shares as nat);
                    }
                    Ok(shares)
                },
            },
        }
    }
}

} // verus!

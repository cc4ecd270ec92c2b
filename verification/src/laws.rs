//! What holds of a vault over all requests.
use vstd::prelude::*;
use vstd::arithmetic::div_mod::{lemma_div_is_ordered, lemma_fundamental_div_mod};
use crate::address::Address;
use crate::borrowers::{cut, is_listed, lemma_listed, listed, Borrower, BorrowerView};
use crate::callback::{callback_message, CallbackData};
use crate::config::Config;
use crate::contract::{
    address_text, answers, borrower_response, deposited, executed, execution, market, market_borrow,
    market_repay, payout, receipt_id, repayment, start_address, withdrawn,
};
use crate::decimal::{lemma_scaled_down, mul_div, one, Decimal};
use crate::error::{ContractError, ErrorView};
use crate::events::repay_event;
use crate::interest::{lemma_rate_parts, Interest};
use crate::message::{coins_view, one_coin, MsgView, ResponseView};
use crate::msg::{ExecuteMsg, Lookup, MarketMsg, QueryMsg, QueryResponse};
use crate::payment::{payment, CoinView, MessageInfo};
use crate::pool::{lemma_deposit_wf, lemma_join_wf, lemma_leave_wf, PoolView};
use crate::state::{lemma_charge_on_debt, lemma_charged, lemma_utilization, Env, StateView};
use crate::token::{burn_message, mint_message, token_denom};

verus! {

/// A quotient that is rounded down, times its divisor, is at most the dividend.
proof fn lemma_rounded_down(value: nat, numerator: nat, denominator: nat)
    requires
        denominator > 0,
    ensures
        mul_div(value, numerator, denominator) * denominator <= value * numerator,
        value * numerator < (mul_div(value, numerator, denominator) + 1) * denominator,
{
    lemma_fundamental_div_mod((value * numerator) as int, denominator as int);
    let q = mul_div(value, numerator, denominator);
    assert(q * denominator == denominator * q) by (nonlinear_arith);
    assert((q + 1) * denominator == denominator * q + denominator) by (nonlinear_arith);
}

/// A part of nothing is nothing.
proof fn lemma_nothing(factor: nat, denominator: nat)
    requires
        denominator > 0,
    ensures
        mul_div(0, factor, denominator) == 0,
        mul_div(factor, 0, denominator) == 0,
{
    assert(0 * factor == 0 && factor * 0 == 0) by (nonlinear_arith);
    assert(0nat / denominator == 0) by (nonlinear_arith)
        requires denominator > 0;
}

/// Rounded quotients keep the order of their factors.
proof fn lemma_mul_div_ordered(a: nat, b: nat, c: nat, d: nat, denominator: nat)
    requires
        a <= c,
        b <= d,
        denominator > 0,
    ensures
        mul_div(a, b, denominator) <= mul_div(c, d, denominator),
{
    assert(a * b <= c * d) by (nonlinear_arith)
        requires a <= c, b <= d;
    lemma_div_is_ordered((a * b) as int, (c * d) as int, denominator as int);
}

/// Shares are sold at their value at most: what is issued for an amount is worth no more than it.
proof fn lemma_issuance_fair(pool: PoolView, amount: nat)
    requires
        pool.wf(),
        pool.try_join(amount) is Ok,
    ensures
        pool.issuance(amount) * pool.size <= amount * pool.shares(),
{
    if pool.atomics > 0 {
        let (s, z, x, n) = (pool.shares(), pool.size, pool.portion(amount), pool.issuance(amount));
        lemma_rounded_down(amount, one(), z);
        lemma_rounded_down(pool.atomics, x, one());
        lemma_fundamental_div_mod(pool.raw_issuance(amount) as int, one() as int);
        assert(pool.atomics == s * one());
        assert(n * one() <= pool.raw_issuance(amount));
        assert(pool.raw_issuance(amount) * one() <= pool.atomics * x);
        assert(n * z <= amount * s) by (nonlinear_arith)
            requires
                n * one() <= pool.raw_issuance(amount),
                pool.raw_issuance(amount) * one() <= (s * one()) * x,
                x * z <= amount * one(),
                one() == 1_000_000_000_000_000_000,
        {
            let r = pool.raw_issuance(amount);
            assert(n * one() * one() <= r * one());
            assert(n * one() * one() <= s * one() * x);
            assert(n * one() <= s * x);
            assert(n * one() * z <= s * x * z);
            assert(s * (x * z) <= s * (amount * one()));
            assert(n * z * one() <= s * amount * one());
        }
    }
}

/// Joining never lowers the value of a share.
proof fn lemma_join_price(pool: PoolView, amount: nat)
    requires
        pool.wf(),
        pool.try_join(amount) is Ok,
    ensures
        pool.try_join(amount)->Ok_0.0.size * pool.shares() >= pool.size * pool.try_join(amount)->Ok_0.0.shares(),
{
    lemma_issuance_fair(pool, amount);
    lemma_join_wf(pool, amount);
    let (z, s, n) = (pool.size, pool.shares(), pool.issuance(amount));
    assert((z + amount) * s >= z * (s + n)) by (nonlinear_arith)
        requires n * z <= amount * s;
}

/// Leaving never lowers the value of the shares that stay.
proof fn lemma_leave_price(pool: PoolView, shares: nat)
    requires
        pool.wf(),
        pool.try_leave(shares) is Ok,
    ensures
        pool.try_leave(shares)->Ok_0.0.size * pool.shares() >= pool.size * pool.try_leave(shares)->Ok_0.0.shares(),
{
    lemma_leave_wf(pool, shares);
    let (z, s) = (pool.size, pool.shares());
    if shares < s {
        let c = pool.ownership(shares);
        lemma_rounded_down(z, shares, s);
        assert((z - c) * s >= z * (s - shares)) by (nonlinear_arith)
            requires c * s <= z * shares;
    } else {
        let left = PoolView::empty().shares();
        assert(z * left == 0 && 0 * s == 0) by (nonlinear_arith)
            requires left == 0;
    }
}

/// The comparison of share values carries over.
proof fn lemma_price_transitive(a: PoolView, b: PoolView, c: PoolView)
    requires
        b.size * a.shares() >= a.size * b.shares(),
        c.size * b.shares() >= b.size * c.shares(),
        b.shares() > 0 || c.shares() == 0,
    ensures
        c.size * a.shares() >= a.size * c.shares(),
{
    let (az, bz, cz) = (a.size, b.size, c.size);
    let (s, t, u) = (a.shares(), b.shares(), c.shares());
    if t > 0 {
        assert(cz * s >= az * u) by (nonlinear_arith)
            requires bz * s >= az * t, cz * t >= bz * u, t > 0,
        {
            assert((cz * t) * s >= (bz * u) * s);
            assert((bz * s) * u >= (az * t) * u);
            assert((cz * s) * t >= (az * u) * t);
        }
    } else {
        assert(az * u == 0) by (nonlinear_arith)
            requires u == 0;
        assert(cz * s >= 0) by (nonlinear_arith);
    }
}

/// Charging interest moves no funds: what the vault holds stays as it is, and so do the debt
/// shares, while the deposits and the debt grow by the same amount. The ledger stays well-formed.
pub proof fn accrual_keeps_liquidity(state: StateView, now: nat, interest: Interest, fee: Decimal)
    requires
        state.wf(),
        fee.atomics <= one(),
        state.accrue(now, interest, fee) is Ok,
    ensures
        state.accrue(now, interest, fee)->Ok_0.0.wf(),
        state.accrue(now, interest, fee)->Ok_0.0.last_updated == now,
        state.accrue(now, interest, fee)->Ok_0.0.liquidity() == state.liquidity(),
        state.accrue(now, interest, fee)->Ok_0.0.debt.size == state.debt.size + state.charge(now, interest),
        state.accrue(now, interest, fee)->Ok_0.0.deposit.size == state.deposit.size + state.charge(now, interest),
        state.accrue(now, interest, fee)->Ok_0.0.debt.shares() == state.debt.shares(),
{
    let charge = state.charge(now, interest);
    let fee_part = mul_div(charge, fee.atomics as nat, one());
    lemma_scaled_down(charge, fee.atomics as nat);
    lemma_charge_on_debt(state, now, interest);
    lemma_charged(state, now, (charge - fee_part) as nat, fee_part);
}

/// Where no time has passed since the last charge, charging changes nothing and costs no fee, on
/// every ledger whose rate is in range.
pub proof fn no_time_no_interest(state: StateView, interest: Interest, fee: Decimal)
    requires
        state.wf(),
        state.debt_rate(interest) is Ok,
    ensures
        state.accrue(state.last_updated, interest, fee) == Ok::<_, ErrorView>((state, 0nat)),
{
    let (now, rate) = (state.last_updated, interest.rate(state.utilization()));
    assert(state.elapsed(now) == 0);
    lemma_nothing(one(), 31_536_000);
    lemma_nothing(rate, one());
    lemma_nothing(state.debt.size, one());
    lemma_nothing(fee.atomics as nat, one());
    assert(state.period_rate(now, interest) == 0);
    assert(state.charge(now, interest) == 0);
}

/// Interest is charged once: charging up to a time again changes nothing and costs no fee. A charge
/// raises the utilization; the rate there has to be in range.
pub proof fn accrual_is_idempotent(state: StateView, now: nat, interest: Interest, fee: Decimal)
    requires
        state.wf(),
        fee.atomics <= one(),
        state.accrue(now, interest, fee) is Ok,
        state.accrue(now, interest, fee)->Ok_0.0.debt_rate(interest) is Ok,
    ensures
        state.accrue(now, interest, fee)->Ok_0.0.accrue(now, interest, fee) == Ok::<_, ErrorView>(
            (state.accrue(now, interest, fee)->Ok_0.0, 0nat),
        ),
{
    accrual_keeps_liquidity(state, now, interest, fee);
    no_time_no_interest(state.accrue(now, interest, fee)->Ok_0.0, interest, fee);
}

/// Where nothing is lent, time costs nothing, and no rate model stands in the way of a request.
pub proof fn no_debt_no_interest(state: StateView, now: nat, interest: Interest, fee: Decimal)
    requires
        state.wf(),
        state.debt.size == 0,
        now / 1_000_000_000 >= state.last_updated / 1_000_000_000,
    ensures
        state.accrue(now, interest, fee) == Ok::<_, ErrorView>(
            (StateView { last_updated: now, debt: state.debt, deposit: state.deposit }, 0nat),
        ),
{
    lemma_charge_on_debt(state, now, interest);
    lemma_nothing(fee.atomics as nat, one());
}

/// The longer debt stands, the more interest is charged on it.
pub proof fn charge_grows_with_time(state: StateView, earlier: nat, later: nat, interest: Interest)
    requires
        state.last_updated <= earlier <= later,
    ensures
        state.charge(earlier, interest) <= state.charge(later, interest),
{
    let rate = interest.rate(state.utilization());
    let (e, l) = (state.elapsed(earlier) as nat, state.elapsed(later) as nat);
    lemma_mul_div_ordered(e, one(), l, one(), 31_536_000);
    lemma_mul_div_ordered(
        rate,
        mul_div(e, one(), 31_536_000),
        rate,
        mul_div(l, one(), 31_536_000),
        one(),
    );
    lemma_mul_div_ordered(
        state.debt.size,
        state.period_rate(earlier, interest),
        state.debt.size,
        state.period_rate(later, interest),
        one(),
    );
}

/// The more of the deposits is lent, the higher the rate, from the base rate to the sum of the
/// base rate and both steps.
pub proof fn rate_grows_with_utilization(interest: Interest, low: nat, high: nat)
    requires
        interest.wf(),
        low <= high <= one(),
    ensures
        interest.base_rate.atomics <= interest.rate(low) <= interest.rate(high) <= interest.ceiling(),
{
    lemma_rate_parts(interest, low);
    lemma_rate_parts(interest, high);
    let target = interest.target_utilization.atomics as nat;
    let (used, used_high) = (
        if low < target { low } else { target },
        if high < target { high } else { target },
    );
    lemma_mul_div_ordered(used, one(), used_high, one(), target);
    lemma_mul_div_ordered(
        mul_div(used, one(), target),
        interest.step1.atomics as nat,
        mul_div(used_high, one(), target),
        interest.step1.atomics as nat,
        one(),
    );
    if low > target {
        let room = (one() - target) as nat;
        lemma_mul_div_ordered((low - target) as nat, one(), (high - target) as nat, one(), room);
        lemma_mul_div_ordered(
            mul_div((low - target) as nat, one(), room),
            interest.step2.atomics as nat,
            mul_div((high - target) as nat, one(), room),
            interest.step2.atomics as nat,
            one(),
        );
    }
}

/// The utilization is between zero and one, and lenders earn at most the rate that borrowers pay.
pub proof fn lenders_earn_at_most_the_debt_rate(state: StateView, interest: Interest)
    requires
        state.wf(),
    ensures
        state.utilization() <= one(),
        state.debt_rate(interest) is Ok <==> state.lend_rate(interest) is Ok,
        state.debt_rate(interest) is Ok ==> state.lend_rate(interest)->Ok_0 <= state.debt_rate(interest)->Ok_0,
{
    lemma_utilization(state);
    if state.debt_rate(interest) is Ok {
        lemma_scaled_down(state.debt_rate(interest)->Ok_0, state.utilization());
    }
}

/// A deposit adds to what the vault holds exactly what was paid in.
pub proof fn deposit_adds_liquidity(state: StateView, amount: nat)
    requires
        state.wf(),
        state.deposited(amount) is Ok,
    ensures
        state.deposited(amount)->Ok_0.0.wf(),
        state.deposited(amount)->Ok_0.0.liquidity() == state.liquidity() + amount,
{
    lemma_join_wf(state.deposit, amount);
}

/// A withdrawal takes from what the vault holds exactly what is paid out, and no more than there
/// is.
pub proof fn withdrawal_is_covered(state: StateView, shares: nat)
    requires
        state.wf(),
        state.withdrawn(shares) is Ok,
    ensures
        state.withdrawn(shares)->Ok_0.0.wf(),
        state.withdrawn(shares)->Ok_0.1 <= state.liquidity(),
        state.withdrawn(shares)->Ok_0.0.liquidity() == state.liquidity() - state.withdrawn(shares)->Ok_0.1,
{
    lemma_leave_wf(state.deposit, shares);
}

/// A loan takes from what the vault holds exactly what is lent, and no more than there is.
pub proof fn loan_is_covered(state: StateView, amount: nat)
    requires
        state.wf(),
        state.borrowed(amount) is Ok,
    ensures
        state.borrowed(amount)->Ok_0.0.wf(),
        amount <= state.liquidity(),
        state.borrowed(amount)->Ok_0.0.liquidity() == state.liquidity() - amount,
{
    lemma_join_wf(state.debt, amount);
}

/// A repayment writes off no more debt than was paid.
pub proof fn repayment_covers_debt(state: StateView, amount: nat)
    requires
        state.wf(),
        state.repaid(amount) is Ok,
    ensures
        state.repaid(amount)->Ok_0.0.wf(),
        state.liquidity() <= state.repaid(amount)->Ok_0.0.liquidity() <= state.liquidity() + amount,
{
    let (z, s, n) = (state.debt.size, state.debt.shares(), state.shares_paid(amount));
    lemma_leave_wf(state.debt, n);
    if z > 0 {
        lemma_rounded_down(amount, s, z);
        if n == s {
            assert(z <= amount) by (nonlinear_arith)
                requires s * z <= amount * s, s > 0;
        } else {
            lemma_rounded_down(z, n, s);
            let c = state.debt.ownership(n);
            assert(c <= amount) by (nonlinear_arith)
                requires c * s <= z * n, n * z <= amount * s, s > 0;
        }
    }
}

/// The value of a share of the deposits never falls, whatever is deposited.
pub proof fn deposit_keeps_share_value(state: StateView, amount: nat)
    requires
        state.wf(),
        state.deposited(amount) is Ok,
    ensures
        state.deposited(amount)->Ok_0.0.deposit.size * state.deposit.shares() >= state.deposit.size
            * state.deposited(amount)->Ok_0.0.deposit.shares(),
{
    lemma_join_price(state.deposit, amount);
}

/// The value of a share of the deposits never falls, whoever withdraws first.
pub proof fn withdrawal_keeps_share_value(state: StateView, shares: nat)
    requires
        state.wf(),
        state.withdrawn(shares) is Ok,
    ensures
        state.withdrawn(shares)->Ok_0.0.deposit.size * state.deposit.shares() >= state.deposit.size
            * state.withdrawn(shares)->Ok_0.0.deposit.shares(),
{
    lemma_leave_price(state.deposit, shares);
}

/// The value of a share of the deposits never falls when interest is charged, fee or not.
pub proof fn accrual_keeps_share_value(state: StateView, now: nat, interest: Interest, fee: Decimal)
    requires
        state.wf(),
        fee.atomics <= one(),
        state.accrue(now, interest, fee) is Ok,
    ensures
        state.accrue(now, interest, fee)->Ok_0.0.deposit.size * state.deposit.shares() >= state.deposit.size
            * state.accrue(now, interest, fee)->Ok_0.0.deposit.shares(),
{
    let charge = state.charge(now, interest);
    let fee_part = mul_div(charge, fee.atomics as nat, one());
    lemma_scaled_down(charge, fee.atomics as nat);
    lemma_charge_on_debt(state, now, interest);
    let earned = (charge - fee_part) as nat;
    let credited = if earned == 0 { state.deposit } else { state.deposit.donated(earned) };
    if earned > 0 {
        lemma_deposit_wf(state.deposit, earned);
    }
    assert(credited.size * state.deposit.shares() >= state.deposit.size * credited.shares()) by (nonlinear_arith)
        requires credited.size >= state.deposit.size, credited.shares() == state.deposit.shares();
    if fee_part > 0 {
        lemma_join_price(credited, fee_part);
        lemma_join_wf(credited, fee_part);
        lemma_price_transitive(state.deposit, credited, credited.try_join(fee_part)->Ok_0.0);
    }
}

/// What was deposited can be withdrawn again at once, and brings no profit: the shares that were
/// issued for an amount are paid at most that amount.
pub proof fn deposit_can_be_withdrawn(state: StateView, amount: nat)
    requires
        state.wf(),
        state.deposited(amount) is Ok,
    ensures
        state.deposited(amount)->Ok_0.0.withdrawn(state.deposited(amount)->Ok_0.1) is Ok,
        state.deposited(amount)->Ok_0.0.withdrawn(state.deposited(amount)->Ok_0.1)->Ok_0.1 <= amount,
{
    let (next, n) = state.deposited(amount)->Ok_0;
    lemma_join_wf(state.deposit, amount);
    lemma_issuance_fair(state.deposit, amount);
    let (z, s) = (state.deposit.size, state.deposit.shares());
    if s > 0 {
        lemma_rounded_down(z + amount, n, s + n);
        let paid = mul_div(z + amount, n, s + n);
        assert(paid <= amount) by (nonlinear_arith)
            requires paid * (s + n) <= (z + amount) * n, n * z <= amount * s, s + n > 0;
    }
}

/// What was borrowed is never owed for more than it was, as long as no interest is charged.
pub proof fn loan_is_owed_at_most_once(state: StateView, amount: nat)
    requires
        state.wf(),
        state.borrowed(amount) is Ok,
    ensures
        state.borrowed(amount)->Ok_0.0.debt.ownership(state.borrowed(amount)->Ok_0.1) <= amount,
{
    let n = state.borrowed(amount)->Ok_0.1;
    lemma_join_wf(state.debt, amount);
    lemma_issuance_fair(state.debt, amount);
    let (z, s) = (state.debt.size, state.debt.shares());
    lemma_rounded_down(z + amount, n, s + n);
    let owed = mul_div(z + amount, n, s + n);
    assert(owed <= amount) by (nonlinear_arith)
        requires owed * (s + n) <= (z + amount) * n, n * z <= amount * s, s + n > 0;
}

/// What a list of coins holds of a denomination.
pub open spec fn coins_in(coins: Seq<CoinView>, denom: Seq<char>) -> nat
    decreases coins.len(),
{
    if coins.len() == 0 {
        0
    } else {
        coins_in(coins.drop_last(), denom) + if coins.last().denom == denom {
            coins.last().amount
        } else {
            0
        }
    }
}

/// What comes in with a message.
pub open spec fn inflow(info: MessageInfo, denom: Seq<char>) -> nat {
    coins_in(coins_view(info.funds@), denom)
}

/// What one message sends away.
pub open spec fn sent(msg: MsgView, denom: Seq<char>) -> nat {
    match msg {
        MsgView::BankSend { amount, .. } => coins_in(amount, denom),
        MsgView::WasmExecute { funds, .. } => coins_in(funds, denom),
        MsgView::Any { .. } => 0,
    }
}

/// What an answer sends away.
pub open spec fn outflow(messages: Seq<MsgView>, denom: Seq<char>) -> nat
    decreases messages.len(),
{
    if messages.len() == 0 {
        0
    } else {
        outflow(messages.drop_last(), denom) + sent(messages.last(), denom)
    }
}

proof fn lemma_one_coin(amount: nat, of: Seq<char>, denom: Seq<char>)
    ensures
        coins_in(one_coin(amount, of), denom) == (if of == denom {
            amount
        } else {
            0
        }),
{
    let coins = one_coin(amount, of);
    assert(coins.drop_last() =~= Seq::<CoinView>::empty());
    reveal_with_fuel(coins_in, 2);
}

proof fn lemma_outflow_push(response: ResponseView, msg: MsgView, denom: Seq<char>)
    ensures
        outflow(response.message(msg).messages, denom) == outflow(response.messages, denom) + sent(msg, denom),
{
    assert(response.messages.push(msg).drop_last() =~= response.messages);
}

/// A payment in the asset is what comes in.
proof fn lemma_inflow(info: MessageInfo, denom: Seq<char>)
    requires
        payment(info.funds@, denom) is Ok,
    ensures
        inflow(info, denom) == payment(info.funds@, denom)->Ok_0,
{
    let amount = payment(info.funds@, denom)->Ok_0;
    assert(coins_view(info.funds@) =~= one_coin(amount, denom));
    lemma_one_coin(amount, denom, denom);
}

/// The receipt token is another denomination than the asset.
proof fn lemma_receipt_differs(denom: Seq<char>)
    ensures
        token_denom(receipt_id(denom)) != denom,
{
    reveal_strlit("x/");
    reveal_strlit("ghost-vault/");
    assert(token_denom(receipt_id(denom)).len() == denom.len() + 14);
}

/// A payout sends the amount.
proof fn lemma_payout(callback: Option<CallbackData>, to: Seq<char>, amount: nat, denom: Seq<char>)
    requires
        payout(callback, to, amount, denom) is Ok,
    ensures
        sent(payout(callback, to, amount, denom)->Ok_0, denom) == amount,
{
    lemma_one_coin(amount, denom, denom);
}

proof fn lemma_deposited_solvent(config: Config, env: Env, info: MessageInfo, state: StateView, callback: Option<CallbackData>)
    requires
        state.wf(),
        deposited(config, env, info, state, callback) is Ok,
    ensures
        ({
            let (next, response) = deposited(config, env, info, state, callback)->Ok_0;
            &&& next.wf()
            &&& next.liquidity() + outflow(response.messages, config.denom@) <= state.liquidity() + inflow(
                info,
                config.denom@,
            )
        }),
{
    let denom = config.denom@;
    let amount = payment(info.funds@, denom)->Ok_0;
    let mint = state.deposited(amount)->Ok_0.1;
    let id = receipt_id(denom);
    lemma_inflow(info, denom);
    deposit_adds_liquidity(state, amount);
    let none = ResponseView::empty();
    match callback {
        None => {
            lemma_outflow_push(none, mint_message(env.contract@, id, mint, info.sender@), denom);
        },
        Some(cb) => {
            let own = mint_message(env.contract@, id, mint, env.contract@);
            let msg = callback_message(cb.data@, info.sender@, mint, token_denom(id))->Ok_0;
            lemma_outflow_push(none, own, denom);
            lemma_outflow_push(none.message(own), msg, denom);
            lemma_receipt_differs(denom);
            lemma_one_coin(mint, token_denom(id), denom);
        },
    }
}

proof fn lemma_withdrawn_solvent(config: Config, env: Env, info: MessageInfo, state: StateView, callback: Option<CallbackData>)
    requires
        state.wf(),
        withdrawn(config, env, info, state, callback) is Ok,
    ensures
        ({
            let (next, response) = withdrawn(config, env, info, state, callback)->Ok_0;
            &&& next.wf()
            &&& next.liquidity() + outflow(response.messages, config.denom@) <= state.liquidity()
        }),
{
    let denom = config.denom@;
    let id = receipt_id(denom);
    let shares = payment(info.funds@, token_denom(id))->Ok_0;
    let amount = state.withdrawn(shares)->Ok_0.1;
    withdrawal_is_covered(state, shares);
    let none = ResponseView::empty();
    let burn = burn_message(env.contract@, id, shares);
    lemma_outflow_push(none, burn, denom);
    lemma_outflow_push(none.message(burn), payout(callback, info.sender@, amount, denom)->Ok_0, denom);
    lemma_payout(callback, info.sender@, amount, denom);
}

proof fn lemma_market_solvent(config: Config, info: MessageInfo, state: StateView, borrower: BorrowerView, msg: MarketMsg)
    requires
        state.wf(),
        market(config, info, state, borrower, msg) is Ok,
    ensures
        ({
            let (next, _, response) = market(config, info, state, borrower, msg)->Ok_0;
            &&& next.wf()
            &&& next.liquidity() + outflow(response.messages, config.denom@) <= state.liquidity() + inflow(
                info,
                config.denom@,
            )
        }),
{
    let denom = config.denom@;
    let none = ResponseView::empty();
    match msg {
        MarketMsg::Borrow { amount, callback, delegate } => {
            loan_is_covered(state, amount as nat);
            lemma_payout(callback, info.sender@, amount as nat, denom);
            lemma_outflow_push(none, payout(callback, info.sender@, amount as nat, denom)->Ok_0, denom);
        },
        MarketMsg::Repay { delegate } => {
            let amount = payment(info.funds@, denom)->Ok_0;
            lemma_inflow(info, denom);
            let shares = match delegate {
                Some(d) => borrower.delegate_shares(d.outcome()->Ok_0),
                None => borrower.shares,
            };
            let debt = state.debt.try_ownership(shares)->Ok_0;
            let paid = repayment(amount, debt);
            repayment_covers_debt(state, paid);
            if paid < amount {
                let refund = (amount - paid) as nat;
                let back = MsgView::BankSend { to_address: info.sender@, amount: one_coin(refund, denom) };
                lemma_one_coin(refund, denom, denom);
                let (_, debtor, response) = market(config, info, state, borrower, msg)->Ok_0;
                let event = repay_event(
                    debtor.addr,
                    address_text(delegate),
                    paid,
                    state.repaid(paid)->Ok_0.1,
                );
                lemma_outflow_push(none.event(event), back, denom);
            }
        },
    }
}

/// The vault can always pay: a request that succeeds sends away no more of the asset than the
/// vault holds together with what comes in, and what it holds afterwards covers its ledger. As
/// long as the funds of a vault cover the liquidity of its ledger before a request, they do so
/// afterwards.
pub proof fn execution_is_solvent(
    config: Config,
    env: Env,
    info: MessageInfo,
    state: StateView,
    borrower: Option<BorrowerView>,
    msg: ExecuteMsg,
)
    requires
        config.wf(),
        state.wf(),
        execution(config, env, info, state, borrower, msg) is Ok,
    ensures
        ({
            let (next, _, response) = execution(config, env, info, state, borrower, msg)->Ok_0;
            &&& next.wf()
            &&& next.liquidity() + outflow(response.messages, config.denom@) <= state.liquidity() + inflow(
                info,
                config.denom@,
            )
        }),
{
    let (now, denom) = (env.time as nat, config.denom@);
    let (current, fees) = state.accrue(now, config.interest, config.fee)->Ok_0;
    accrual_keeps_liquidity(state, now, config.interest, config.fee);
    match msg {
        ExecuteMsg::Deposit { callback } => lemma_deposited_solvent(config, env, info, current, callback),
        ExecuteMsg::Withdraw { callback } => lemma_withdrawn_solvent(config, env, info, current, callback),
        ExecuteMsg::Market(request) => lemma_market_solvent(config, info, current, borrower->0, request),
    }
    if fees > 0 {
        let (_, _, response) = executed(config, env, info, current, borrower, msg)->Ok_0;
        lemma_outflow_push(
            response,
            mint_message(env.contract@, receipt_id(denom), fees, config.fee_address@),
            denom,
        );
    }
}

/// The value of a share of the deposits never falls, whatever the request and whoever makes it.
pub proof fn execution_keeps_share_value(
    config: Config,
    env: Env,
    info: MessageInfo,
    state: StateView,
    borrower: Option<BorrowerView>,
    msg: ExecuteMsg,
)
    requires
        config.wf(),
        state.wf(),
        execution(config, env, info, state, borrower, msg) is Ok,
    ensures
        ({
            let (next, _, _) = execution(config, env, info, state, borrower, msg)->Ok_0;
            next.deposit.size * state.deposit.shares() >= state.deposit.size * next.deposit.shares()
        }),
{
    let now = env.time as nat;
    let (current, _) = state.accrue(now, config.interest, config.fee)->Ok_0;
    let (next, _, _) = execution(config, env, info, state, borrower, msg)->Ok_0;
    accrual_keeps_liquidity(state, now, config.interest, config.fee);
    accrual_keeps_share_value(state, now, config.interest, config.fee);
    if state.deposit.shares() == 0 {
        lemma_fundamental_div_mod(state.deposit.atomics as int, one() as int);
        assert(0 * next.deposit.shares() == 0 && next.deposit.size * 0 == 0) by (nonlinear_arith);
    }
    match msg {
        ExecuteMsg::Deposit { .. } => {
            deposit_keeps_share_value(current, payment(info.funds@, config.denom@)->Ok_0);
        },
        ExecuteMsg::Withdraw { .. } => {
            let id = receipt_id(config.denom@);
            withdrawal_keeps_share_value(current, payment(info.funds@, token_denom(id))->Ok_0);
        },
        ExecuteMsg::Market(_) => {
            assert(next.deposit == current.deposit);
            assert(current.deposit.size * current.deposit.shares() >= current.deposit.size * current.deposit.shares());
        },
    }
    if state.deposit.shares() > 0 {
        lemma_price_transitive(state.deposit, current.deposit, next.deposit);
    }
}

/// A loan leaves its borrower within its limit, with a delegate or without, and puts the new debt
/// on the books of the borrower, and of the delegate alone if there is one.
pub proof fn loan_stays_within_limit(
    denom: Seq<char>,
    sender: Seq<char>,
    state: StateView,
    borrower: BorrowerView,
    amount: nat,
    callback: Option<CallbackData>,
    delegate: Option<Address>,
)
    requires
        state.wf(),
        market_borrow(denom, sender, state, borrower, amount, callback, delegate) is Ok,
    ensures
        ({
            let (lent, debtor, _) = market_borrow(denom, sender, state, borrower, amount, callback, delegate)->Ok_0;
            let shares = state.debt.issuance(amount);
            &&& lent.debt.ownership(debtor.shares) <= debtor.limit
            &&& debtor.limit == borrower.limit
            &&& debtor.shares == borrower.shares + shares
            &&& lent.debt.shares() == state.debt.shares() + shares
            &&& match delegate {
                None => debtor.delegates == borrower.delegates,
                Some(d) => d.outcome() is Ok && forall|addr: Seq<char>|
                    #![trigger debtor.delegate_shares(addr)]
                    debtor.delegate_shares(addr) == borrower.delegate_shares(addr) + if Ok::<_, ErrorView>(addr)
                        == d.outcome() {
                        shares
                    } else {
                        0
                    },
            }
        }),
{
    lemma_join_wf(state.debt, amount);
}

/// Giving back the shares of a loan undoes it on the books of the borrower.
pub proof fn repaying_undoes_borrowing(borrower: BorrowerView, pool: PoolView, shares: nat)
    requires
        borrower.borrowed(pool, shares) is Ok,
    ensures
        borrower.borrowed(pool, shares)->Ok_0.repaid(shares) == Ok::<_, ErrorView>(borrower),
{
}

/// Giving back the shares of a delegate's loan undoes it on the books of the borrower and of all
/// its delegates.
pub proof fn delegate_repaying_undoes_borrowing(
    borrower: BorrowerView,
    delegate: Seq<char>,
    pool: PoolView,
    shares: nat,
)
    requires
        borrower.delegate_borrowed(delegate, pool, shares) is Ok,
    ensures
        ({
            let back = borrower.delegate_borrowed(delegate, pool, shares)->Ok_0.delegate_repaid(delegate, shares);
            &&& back is Ok
            &&& back->Ok_0.addr == borrower.addr
            &&& back->Ok_0.limit == borrower.limit
            &&& back->Ok_0.shares == borrower.shares
            &&& forall|addr: Seq<char>|
                #![trigger back->Ok_0.delegate_shares(addr)]
                back->Ok_0.delegate_shares(addr) == borrower.delegate_shares(addr)
        }),
{
}

/// What is owed for shares pays off at most those shares.
proof fn lemma_shares_paid(state: StateView, shares: nat, amount: nat)
    requires
        state.wf(),
        shares <= state.debt.shares(),
        amount <= state.debt.ownership(shares),
    ensures
        state.shares_paid(amount) <= shares,
        state.debt.ownership(shares) <= state.debt.size,
{
    let (z, s, q) = (state.debt.size, state.debt.shares(), state.shares_paid(amount));
    if shares > 0 {
        let debt = state.debt.ownership(shares);
        lemma_rounded_down(z, shares, s);
        lemma_fundamental_div_mod(state.debt.atomics as int, one() as int);
        lemma_rounded_down(amount, s, z);
        assert(debt <= z) by (nonlinear_arith)
            requires debt * s <= z * shares, shares <= s, s > 0;
        assert(q <= shares) by (nonlinear_arith)
            requires q * z <= amount * s, amount <= debt, debt * s <= z * shares, z > 0;
    } else if z > 0 {
        lemma_nothing(s, z);
    }
}

/// Whoever pays what it owes, or less, is never refused because of its own books: as long as the
/// payment is worth a share, it is accepted, for the borrower itself and for a delegate of it.
pub proof fn repayment_is_accepted(
    denom: Seq<char>,
    sender: Seq<char>,
    state: StateView,
    borrower: BorrowerView,
    amount: nat,
    delegate: Option<Address>,
)
    requires
        state.wf(),
        borrower.shares <= state.debt.shares(),
        delegate is Some ==> delegate->0.outcome() is Ok && borrower.delegate_shares(
            delegate->0.outcome()->Ok_0,
        ) <= borrower.shares,
        state.shares_paid(
            repayment(
                amount,
                state.debt.ownership(
                    match delegate {
                        Some(d) => borrower.delegate_shares(d.outcome()->Ok_0),
                        None => borrower.shares,
                    },
                ),
            ),
        ) > 0,
    ensures
        market_repay(denom, sender, state, borrower, amount, delegate) is Ok,
{
    let shares = match delegate {
        Some(d) => borrower.delegate_shares(d.outcome()->Ok_0),
        None => borrower.shares,
    };
    let debt = state.debt.ownership(shares);
    lemma_shares_paid(state, shares, debt);
    lemma_shares_paid(state, shares, repayment(amount, debt));
}

/// A repayment takes no more than what is owed, and sends the rest back.
pub proof fn overpayment_is_refunded(
    denom: Seq<char>,
    sender: Seq<char>,
    state: StateView,
    borrower: BorrowerView,
    amount: nat,
    delegate: Option<Address>,
)
    requires
        market_repay(denom, sender, state, borrower, amount, delegate) is Ok,
    ensures
        ({
            let (_, _, response) = market_repay(denom, sender, state, borrower, amount, delegate)->Ok_0;
            let debt = state.debt.ownership(
                match delegate {
                    Some(d) => borrower.delegate_shares(d.outcome()->Ok_0),
                    None => borrower.shares,
                },
            );
            &&& outflow(response.messages, denom) == amount - repayment(amount, debt)
            &&& repayment(amount, debt) <= debt
        }),
{
    let shares = match delegate {
        Some(d) => borrower.delegate_shares(d.outcome()->Ok_0),
        None => borrower.shares,
    };
    let paid = repayment(amount, state.debt.ownership(shares));
    if paid < amount {
        let (_, debtor, _) = market_repay(denom, sender, state, borrower, amount, delegate)->Ok_0;
        let refund = (amount - paid) as nat;
        let event = repay_event(debtor.addr, address_text(delegate), paid, state.repaid(paid)->Ok_0.1);
        lemma_one_coin(refund, denom, denom);
        lemma_outflow_push(
            ResponseView::empty().event(event),
            MsgView::BankSend { to_address: sender, amount: one_coin(refund, denom) },
            denom,
        );
    }
}

/// When the only debtor pays all that it owes, no debt is left, on its books or in the pool.
pub proof fn full_repayment_clears_the_debt(
    denom: Seq<char>,
    sender: Seq<char>,
    state: StateView,
    borrower: BorrowerView,
    amount: nat,
)
    requires
        state.wf(),
        0 < borrower.shares == state.debt.shares(),
        amount >= state.debt.size,
    ensures
        ({
            let outcome = market_repay(denom, sender, state, borrower, amount, None);
            &&& outcome is Ok
            &&& outcome->Ok_0.0.debt == PoolView::empty()
            &&& outcome->Ok_0.0.liquidity() == state.liquidity() + state.debt.size
            &&& outcome->Ok_0.1.shares == 0
        }),
{
    let (z, s) = (state.debt.size, state.debt.shares());
    assert(z * s / s == z) by (nonlinear_arith)
        requires s > 0;
    assert(z * s / z == s) by (nonlinear_arith)
        requires z > 0;
}

/// All debt shares on the books of the borrowers.
pub open spec fn total_shares(borrowers: Map<Seq<char>, BorrowerView>) -> nat
    decreases borrowers.dom().len(),
    when borrowers.dom().finite()
{
    if borrowers.dom().len() == 0 {
        0
    } else {
        let addr = borrowers.dom().choose();
        borrowers[addr].shares + total_shares(borrowers.remove(addr))
    }
}

/// The books with what a request leaves of the borrower that made it.
pub open spec fn booked(
    borrowers: Map<Seq<char>, BorrowerView>,
    addr: Seq<char>,
    borrower: Option<BorrowerView>,
) -> Map<Seq<char>, BorrowerView> {
    match borrower {
        Some(b) => borrowers.insert(addr, b),
        None => borrowers,
    }
}

/// The borrower at an address.
pub open spec fn found(borrowers: Map<Seq<char>, BorrowerView>, addr: Seq<char>) -> Option<BorrowerView> {
    if borrowers.contains_key(addr) {
        Some(borrowers[addr])
    } else {
        None
    }
}

/// Any borrower can be taken out of the sum.
proof fn lemma_total_remove(borrowers: Map<Seq<char>, BorrowerView>, addr: Seq<char>)
    requires
        borrowers.dom().finite(),
        borrowers.contains_key(addr),
    ensures
        total_shares(borrowers) == borrowers[addr].shares + total_shares(borrowers.remove(addr)),
    decreases borrowers.dom().len(),
{
    let first = borrowers.dom().choose();
    if first != addr {
        lemma_total_remove(borrowers.remove(first), addr);
        lemma_total_remove(borrowers.remove(addr), first);
        assert(borrowers.remove(first).remove(addr) =~= borrowers.remove(addr).remove(first));
        assert(total_shares(borrowers) == borrowers[first].shares + total_shares(borrowers.remove(first)));
    }
}

/// A borrower that is put on the books replaces what was there.
proof fn lemma_total_insert(borrowers: Map<Seq<char>, BorrowerView>, addr: Seq<char>, borrower: BorrowerView)
    requires
        borrowers.dom().finite(),
    ensures
        total_shares(borrowers.insert(addr, borrower)) + (match found(borrowers, addr) {
            Some(b) => b.shares,
            None => 0,
        }) == total_shares(borrowers) + borrower.shares,
{
    let after = borrowers.insert(addr, borrower);
    lemma_total_remove(after, addr);
    if borrowers.contains_key(addr) {
        lemma_total_remove(borrowers, addr);
        assert(after.remove(addr) =~= borrowers.remove(addr));
    } else {
        assert(after.remove(addr) =~= borrowers);
    }
}

/// The books balance: the shares of all borrowers are the shares of the debt pool, before any
/// request and after it.
pub proof fn execution_keeps_the_books(
    config: Config,
    env: Env,
    info: MessageInfo,
    state: StateView,
    borrowers: Map<Seq<char>, BorrowerView>,
    msg: ExecuteMsg,
)
    requires
        config.wf(),
        state.wf(),
        borrowers.dom().finite(),
        total_shares(borrowers) == state.debt.shares(),
        execution(config, env, info, state, found(borrowers, info.sender@), msg) is Ok,
    ensures
        ({
            let (next, debtor, _) = execution(config, env, info, state, found(borrowers, info.sender@), msg)->Ok_0;
            &&& booked(borrowers, info.sender@, debtor).dom().finite()
            &&& total_shares(booked(borrowers, info.sender@, debtor)) == next.debt.shares()
        }),
{
    let now = env.time as nat;
    let (current, _) = state.accrue(now, config.interest, config.fee)->Ok_0;
    let before = found(borrowers, info.sender@);
    let (next, debtor, _) = execution(config, env, info, state, before, msg)->Ok_0;
    accrual_keeps_liquidity(state, now, config.interest, config.fee);
    if debtor is Some {
        lemma_total_insert(borrowers, info.sender@, debtor->0);
    }
    if msg is Market {
        match msg->Market_0 {
            MarketMsg::Borrow { amount, .. } => lemma_join_wf(current.debt, amount as nat),
            MarketMsg::Repay { delegate } => {
                let shares = match delegate {
                    Some(d) => before->0.delegate_shares(d.outcome()->Ok_0),
                    None => before->0.shares,
                };
                let amount = payment(info.funds@, config.denom@)->Ok_0;
                let paid = repayment(amount, current.debt.ownership(shares));
                lemma_leave_wf(current.debt, current.shares_paid(paid));
            },
        }
    }
}

/// The books of a new vault, which has no borrowers, balance.
pub proof fn new_books_balance()
    ensures
        total_shares(Map::empty()) == PoolView::empty().shares(),
        Map::<Seq<char>, BorrowerView>::empty().dom().finite(),
{
}

/// Giving a borrower a limit leaves the books as they are.
pub proof fn limit_keeps_the_books(borrowers: Map<Seq<char>, BorrowerView>, addr: Seq<char>, limit: nat)
    requires
        borrowers.dom().finite(),
    ensures
        total_shares(borrowers.insert(addr, BorrowerView::with_limit(found(borrowers, addr), addr, limit)))
            == total_shares(borrowers),
{
    lemma_total_insert(borrowers, addr, BorrowerView::with_limit(found(borrowers, addr), addr, limit));
}

/// Where the books balance, every borrower's debt has a value, and no borrower owes more than all
/// owe together.
pub proof fn every_debt_has_a_value(state: StateView, borrowers: Map<Seq<char>, BorrowerView>, addr: Seq<char>)
    requires
        state.wf(),
        borrowers.dom().finite(),
        total_shares(borrowers) == state.debt.shares(),
        borrowers.contains_key(addr),
    ensures
        borrowers[addr].shares <= state.debt.shares(),
        state.debt.try_ownership(borrowers[addr].shares) is Ok,
        state.debt.ownership(borrowers[addr].shares) <= state.debt.size,
{
    lemma_total_remove(borrowers, addr);
    lemma_shares_paid(state, borrowers[addr].shares, 0);
}

/// The receipt tokens outstanding follow the shares of the deposit pool: with every request, what is
/// minted to the depositor and to the fee address is added to the shares, and what is burned is
/// taken from them.
pub proof fn receipts_follow_shares(
    config: Config,
    env: Env,
    info: MessageInfo,
    state: StateView,
    borrower: Option<BorrowerView>,
    msg: ExecuteMsg,
)
    requires
        config.wf(),
        state.wf(),
        execution(config, env, info, state, borrower, msg) is Ok,
    ensures
        ({
            let (next, _, response) = execution(config, env, info, state, borrower, msg)->Ok_0;
            let (current, fees) = state.accrue(env.time as nat, config.interest, config.fee)->Ok_0;
            let id = receipt_id(config.denom@);
            &&& fees > 0 ==> response.messages.len() > 0 && response.messages.last() == mint_message(
                env.contract@,
                id,
                fees,
                config.fee_address@,
            )
            &&& match msg {
                ExecuteMsg::Deposit { callback } => {
                    let mint = current.deposit.issuance(payment(info.funds@, config.denom@)->Ok_0);
                    let holder = if callback is None {
                        info.sender@
                    } else {
                        env.contract@
                    };
                    &&& response.messages[0] == mint_message(env.contract@, id, mint, holder)
                    &&& next.deposit.shares() == state.deposit.shares() + fees + mint
                },
                ExecuteMsg::Withdraw { .. } => {
                    let burn = payment(info.funds@, token_denom(id))->Ok_0;
                    &&& response.messages[0] == burn_message(env.contract@, id, burn)
                    &&& next.deposit.shares() + burn == state.deposit.shares() + fees
                },
                ExecuteMsg::Market(_) => next.deposit.shares() == state.deposit.shares() + fees,
            }
        }),
{
    let now = env.time as nat;
    let (current, fees) = state.accrue(now, config.interest, config.fee)->Ok_0;
    accrual_keeps_liquidity(state, now, config.interest, config.fee);
    let charge = state.charge(now, config.interest);
    let fee_part = mul_div(charge, config.fee.atomics as nat, one());
    lemma_scaled_down(charge, config.fee.atomics as nat);
    lemma_charge_on_debt(state, now, config.interest);
    let earned = (charge - fee_part) as nat;
    if earned > 0 {
        lemma_deposit_wf(state.deposit, earned);
    }
    if fee_part > 0 {
        lemma_join_wf(if earned == 0 { state.deposit } else { state.deposit.donated(earned) }, fee_part);
    }
    match msg {
        ExecuteMsg::Deposit { .. } => lemma_join_wf(current.deposit, payment(info.funds@, config.denom@)->Ok_0),
        ExecuteMsg::Withdraw { .. } => {
            lemma_leave_wf(current.deposit, payment(info.funds@, token_denom(receipt_id(config.denom@)))->Ok_0);
        },
        ExecuteMsg::Market(_) => {},
    }
}

/// Queries and requests that follow a request in its block see the ledger that it left: it is charged
/// up to the time of the block, and charging it again changes nothing and costs no fee.
pub proof fn a_block_sees_one_ledger(
    config: Config,
    env: Env,
    info: MessageInfo,
    state: StateView,
    borrower: Option<BorrowerView>,
    msg: ExecuteMsg,
)
    requires
        config.wf(),
        state.wf(),
        execution(config, env, info, state, borrower, msg) is Ok,
        execution(config, env, info, state, borrower, msg)->Ok_0.0.debt_rate(config.interest) is Ok,
    ensures
        ({
            let (next, _, _) = execution(config, env, info, state, borrower, msg)->Ok_0;
            &&& next.last_updated == env.time
            &&& next.accrue(env.time as nat, config.interest, config.fee) == Ok::<_, ErrorView>((next, 0nat))
        }),
{
    let (next, _, _) = execution(config, env, info, state, borrower, msg)->Ok_0;
    execution_is_solvent(config, env, info, state, borrower, msg);
    accrual_keeps_liquidity(state, env.time as nat, config.interest, config.fee);
    no_time_no_interest(next, config.interest, config.fee);
}

/// A list of borrowers, whatever is stored, repeats no address, leaves out the address that it starts
/// after, and is no longer than its limit.
pub proof fn listing_is_a_page(
    config: Config,
    state: StateView,
    limit: Option<u8>,
    start_after: Option<Address>,
    stored: Vec<Borrower>,
    answer: Result<QueryResponse, ContractError>,
)
    requires
        answers(config, state, QueryMsg::Borrowers { limit, start_after, stored }, answer),
        answer is Ok,
    ensures
        answer->Ok_0 is Borrowers,
        ({
            let list = answer->Ok_0->Borrowers_0@;
            &&& limit is Some ==> list.len() <= limit->0
            &&& forall|i: int, j: int| 0 <= i < j < list.len() ==> list[i].addr@ != list[j].addr@
            &&& start_after is Some ==> forall|i: int|
                0 <= i < list.len() ==> start_after->0.outcome() != Ok::<_, ErrorView>((#[trigger] list[i]).addr@)
        }),
{
    let list = answer->Ok_0->Borrowers_0@;
    let start = start_address(start_after)->Ok_0;
    let page = cut(listed(stored@, start), limit);
    lemma_listed(stored@, start);
    assert forall|i: int| 0 <= i < list.len() implies (#[trigger] list[i]).addr@ == page[i].addr@ by {
        assert(borrower_response(config, state, page[i]) == Ok::<_, ErrorView>(list[i]));
    }
}

/// A list without a limit leaves out no stored borrower but the one that it starts after.
pub proof fn listing_is_complete(
    config: Config,
    state: StateView,
    start_after: Option<Address>,
    stored: Vec<Borrower>,
    answer: Result<QueryResponse, ContractError>,
)
    requires
        answers(config, state, QueryMsg::Borrowers { limit: None, start_after, stored }, answer),
        answer is Ok,
    ensures
        forall|k: int|
            0 <= k < stored@.len() && start_address(start_after) != Ok::<_, ErrorView>(
                Some((#[trigger] stored@[k]).addr@),
            ) ==> exists|i: int|
                0 <= i < answer->Ok_0->Borrowers_0@.len() && (#[trigger] answer->Ok_0->Borrowers_0@[i]).addr@
                    == stored@[k].addr@,
{
    let list = answer->Ok_0->Borrowers_0@;
    let start = start_address(start_after)->Ok_0;
    let page = listed(stored@, start);
    lemma_listed(stored@, start);
    assert forall|k: int|
        0 <= k < stored@.len() && start_address(start_after) != Ok::<_, ErrorView>(
            Some((#[trigger] stored@[k]).addr@),
        ) implies exists|i: int|
        0 <= i < list.len() && (#[trigger] list[i]).addr@ == stored@[k].addr@ by {
        assert(is_listed(page, stored@[k].addr@));
        let i = choose|i: int| 0 <= i < page.len() && (#[trigger] page[i]).addr@ == stored@[k].addr@;
        assert(borrower_response(config, state, page[i]) == Ok::<_, ErrorView>(list[i]));
    }
}

/// From one storage, a list says of each borrower what a query for that borrower alone says.
pub proof fn listing_agrees_with_lookups(
    config: Config,
    state: StateView,
    storage: Map<Seq<char>, Borrower>,
    limit: Option<u8>,
    start_after: Option<Address>,
    stored: Vec<Borrower>,
    answer: Result<QueryResponse, ContractError>,
)
    requires
        forall|k: int|
            0 <= k < stored@.len() ==> storage.contains_key((#[trigger] stored@[k]).addr@)
                && storage[stored@[k].addr@] == stored@[k],
        answers(config, state, QueryMsg::Borrowers { limit, start_after, stored }, answer),
        answer is Ok,
    ensures
        ({
            let list = answer->Ok_0->Borrowers_0@;
            forall|i: int, addr: Address|
                #![trigger list[i], addr.outcome()]
                0 <= i < list.len() && addr.outcome() == Ok::<_, ErrorView>(list[i].addr@) ==> {
                    &&& storage.contains_key(list[i].addr@)
                    &&& answers(
                        config,
                        state,
                        QueryMsg::Borrower {
                            borrower: Lookup { addr, found: Some(storage[list[i].addr@]) },
                        },
                        Ok::<_, ContractError>(QueryResponse::Borrower(list[i])),
                    )
                }
        }),
{
    let list = answer->Ok_0->Borrowers_0@;
    let start = start_address(start_after)->Ok_0;
    let page = cut(listed(stored@, start), limit);
    lemma_listed(stored@, start);
    assert forall|i: int| 0 <= i < list.len() implies storage.contains_key((#[trigger] list[i]).addr@)
        && storage[list[i].addr@] == page[i] by {
        assert(borrower_response(config, state, page[i]) == Ok::<_, ErrorView>(list[i]));
        assert(listed(stored@, start)[i] == page[i]);
        assert(stored@.contains(page[i]));
    }
}

} // verus!

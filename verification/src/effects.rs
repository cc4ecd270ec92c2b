//! What the requests and queries of a vault do, said of what comes in and what goes out.
use vstd::prelude::*;
use vstd::arithmetic::div_mod::lemma_fundamental_div_mod;
use crate::address::Address;
use crate::borrowers::{cut, lemma_listed, listed, Borrower, BorrowerView};
use crate::callback::{callback_payload, CallbackData};
use crate::config::Config;
use crate::contract::{
    answers, borrower_response, execution, pool_response, receipt_id, start_address,
};
use crate::decimal::{lemma_scaled_down, mul_div, one, Decimal};
use crate::error::{ContractError, ErrorView, SharePoolError};
use crate::events::decimal_text;
use crate::interest::Interest;
use crate::laws::{
    accrual_keeps_liquidity, coins_in, every_debt_has_a_value, outflow, repayment_covers_debt,
    repayment_is_accepted, sent, total_shares,
};
use crate::message::{one_coin, EventView, MsgView, ResponseView};
use crate::msg::{
    BorrowerResponse, ExecuteMsg, Lookup, MarketMsg, PoolResponse, QueryMsg, QueryResponse,
};
use crate::payment::{CoinView, MessageInfo};
use crate::pool::{lemma_deposit_wf, lemma_join_wf, lemma_leave_wf, PoolView};
use crate::state::{lemma_charge_on_debt, lemma_charged, lemma_utilization, Env, StateView};
use crate::token::{burn_value, create_message, create_value, mint_value, MetadataView};
use crate::version::present_version;

verus! {

/// `q` is the quotient of `a` and `b`, rounded down.
pub open spec fn is_floor(q: nat, a: nat, b: nat) -> bool {
    q * b <= a < (q + 1) * b
}

/// The quotient rounded down is one, and the only one.
proof fn lemma_floor(a: nat, b: nat)
    requires
        b > 0,
    ensures
        is_floor(a / b, a, b),
        forall|q: nat| #[trigger] is_floor(q, a, b) ==> q == a / b,
{
    lemma_fundamental_div_mod(a as int, b as int);
    let k = a / b;
    assert(k * b == b * k) by (nonlinear_arith);
    assert((k + 1) * b == b * k + b) by (nonlinear_arith);
    assert forall|q: nat| #[trigger] is_floor(q, a, b) implies q == k by {
        assert(q == k) by (nonlinear_arith)
            requires q * b <= a < (q + 1) * b, k * b <= a < (k + 1) * b, b > 0;
    }
}

/// What is charged grows with the clock: the debt times the yearly rate times the part of the year
/// between the two readings, less what three divisions round off. Deposits and debt grow by it
/// alike, nobody's debt shares change, and the ledger is up to date afterwards.
pub proof fn interest_follows_the_clock(state: StateView, now: nat, interest: Interest, fee: Decimal)
    requires
        state.wf(),
        interest.wf(),
        fee.atomics <= one(),
        state.accrue(now, interest, fee) is Ok,
    ensures
        ({
            let next = state.accrue(now, interest, fee)->Ok_0.0;
            let seconds = now / 1_000_000_000 - state.last_updated / 1_000_000_000;
            let charge = next.debt.size - state.debt.size;
            &&& seconds >= 0
            &&& charge >= 0
            &&& next.deposit.size - state.deposit.size == charge
            &&& next.debt.atomics == state.debt.atomics
            &&& next.last_updated == now
            &&& state.debt.size > 0 ==> state.debt_rate(interest) is Ok && {
                let rate = state.debt_rate(interest)->Ok_0;
                let due = state.debt.size * rate * seconds;
                &&& charge * one() * 31_536_000 <= due
                &&& due * one() <= 31_536_000 * ((charge + 1) * one() * one() + state.debt.size * one()
                    + state.debt.size * rate)
            }
        }),
{
    let charge = state.charge(now, interest);
    let fee_part = mul_div(charge, fee.atomics as nat, one());
    lemma_scaled_down(charge, fee.atomics as nat);
    lemma_charge_on_debt(state, now, interest);
    lemma_charged(state, now, (charge - fee_part) as nat, fee_part);
    if state.debt.size > 0 {
        let (z, r, s) = (state.debt.size, state.debt_rate(interest)->Ok_0, state.elapsed(now) as nat);
        let y = mul_div(s, one(), 31_536_000);
        let p = mul_div(r, y, one());
        lemma_floor(s * one(), 31_536_000);
        lemma_floor(r * y, one());
        lemma_floor(z * p, one());
        lemma_three_floors(z, r, s, y, p, charge);
    }
}

proof fn lemma_three_floors(z: nat, r: nat, s: nat, y: nat, p: nat, c: nat)
    requires
        is_floor(y, s * one(), 31_536_000),
        is_floor(p, r * y, one()),
        is_floor(c, z * p, one()),
    ensures
        c * one() * 31_536_000 <= z * r * s,
        z * r * s * one() <= 31_536_000 * ((c + 1) * one() * one() + z * one() + z * r),
{
    let o = one();
    let k: nat = 31_536_000;
    assert(o > 0);
    assert(c * o * o * k <= z * r * s * o) by (nonlinear_arith)
        requires c * o <= z * p, p * o <= r * y, y * k <= s * o,
    {
        assert(c * o * o <= z * p * o);
        assert(z * (p * o) <= z * (r * y));
        assert(c * o * o <= z * r * y);
        assert(c * o * o * k <= z * r * y * k);
        assert((z * r) * (y * k) <= (z * r) * (s * o));
    }
    assert(c * o * k <= z * r * s) by (nonlinear_arith)
        requires c * o * o * k <= z * r * s * o, o > 0;
    assert(z * r * s * o <= k * ((c + 1) * o * o + z * o + z * r)) by (nonlinear_arith)
        requires z * p < (c + 1) * o, r * y < (p + 1) * o, s * o < (y + 1) * k,
    {
        assert((z * r) * (s * o) <= (z * r) * ((y + 1) * k));
        assert((z * r) * ((y + 1) * k) == z * (r * y) * k + z * r * k);
        assert(z * (r * y) <= z * ((p + 1) * o));
        assert(z * ((p + 1) * o) == (z * p) * o + z * o);
        assert((z * p) * o <= ((c + 1) * o) * o);
        assert(z * (r * y) <= (c + 1) * o * o + z * o);
        assert(z * (r * y) * k <= ((c + 1) * o * o + z * o) * k);
    }
}

/// How interest is shared out: the fee is the configured part of the charge, rounded down, and buys
/// shares after the rest was credited to all depositors. Interest is charged exactly where the
/// numbers stay in range and the pools take it.
pub proof fn interest_is_shared_out(
    state: StateView,
    now: nat,
    interest: Interest,
    fee: Decimal,
    rate: nat,
    years: nat,
    part: nat,
    charge: nat,
    fee_part: nat,
)
    requires
        state.wf(),
        fee.atomics <= one(),
        state.debt.size > 0,
        now / 1_000_000_000 >= state.last_updated / 1_000_000_000,
        state.debt_rate(interest) == Ok::<_, ErrorView>(rate),
        is_floor(
            years,
            ((now / 1_000_000_000 - state.last_updated / 1_000_000_000) * one()) as nat,
            31_536_000,
        ),
        is_floor(part, rate * years, one()),
        is_floor(charge, state.debt.size * part, one()),
        is_floor(fee_part, charge * fee.atomics as nat, one()),
        part <= u128::MAX,
        charge <= u128::MAX,
    ensures
        ({
            let credited = PoolView {
                size: (state.deposit.size + charge - fee_part) as nat,
                atomics: state.deposit.atomics,
            };
            let outcome = state.accrue(now, interest, fee);
            &&& outcome is Ok <==> {
                &&& charge == fee_part || state.deposit.try_deposit((charge - fee_part) as nat) is Ok
                &&& charge == 0 || state.debt.try_deposit(charge) is Ok
                &&& fee_part == 0 || credited.try_join(fee_part) is Ok
            }
            &&& outcome is Ok ==> {
                let (next, fees) = outcome->Ok_0;
                &&& fee_part <= charge
                &&& next.debt.size == state.debt.size + charge
                &&& next.deposit.size == state.deposit.size + charge
                &&& fees == (if fee_part == 0 {
                    0
                } else {
                    credited.issuance(fee_part)
                })
                &&& next.deposit.atomics == state.deposit.atomics + fees * one()
            }
        }),
{
    let s = state.elapsed(now) as nat;
    lemma_floor(s * one(), 31_536_000);
    lemma_floor(rate * years, one());
    lemma_floor(state.debt.size * part, one());
    lemma_floor(charge * fee.atomics as nat, one());
    assert(charge == state.charge(now, interest));
    lemma_scaled_down(charge, fee.atomics as nat);
    if charge > fee_part {
        let earned = (charge - fee_part) as nat;
        if state.deposit.try_deposit(earned) is Ok {
            lemma_deposit_wf(state.deposit, earned);
        }
    }
    if charge > 0 && state.debt.try_deposit(charge) is Ok {
        lemma_deposit_wf(state.debt, charge);
    }
}

/// The utilization is what is lent, as a part of what was deposited, rounded up.
pub proof fn utilization_is_the_part_lent(state: StateView)
    requires
        state.wf(),
    ensures
        state.deposit.size == 0 ==> state.utilization() == 0,
        state.deposit.size > 0 ==> {
            &&& state.debt.size * one() <= state.utilization() * state.deposit.size
            &&& state.utilization() * state.deposit.size < state.debt.size * one() + state.deposit.size
        },
{
    lemma_utilization(state);
    if state.deposit.size > 0 {
        let (l, d, u) = (state.liquidity(), state.deposit.size, state.utilization());
        let q = mul_div(l, one(), d);
        lemma_floor(l * one(), d);
        let z = state.debt.size;
        assert(z * one() <= u * d && u * d < z * one() + d) by (nonlinear_arith)
            requires q * d <= l * one() < (q + 1) * d, u + q == one(), l + z == d;
    }
}

/// Borrowers are charged the rate at the part of the deposits that is lent, and lenders get that
/// part of it.
pub proof fn rates_are_read_at_the_part_lent(state: StateView, interest: Interest, part: nat)
    requires
        state.wf(),
        state.deposit.size == 0 ==> part == 0,
        state.deposit.size > 0 ==> state.debt.size * one() <= part * state.deposit.size < state.debt.size * one()
            + state.deposit.size,
    ensures
        state.debt_rate(interest) is Ok <==> interest.rate(part) <= u128::MAX,
        state.lend_rate(interest) is Ok <==> interest.rate(part) <= u128::MAX,
        interest.rate(part) <= u128::MAX ==> {
            &&& state.debt_rate(interest)->Ok_0 == interest.rate(part)
            &&& is_floor(state.lend_rate(interest)->Ok_0, interest.rate(part) * part, one())
        },
{
    utilization_is_the_part_lent(state);
    let (u, d, z) = (state.utilization(), state.deposit.size, state.debt.size);
    if d > 0 {
        assert(u == part) by (nonlinear_arith)
            requires
                z * one() <= u * d < z * one() + d,
                z * one() <= part * d < z * one() + d,
                d > 0;
    }
    lemma_floor(interest.rate(part) * part, one());
}

/// The rate is the base rate at no utilization, one step more at the target and both steps more at
/// full utilization, and in between it runs straight, less what two divisions round off.
pub proof fn rate_runs_straight_between_its_marks(interest: Interest, utilization: nat)
    requires
        interest.wf(),
        utilization <= one(),
    ensures
        ({
            let (base, t) = (interest.base_rate.atomics as nat, interest.target_utilization.atomics as nat);
            let (step1, step2) = (interest.step1.atomics as nat, interest.step2.atomics as nat);
            let rate = interest.rate(utilization);
            &&& utilization == 0 ==> rate == base
            &&& utilization == t ==> rate == base + step1
            &&& utilization == one() ==> rate == base + step1 + step2
            &&& utilization <= t ==> {
                let x = rate - base;
                &&& x >= 0
                &&& x * t <= utilization * step1
                &&& utilization * one() * step1 <= t * ((x + 1) * one() + step1)
            }
            &&& utilization > t ==> {
                let (x, over, room) = (rate - base - step1, utilization - t, one() - t);
                &&& x >= 0
                &&& x * room <= over * step2
                &&& over * one() * step2 <= room * ((x + 1) * one() + step2)
            }
        }),
{
    let t = interest.target_utilization.atomics as nat;
    let (step1, step2) = (interest.step1.atomics as nat, interest.step2.atomics as nat);
    let used = if utilization < t { utilization } else { t };
    let way = interest.way_to_target(utilization);
    lemma_floor(used * one(), t);
    lemma_floor(way * step1, one());
    lemma_two_floors(used, t, step1, way, interest.below_target(utilization));
    if used == t {
        lemma_whole_way(t, step1, way, interest.below_target(utilization));
    }
    if utilization == 0 {
        assert(0 * one() == 0nat && 0nat * step1 == 0) by (nonlinear_arith);
    }
    if utilization > t {
        let (over, room) = ((utilization - t) as nat, (one() - t) as nat);
        let beyond = interest.way_beyond(utilization);
        lemma_floor(over * one(), room);
        lemma_floor(beyond * step2, one());
        lemma_two_floors(over, room, step2, beyond, interest.above_target(utilization));
        if over == room {
            lemma_whole_way(room, step2, beyond, interest.above_target(utilization));
        }
    }
}

proof fn lemma_two_floors(u: nat, t: nat, step: nat, way: nat, x: nat)
    requires
        is_floor(way, u * one(), t),
        is_floor(x, way * step, one()),
    ensures
        x * t <= u * step,
        u * one() * step <= t * ((x + 1) * one() + step),
{
    let o = one();
    assert(x * o * t <= u * o * step) by (nonlinear_arith)
        requires way * t <= u * o, x * o <= way * step,
    {
        assert((x * o) * t <= (way * step) * t);
        assert((way * t) * step <= (u * o) * step);
    }
    assert(x * t <= u * step) by (nonlinear_arith)
        requires x * o * t <= u * o * step, o == 1_000_000_000_000_000_000;
    assert(u * o * step <= t * ((x + 1) * o + step)) by (nonlinear_arith)
        requires u * o < (way + 1) * t, way * step < (x + 1) * o,
    {
        assert((u * o) * step <= ((way + 1) * t) * step);
        assert(((way + 1) * t) * step == t * (way * step) + t * step);
        assert(t * (way * step) <= t * ((x + 1) * o));
    }
}

proof fn lemma_whole_way(t: nat, step: nat, way: nat, x: nat)
    requires
        t > 0,
        is_floor(way, t * one(), t),
        is_floor(x, way * step, one()),
    ensures
        x == step,
{
    let o = one();
    assert(way == o) by (nonlinear_arith)
        requires way * t <= t * o < (way + 1) * t, t > 0;
    assert(x == step) by (nonlinear_arith)
        requires x * o <= o * step < (x + 1) * o, o > 0;
}

/// A clock that runs backwards is refused.
pub proof fn the_clock_runs_forward(state: StateView, now: nat, interest: Interest, fee: Decimal)
    requires
        now / 1_000_000_000 < state.last_updated / 1_000_000_000,
    ensures
        state.accrue(now, interest, fee) == Err::<(StateView, nat), _>(ErrorView::Overflow),
{
}

/// `shares` of `before` were bought for `amount`: for their value, less what rounding costs, which is
/// less than one share and a unit in the last place of the part of the pool.
pub open spec fn buys(before: PoolView, after: PoolView, amount: nat, shares: nat) -> bool {
    let whole = before.atomics / one();
    &&& shares > 0
    &&& after.size == before.size + amount
    &&& after.atomics == before.atomics + shares * one()
    &&& before.atomics == 0 ==> shares == amount
    &&& before.atomics > 0 ==> {
        &&& shares * before.size <= amount * whole
        &&& amount * whole * one() <= ((shares + 1) * one() + whole) * before.size
    }
}

/// `value` is what `shares` of a pool are worth, rounded down.
pub open spec fn worth(pool: PoolView, shares: nat, value: nat) -> bool {
    if shares == 0 {
        value == 0
    } else {
        is_floor(value, pool.size * shares, pool.atomics / one())
    }
}

/// `shares` of `before` were sold for `amount`: for their value, or for all that is left.
pub open spec fn sells(before: PoolView, after: PoolView, shares: nat, amount: nat) -> bool {
    &&& 0 < shares <= before.atomics / one()
    &&& after.size + amount == before.size
    &&& after.atomics + shares * one() == before.atomics
    &&& shares * one() == before.atomics ==> amount == before.size
    &&& worth(before, shares, amount)
}

/// Whoever joins a pool buys shares at their value.
pub proof fn joining_buys_shares(pool: PoolView, amount: nat)
    requires
        pool.wf(),
        pool.try_join(amount) is Ok,
    ensures
        buys(pool, pool.try_join(amount)->Ok_0.0, amount, pool.try_join(amount)->Ok_0.1),
        pool.try_join(amount)->Ok_0.1 <= u128::MAX,
{
    lemma_join_wf(pool, amount);
    if pool.atomics > 0 {
        let (z, s, x, n) = (pool.size, pool.shares(), pool.portion(amount), pool.issuance(amount));
        lemma_fundamental_div_mod(pool.atomics as int, one() as int);
        assert(pool.atomics == s * one());
        lemma_floor(amount * one(), z);
        assert(pool.raw_issuance(amount) == s * x) by {
            assert(s * one() * x == (s * x) * one()) by (nonlinear_arith);
            lemma_floor(s * one() * x, one());
            assert(is_floor(s * x, s * one() * x, one())) by {
                assert((s * x + 1) * one() == (s * x) * one() + one()) by (nonlinear_arith);
            }
        }
        lemma_floor(s * x, one());
        let o = one();
        assert(n * z * o <= amount * s * o) by (nonlinear_arith)
            requires n * o <= s * x, x * z <= amount * o,
        {
            assert((n * o) * z <= (s * x) * z);
            assert(s * (x * z) <= s * (amount * o));
        }
        assert(n * z <= amount * s) by (nonlinear_arith)
            requires n * z * o <= amount * s * o, o == 1_000_000_000_000_000_000;
        assert(amount * s * o <= ((n + 1) * o + s) * z) by (nonlinear_arith)
            requires s * x < (n + 1) * o, amount * o < (x + 1) * z,
        {
            assert(s * (amount * o) <= s * ((x + 1) * z));
            assert(s * ((x + 1) * z) == (s * x) * z + s * z);
            assert((s * x) * z <= ((n + 1) * o) * z);
        }
    }
}

/// A pool takes whoever pays for a share at least, as long as the numbers stay in range: `part` is
/// the part of the pool that the amount buys, and `shares` the whole shares in that part.
pub proof fn joining_is_open(pool: PoolView, amount: nat, part: nat, shares: nat)
    requires
        pool.wf(),
        pool.atomics == 0 ==> shares == amount,
        pool.atomics > 0 ==> is_floor(part, amount * one(), pool.size) && is_floor(
            shares,
            pool.atomics / one() * part,
            one(),
        ),
    ensures
        pool.try_join(amount) is Ok ==> pool.try_join(amount)->Ok_0.1 == shares,
        pool.try_join(amount) is Ok <==> {
            &&& amount > 0
            &&& shares > 0
            &&& pool.size + amount <= u128::MAX
            &&& pool.atomics + shares * one() <= u128::MAX
            &&& pool.atomics > 0 ==> part <= u128::MAX && pool.atomics / one() * part <= u128::MAX
        },
        pool.try_join(0) == Err::<(PoolView, nat), _>(ErrorView::SharePool(SharePoolError::ZeroAmount)),
        pool.atomics > 0 && amount > 0 && shares == 0 && part <= u128::MAX && pool.atomics / one() * part
            <= u128::MAX ==> pool.try_join(amount) == Err::<(PoolView, nat), _>(
            ErrorView::SharePool(SharePoolError::ZeroShares),
        ),
{
    if pool.atomics > 0 {
        let (z, s, o) = (pool.size, pool.shares(), one());
        lemma_fundamental_div_mod(pool.atomics as int, o as int);
        assert(pool.atomics == s * o);
        lemma_floor(amount * o, z);
        lemma_floor(0, z);
        assert(pool.raw_issuance(amount) == s * part) by {
            assert(s * o * part == (s * part) * o) by (nonlinear_arith);
            lemma_floor(s * o * part, o);
            assert(is_floor(s * part, s * o * part, o)) by {
                assert((s * part + 1) * o == (s * part) * o + o) by (nonlinear_arith);
            }
        }
        lemma_floor(s * part, o);
    }
}

/// Whoever leaves a pool is paid the value of the shares, and anyone who holds shares can leave.
pub proof fn leaving_sells_shares(pool: PoolView, shares: nat)
    requires
        pool.wf(),
    ensures
        pool.try_leave(shares) is Ok <==> 0 < shares <= pool.shares(),
        pool.try_leave(shares) is Ok ==> sells(
            pool,
            pool.try_leave(shares)->Ok_0.0,
            shares,
            pool.try_leave(shares)->Ok_0.1,
        ),
{
    lemma_fundamental_div_mod(pool.atomics as int, one() as int);
    if 0 < shares <= pool.shares() {
        let (z, s) = (pool.size, pool.shares());
        lemma_leave_wf(pool, shares);
        lemma_floor(z * shares, s);
        if shares == s {
            assert(z * s < (z + 1) * s) by (nonlinear_arith)
                requires s > 0;
        }
    }
}

/// Shares of a pool are valued at their part of it.
pub proof fn shares_have_their_part(pool: PoolView, shares: nat, value: nat)
    requires
        pool.wf(),
        shares <= pool.shares(),
        worth(pool, shares, value),
    ensures
        pool.try_ownership(shares) == Ok::<_, ErrorView>(value),
        value <= pool.size,
{
    if shares > 0 {
        let (z, s) = (pool.size, pool.shares());
        lemma_floor(z * shares, s);
        assert(value <= z) by (nonlinear_arith)
            requires value * s <= z * shares, shares <= s, s > 0;
    }
}

/// The name of the receipt token of a vault for `denom`.
pub open spec fn receipt_name(denom: Seq<char>) -> Seq<char> {
    "ghost-vault/"@ + denom
}

/// The denomination of the receipt token of a vault for `denom`.
pub open spec fn receipts(denom: Seq<char>) -> Seq<char> {
    "x/"@ + receipt_name(denom)
}

/// The request of a vault to mint receipt tokens.
pub open spec fn minted(contract: Seq<char>, denom: Seq<char>, amount: nat, to: Seq<char>) -> MsgView {
    MsgView::Any {
        type_url: "/thorchain.denom.v1.MsgMintTokens"@,
        value: mint_value(contract, receipt_name(denom), amount as u128, to),
    }
}

/// The request of a vault to burn receipt tokens.
pub open spec fn burned(contract: Seq<char>, denom: Seq<char>, amount: nat) -> MsgView {
    MsgView::Any {
        type_url: "/thorchain.denom.v1.MsgBurnTokens"@,
        value: burn_value(contract, receipt_name(denom), amount as u128),
    }
}

/// The one coin that goes along with a message.
pub open spec fn coin(amount: nat, denom: Seq<char>) -> Seq<CoinView> {
    seq![CoinView { denom, amount }]
}

/// A message pays an amount to an address: as a transfer, or along with the callback.
pub open spec fn pays(msg: MsgView, callback: Option<CallbackData>, to: Seq<char>, amount: nat, denom: Seq<char>) -> bool {
    match callback {
        None => msg == (MsgView::BankSend { to_address: to, amount: coin(amount, denom) }),
        Some(cb) => callback_payload(cb.data@) is Ok && msg == (MsgView::WasmExecute {
            contract_addr: to,
            msg: callback_payload(cb.data@)->Ok_0,
            funds: coin(amount, denom),
        }),
    }
}

/// The callback, if there is one, can be encoded.
pub open spec fn encodes(callback: Option<CallbackData>) -> bool {
    callback is Some ==> callback_payload(callback->0.data@) is Ok
}

/// Exactly one coin of `denom` came with a message.
pub open spec fn brings(info: MessageInfo, amount: nat, denom: Seq<char>) -> bool {
    &&& info.funds@.len() == 1
    &&& info.funds@[0].denom@ == denom
    &&& info.funds@[0].amount == amount
    &&& amount > 0
}

/// The fee shares are minted to the fee address, last of all messages, if there are any.
pub open spec fn then_fees(messages: Seq<MsgView>, config: Config, env: Env, fees: nat) -> Seq<MsgView> {
    if fees > 0 {
        messages.push(minted(env.contract@, config.denom@, fees, config.fee_address@))
    } else {
        messages
    }
}

/// The one event of a request on a pool.
pub open spec fn logged(kind: Seq<char>, role: Seq<char>, account: Seq<char>, amount: nat, shares: nat, delegate: Option<Address>) -> Seq<
    EventView,
> {
    let named = seq![("amount"@, decimal_text(amount)), (role, account), ("shares"@, decimal_text(shares))];
    seq![
        EventView {
            kind,
            attributes: match delegate {
                Some(d) => named.push(("delegate"@, d.text@)),
                None => named,
            },
        },
    ]
}

/// A deposit: the depositor's one coin of the asset joins the deposit pool, and nothing else on the
/// ledger changes. Exactly the shares bought are minted: to the depositor, or to the vault, which
/// sends exactly these to the depositor along with the callback. None of the asset goes out.
pub proof fn a_deposit_buys_receipts(
    config: Config,
    env: Env,
    info: MessageInfo,
    state: StateView,
    borrower: Option<BorrowerView>,
    callback: Option<CallbackData>,
)
    requires
        config.wf(),
        state.wf(),
        execution(config, env, info, state, borrower, ExecuteMsg::Deposit { callback }) is Ok,
    ensures
        state.accrue(env.time as nat, config.interest, config.fee) is Ok,
        ({
            let (current, fees) = state.accrue(env.time as nat, config.interest, config.fee)->Ok_0;
            let (next, debtor, response) = execution(
                config,
                env,
                info,
                state,
                borrower,
                ExecuteMsg::Deposit { callback },
            )->Ok_0;
            let (denom, amount) = (config.denom@, info.funds@[0].amount as nat);
            let shares = ((next.deposit.atomics - current.deposit.atomics) / one() as int) as nat;
            &&& brings(info, amount, denom)
            &&& buys(current.deposit, next.deposit, amount, shares)
            &&& shares <= u128::MAX
            &&& next.debt == current.debt
            &&& next.last_updated == current.last_updated
            &&& debtor == borrower
            &&& encodes(callback)
            &&& response.messages == then_fees(
                match callback {
                    None => seq![minted(env.contract@, denom, shares, info.sender@)],
                    Some(cb) => seq![
                        minted(env.contract@, denom, shares, env.contract@),
                        MsgView::WasmExecute {
                            contract_addr: info.sender@,
                            msg: callback_payload(cb.data@)->Ok_0,
                            funds: coin(shares, receipts(denom)),
                        },
                    ],
                },
                config,
                env,
                fees,
            )
            &&& outflow(response.messages, denom) == 0
            &&& outflow(response.messages, receipts(denom)) == (if callback is Some {
                shares
            } else {
                0
            })
            &&& response.events == logged(
                "rujira-ghost-vault/deposit"@,
                "owner"@,
                info.sender@,
                amount,
                shares,
                None,
            )
        }),
{
    let (current, fees) = state.accrue(env.time as nat, config.interest, config.fee)->Ok_0;
    let (next, _, response) = execution(config, env, info, state, borrower, ExecuteMsg::Deposit { callback })->Ok_0;
    let (denom, amount) = (config.denom@, info.funds@[0].amount as nat);
    accrual_keeps_liquidity(state, env.time as nat, config.interest, config.fee);
    joining_buys_shares(current.deposit, amount);
    let n = current.deposit.try_join(amount)->Ok_0.1;
    lemma_whole(current.deposit.atomics, next.deposit.atomics, n);
    let first = minted(env.contract@, denom, n, if callback is Some { env.contract@ } else { info.sender@ });
    lemma_one_message(first, denom);
    lemma_one_message(first, receipts(denom));
    lemma_other_denom(denom);
    match callback {
        None => {
            assert(response.messages =~= then_fees(seq![first], config, env, fees));
            lemma_fees_send_nothing(seq![first], config, env, fees, denom);
            lemma_fees_send_nothing(seq![first], config, env, fees, receipts(denom));
        },
        Some(cb) => {
            let call = MsgView::WasmExecute {
                contract_addr: info.sender@,
                msg: callback_payload(cb.data@)->Ok_0,
                funds: coin(n, receipts(denom)),
            };
            assert(response.messages =~= then_fees(seq![first, call], config, env, fees));
            lemma_two_messages(first, call, denom);
            lemma_two_messages(first, call, receipts(denom));
            lemma_coin(n, receipts(denom), denom);
            lemma_coin(n, receipts(denom), receipts(denom));
            lemma_fees_send_nothing(seq![first, call], config, env, fees, denom);
            lemma_fees_send_nothing(seq![first, call], config, env, fees, receipts(denom));
        },
    }
    assert(response.events =~= logged("rujira-ghost-vault/deposit"@, "owner"@, info.sender@, amount, n, None));
}

/// A withdrawal: the depositor's one coin of receipt tokens leaves the deposit pool and is burned,
/// and exactly what the pool loses is paid to the depositor, as a transfer or along with the
/// callback. Nothing else on the ledger changes, and what goes out was there.
pub proof fn a_withdrawal_pays_what_it_takes(
    config: Config,
    env: Env,
    info: MessageInfo,
    state: StateView,
    borrower: Option<BorrowerView>,
    callback: Option<CallbackData>,
)
    requires
        config.wf(),
        state.wf(),
        execution(config, env, info, state, borrower, ExecuteMsg::Withdraw { callback }) is Ok,
    ensures
        state.accrue(env.time as nat, config.interest, config.fee) is Ok,
        ({
            let (current, fees) = state.accrue(env.time as nat, config.interest, config.fee)->Ok_0;
            let (next, debtor, response) = execution(
                config,
                env,
                info,
                state,
                borrower,
                ExecuteMsg::Withdraw { callback },
            )->Ok_0;
            let (denom, shares) = (config.denom@, info.funds@[0].amount as nat);
            let paid = (current.deposit.size - next.deposit.size) as nat;
            &&& brings(info, shares, receipts(denom))
            &&& sells(current.deposit, next.deposit, shares, paid)
            &&& next.debt == current.debt
            &&& next.last_updated == current.last_updated
            &&& debtor == borrower
            &&& next.debt.size <= next.deposit.size
            &&& response.messages.len() == (if fees > 0 {
                3int
            } else {
                2int
            })
            &&& response.messages == then_fees(response.messages.take(2), config, env, fees)
            &&& response.messages[0] == burned(env.contract@, denom, shares)
            &&& pays(response.messages[1], callback, info.sender@, paid, denom)
            &&& outflow(response.messages, denom) == paid
            &&& next.deposit.size - next.debt.size + outflow(response.messages, denom) == state.deposit.size
                - state.debt.size
            &&& response.events == logged(
                "rujira-ghost-vault/withdraw"@,
                "owner"@,
                info.sender@,
                paid,
                shares,
                None,
            )
        }),
{
    let (current, fees) = state.accrue(env.time as nat, config.interest, config.fee)->Ok_0;
    let (_, _, response) = execution(config, env, info, state, borrower, ExecuteMsg::Withdraw { callback })->Ok_0;
    let (denom, shares) = (config.denom@, info.funds@[0].amount as nat);
    accrual_keeps_liquidity(state, env.time as nat, config.interest, config.fee);
    leaving_sells_shares(current.deposit, shares);
    let paid = current.deposit.try_leave(shares)->Ok_0.1;
    let burn = burned(env.contract@, denom, shares);
    let pay = response.messages[1];
    assert(response.messages =~= then_fees(seq![burn, pay], config, env, fees));
    assert(response.messages.take(2) =~= seq![burn, pay]);
    lemma_two_messages(burn, pay, denom);
    lemma_coin(paid, denom, denom);
    assert(coin(paid, denom) =~= one_coin(paid, denom));
    lemma_fees_send_nothing(seq![burn, pay], config, env, fees, denom);
    assert(response.events =~= logged("rujira-ghost-vault/withdraw"@, "owner"@, info.sender@, paid, shares, None));
}

/// The whole shares between two numbers of atomic units.
proof fn lemma_whole(before: nat, after: nat, shares: nat)
    requires
        after == before + shares * one(),
    ensures
        (after - before) / one() as int == shares,
{
    assert(shares * one() / one() == shares) by (nonlinear_arith)
        requires one() == 1_000_000_000_000_000_000;
}

/// Receipt tokens are not the asset.
proof fn lemma_other_denom(denom: Seq<char>)
    ensures
        receipts(denom) != denom,
{
    reveal_strlit("x/");
    reveal_strlit("ghost-vault/");
    assert(receipts(denom).len() == denom.len() + 14);
}

proof fn lemma_coin(amount: nat, of: Seq<char>, denom: Seq<char>)
    ensures
        coins_in(coin(amount, of), denom) == (if of == denom {
            amount
        } else {
            0
        }),
{
    assert(coin(amount, of).drop_last() =~= Seq::<CoinView>::empty());
    reveal_with_fuel(coins_in, 2);
}

proof fn lemma_one_message(first: MsgView, denom: Seq<char>)
    ensures
        outflow(seq![first], denom) == sent(first, denom),
{
    assert(seq![first].drop_last() =~= Seq::<MsgView>::empty());
    reveal_with_fuel(outflow, 2);
}

proof fn lemma_two_messages(first: MsgView, second: MsgView, denom: Seq<char>)
    ensures
        outflow(seq![first, second], denom) == sent(first, denom) + sent(second, denom),
{
    lemma_one_message(first, denom);
    assert(seq![first, second].drop_last() =~= seq![first]);
}

proof fn lemma_fees_send_nothing(messages: Seq<MsgView>, config: Config, env: Env, fees: nat, denom: Seq<char>)
    ensures
        outflow(then_fees(messages, config, env, fees), denom) == outflow(messages, denom),
{
    let fee = minted(env.contract@, config.denom@, fees, config.fee_address@);
    assert(messages.push(fee).drop_last() =~= messages);
}

/// The debt shares on a delegate's books.
pub open spec fn allocated(borrower: BorrowerView, delegate: Seq<char>) -> nat {
    if borrower.delegates.contains_key(delegate) {
        borrower.delegates[delegate]
    } else {
        0
    }
}

/// The debt shares that a repayment is for: those of the delegate, or all of the borrower's.
pub open spec fn owed_shares(borrower: BorrowerView, delegate: Option<Address>) -> nat {
    match delegate {
        Some(d) => allocated(borrower, d.validated->Ok_0@),
        None => borrower.shares,
    }
}

/// The delegate, if there is one, has a valid address.
pub open spec fn valid(delegate: Option<Address>) -> bool {
    delegate is Some ==> delegate->0.validated is Ok
}

/// The same borrower with `shares` on its books, of which `delegated` are on those of the delegate,
/// if there is one; no other delegate's books change.
pub open spec fn rebooked(before: BorrowerView, after: BorrowerView, shares: int, delegate: Option<Address>, delegated: int) -> bool {
    &&& after.addr == before.addr
    &&& after.limit == before.limit
    &&& after.shares == shares
    &&& match delegate {
        None => after.delegates == before.delegates,
        Some(d) => delegated >= 0 && after.delegates == before.delegates.insert(
            d.validated->Ok_0@,
            delegated as nat,
        ),
    }
}

/// A loan: the one message, besides the fee's, pays exactly the amount asked for to the sender of the
/// request, as a transfer or along with the callback, with a delegate and without one. The debt pool
/// sells the shares, the borrower owes them, and a delegate is booked for them; the borrower's debt
/// is within its limit, and what goes out was there.
pub proof fn a_loan_is_paid_to_the_sender(
    config: Config,
    env: Env,
    info: MessageInfo,
    state: StateView,
    borrower: Option<BorrowerView>,
    amount: u128,
    callback: Option<CallbackData>,
    delegate: Option<Address>,
)
    requires
        config.wf(),
        state.wf(),
        execution(
            config,
            env,
            info,
            state,
            borrower,
            ExecuteMsg::Market(MarketMsg::Borrow { amount, callback, delegate }),
        ) is Ok,
    ensures
        state.accrue(env.time as nat, config.interest, config.fee) is Ok,
        borrower is Some,
        ({
            let (current, fees) = state.accrue(env.time as nat, config.interest, config.fee)->Ok_0;
            let (next, debtor, response) = execution(
                config,
                env,
                info,
                state,
                borrower,
                ExecuteMsg::Market(MarketMsg::Borrow { amount, callback, delegate }),
            )->Ok_0;
            let denom = config.denom@;
            let shares = ((next.debt.atomics - current.debt.atomics) / one() as int) as nat;
            &&& buys(current.debt, next.debt, amount as nat, shares)
            &&& next.deposit == current.deposit
            &&& next.last_updated == current.last_updated
            &&& next.debt.size <= next.deposit.size
            &&& valid(delegate)
            &&& debtor is Some
            &&& rebooked(
                borrower->0,
                debtor->0,
                (borrower->0.shares + shares) as int,
                delegate,
                (owed_shares(borrower->0, delegate) + shares) as int,
            )
            &&& next.debt.size * debtor->0.shares / (next.debt.atomics / one()) <= borrower->0.limit
            &&& response.messages.len() == (if fees > 0 {
                2int
            } else {
                1int
            })
            &&& response.messages == then_fees(response.messages.take(1), config, env, fees)
            &&& pays(response.messages[0], callback, info.sender@, amount as nat, denom)
            &&& outflow(response.messages, denom) == amount
            &&& next.deposit.size - next.debt.size + amount == state.deposit.size - state.debt.size
            &&& response.events == logged(
                "rujira-ghost-vault/borrow"@,
                "borrower"@,
                borrower->0.addr,
                amount as nat,
                shares,
                delegate,
            )
        }),
{
    let (current, fees) = state.accrue(env.time as nat, config.interest, config.fee)->Ok_0;
    let (next, debtor, response) = execution(
        config,
        env,
        info,
        state,
        borrower,
        ExecuteMsg::Market(MarketMsg::Borrow { amount, callback, delegate }),
    )->Ok_0;
    let (denom, a) = (config.denom@, amount as nat);
    accrual_keeps_liquidity(state, env.time as nat, config.interest, config.fee);
    joining_buys_shares(current.debt, a);
    lemma_join_wf(current.debt, a);
    let n = current.debt.try_join(a)->Ok_0.1;
    lemma_whole(current.debt.atomics, next.debt.atomics, n);
    let total = debtor->0.shares;
    assert(next.debt.ownership(total) == next.debt.size * total / next.debt.shares());
    let pay = response.messages[0];
    assert(response.messages =~= then_fees(seq![pay], config, env, fees));
    assert(response.messages.take(1) =~= seq![pay]);
    lemma_one_message(pay, denom);
    lemma_coin(a, denom, denom);
    assert(coin(a, denom) =~= one_coin(a, denom));
    lemma_fees_send_nothing(seq![pay], config, env, fees, denom);
    assert(response.events =~= logged("rujira-ghost-vault/borrow"@, "borrower"@, borrower->0.addr, a, n, delegate));
}

/// A repayment: of the one coin of the asset that came in, the vault keeps what is owed at most, and
/// sends the rest back to the sender of the request. The shares that it pays off leave the debt pool
/// and the borrower's books, and those of the delegate if it is for one. Deposits stay as they are.
pub proof fn a_repayment_keeps_what_is_owed(
    config: Config,
    env: Env,
    info: MessageInfo,
    state: StateView,
    borrower: Option<BorrowerView>,
    delegate: Option<Address>,
)
    requires
        config.wf(),
        state.wf(),
        execution(config, env, info, state, borrower, ExecuteMsg::Market(MarketMsg::Repay { delegate })) is Ok,
    ensures
        state.accrue(env.time as nat, config.interest, config.fee) is Ok,
        borrower is Some,
        ({
            let (current, fees) = state.accrue(env.time as nat, config.interest, config.fee)->Ok_0;
            let (next, debtor, response) = execution(
                config,
                env,
                info,
                state,
                borrower,
                ExecuteMsg::Market(MarketMsg::Repay { delegate }),
            )->Ok_0;
            let (denom, amount) = (config.denom@, info.funds@[0].amount as nat);
            let debt = current.debt.size * owed_shares(borrower->0, delegate) / (current.debt.atomics / one());
            let paid = if amount <= debt {
                amount
            } else {
                debt
            };
            let shares = ((current.debt.atomics - next.debt.atomics) / one() as int) as nat;
            let written_off = (current.debt.size - next.debt.size) as nat;
            &&& brings(info, amount, denom)
            &&& valid(delegate)
            &&& is_floor(shares, paid * (current.debt.atomics / one()), current.debt.size)
            &&& sells(current.debt, next.debt, shares, written_off)
            &&& written_off <= paid
            &&& next.deposit == current.deposit
            &&& next.last_updated == current.last_updated
            &&& debtor is Some
            &&& rebooked(
                borrower->0,
                debtor->0,
                borrower->0.shares - shares,
                delegate,
                owed_shares(borrower->0, delegate) - shares,
            )
            &&& response.messages == then_fees(
                if paid < amount {
                    seq![
                        MsgView::BankSend {
                            to_address: info.sender@,
                            amount: coin((amount - paid) as nat, denom),
                        },
                    ]
                } else {
                    Seq::empty()
                },
                config,
                env,
                fees,
            )
            &&& outflow(response.messages, denom) == amount - paid
            &&& response.events == logged(
                "rujira-ghost-vault/repay"@,
                "borrower"@,
                borrower->0.addr,
                paid,
                shares,
                delegate,
            )
        }),
{
    let (current, fees) = state.accrue(env.time as nat, config.interest, config.fee)->Ok_0;
    let (next, debtor, response) = execution(
        config,
        env,
        info,
        state,
        borrower,
        ExecuteMsg::Market(MarketMsg::Repay { delegate }),
    )->Ok_0;
    let (denom, amount) = (config.denom@, info.funds@[0].amount as nat);
    accrual_keeps_liquidity(state, env.time as nat, config.interest, config.fee);
    let owed = owed_shares(borrower->0, delegate);
    let (z, s) = (current.debt.size, current.debt.shares());
    let debt = current.debt.ownership(owed);
    let paid = if amount <= debt { amount } else { debt };
    let n = current.shares_paid(paid);
    leaving_sells_shares(current.debt, n);
    lemma_shares_need_debt(current, owed, paid);
    repayment_covers_debt(current, paid);
    lemma_floor(paid * s, z);
    lemma_whole(next.debt.atomics, current.debt.atomics, n);
    let refund = MsgView::BankSend { to_address: info.sender@, amount: coin((amount - paid) as nat, denom) };
    let first = if paid < amount { seq![refund] } else { Seq::<MsgView>::empty() };
    assert(coin((amount - paid) as nat, denom) =~= one_coin((amount - paid) as nat, denom));
    assert(response.messages =~= then_fees(first, config, env, fees));
    lemma_one_message(refund, denom);
    lemma_coin((amount - paid) as nat, denom, denom);
    lemma_fees_send_nothing(first, config, env, fees, denom);
    assert(response.events =~= logged("rujira-ghost-vault/repay"@, "borrower"@, borrower->0.addr, paid, n, delegate));
}

/// Nothing is paid off where nothing is owed.
proof fn lemma_shares_need_debt(state: StateView, owed: nat, paid: nat)
    requires
        state.wf(),
        state.shares_paid(paid) > 0,
        paid <= state.debt.ownership(owed),
    ensures
        owed > 0,
        state.debt.size > 0 || paid > 0,
{
    if paid == 0 && state.debt.size > 0 {
        let s = state.debt.shares();
        assert(0 * s == 0) by (nonlinear_arith);
        lemma_floor(0, state.debt.size);
        assert(is_floor(0, 0, state.debt.size));
    }
}

/// Assets are added to a pool wherever a share is worth between one unit and five.
pub proof fn crediting_is_open(pool: PoolView, amount: nat)
    requires
        pool.wf(),
        0 < pool.shares() <= one(),
        pool.shares() <= pool.size + amount <= 5 * pool.shares(),
    ensures
        pool.try_deposit(amount) is Ok,
        pool.try_deposit(amount)->Ok_0.size == pool.size + amount,
        pool.try_deposit(amount)->Ok_0.atomics == pool.atomics,
{
    let grown = pool.donated(amount);
    let (z, s, o) = (grown.size, pool.shares(), one());
    lemma_fundamental_div_mod(pool.atomics as int, o as int);
    assert(pool.atomics == s * o);
    let x = grown.portion(1000);
    lemma_floor(1000 * o, z);
    assert(grown.raw_issuance(1000) == s * x) by {
        assert(s * o * x == (s * x) * o) by (nonlinear_arith);
        lemma_floor(s * o * x, o);
        assert(is_floor(s * x, s * o * x, o)) by {
            assert((s * x + 1) * o == (s * x) * o + o) by (nonlinear_arith);
        }
    }
    lemma_floor(s * x, o);
    let n = grown.issuance(1000);
    assert(s * x <= 1000 * o && x <= 1000 * o) by (nonlinear_arith)
        requires x * z <= 1000 * o, 1 <= s <= z;
    assert(n <= 1000) by (nonlinear_arith)
        requires n * o <= s * x, s * x <= 1000 * o, o == 1_000_000_000_000_000_000;
    assert(1000 * s * o <= ((n + 1) * o + s) * z) by (nonlinear_arith)
        requires s * x < (n + 1) * o, 1000 * o < (x + 1) * z,
    {
        assert(s * (1000 * o) <= s * ((x + 1) * z));
        assert(s * ((x + 1) * z) == (s * x) * z + s * z);
        assert((s * x) * z <= ((n + 1) * o) * z);
    }
    assert(1000 * s <= (n + 2) * z) by (nonlinear_arith)
        requires 1000 * s * o <= ((n + 1) * o + s) * z, s <= o, o == 1_000_000_000_000_000_000,
    {
        assert(((n + 1) * o + s) * z <= ((n + 1) * o + o) * z);
        assert(((n + 1) * o + o) * z == ((n + 2) * z) * o);
    }
    assert(n >= 1) by (nonlinear_arith)
        requires 1000 * s <= (n + 2) * z, z <= 5 * s, s >= 1;
    let joined = grown.join(1000)->Ok_0.0;
    assert(joined.atomics == (s + n) * o) by (nonlinear_arith)
        requires joined.atomics == s * o + n * o;
    assert(joined.shares() == s + n) by {
        lemma_whole(0, joined.atomics, s + n);
    }
    let v = joined.ownership(n);
    lemma_floor((z + 1000) * n, s + n);
    assert(v >= 990) by (nonlinear_arith)
        requires
            (z + 1000) * n < (v + 1) * (s + n),
            1000 * s <= (n + 2) * z,
            z <= 5 * s,
            s >= 1,
    {
        assert((z + 1000) * n == z * n + 1000 * n);
        assert((n + 2) * z == z * n + 2 * z);
        assert(z * n + 1000 * n >= 1000 * s - 10 * s + 1000 * n);
        assert(990 * (s + n) <= (z + 1000) * n);
    }
}

/// Whoever brings one coin of the asset is let in exactly if the pool takes it, and else hears why.
pub proof fn deposits_are_answered(
    config: Config,
    env: Env,
    info: MessageInfo,
    state: StateView,
    borrower: Option<BorrowerView>,
    callback: Option<CallbackData>,
    amount: nat,
)
    requires
        config.wf(),
        state.wf(),
        state.accrue(env.time as nat, config.interest, config.fee) is Ok,
        brings(info, amount, config.denom@),
        encodes(callback),
    ensures
        ({
            let joined = state.accrue(env.time as nat, config.interest, config.fee)->Ok_0.0.deposit.try_join(amount);
            let outcome = execution(config, env, info, state, borrower, ExecuteMsg::Deposit { callback });
            &&& outcome is Ok <==> joined is Ok
            &&& outcome is Err ==> outcome->Err_0 == joined->Err_0
        }),
{
}

/// Whoever brings receipt tokens is paid, as far as the vault holds what they are worth; where it
/// does not, it says so.
pub proof fn withdrawals_are_answered(
    config: Config,
    env: Env,
    info: MessageInfo,
    state: StateView,
    borrower: Option<BorrowerView>,
    callback: Option<CallbackData>,
    shares: nat,
)
    requires
        config.wf(),
        state.wf(),
        state.accrue(env.time as nat, config.interest, config.fee) is Ok,
        brings(info, shares, receipts(config.denom@)),
        encodes(callback),
    ensures
        ({
            let current = state.accrue(env.time as nat, config.interest, config.fee)->Ok_0.0;
            let outcome = execution(config, env, info, state, borrower, ExecuteMsg::Withdraw { callback });
            let whole = current.deposit.atomics / one();
            let value = current.deposit.size * shares / whole;
            if shares > whole {
                outcome is Err && outcome->Err_0 == ErrorView::SharePool(SharePoolError::ShareOverflow)
            } else if value > current.deposit.size - current.debt.size {
                outcome is Err && outcome->Err_0 == ErrorView::InsufficientLiquidity
            } else {
                outcome is Ok
            }
        }),
{
    accrual_keeps_liquidity(state, env.time as nat, config.interest, config.fee);
    let current = state.accrue(env.time as nat, config.interest, config.fee)->Ok_0.0;
    let (z, s) = (current.deposit.size, current.deposit.shares());
    if shares <= s {
        leaving_sells_shares(current.deposit, shares);
        lemma_floor(z * shares, s);
    }
}

/// Whoever may borrow gets a loan, as far as the vault holds the amount and the debt stays within
/// the limit; where one of these fails, the vault says which.
pub proof fn loans_are_answered(
    config: Config,
    env: Env,
    info: MessageInfo,
    state: StateView,
    borrower: BorrowerView,
    amount: u128,
    callback: Option<CallbackData>,
    delegate: Option<Address>,
    shares: nat,
)
    requires
        config.wf(),
        state.wf(),
        state.accrue(env.time as nat, config.interest, config.fee) is Ok,
        ({
            let current = state.accrue(env.time as nat, config.interest, config.fee)->Ok_0.0;
            &&& current.debt.try_join(amount as nat) is Ok
            &&& shares == current.debt.try_join(amount as nat)->Ok_0.1
            &&& borrower.shares <= current.debt.atomics / one()
            &&& owed_shares(borrower, delegate) <= current.debt.atomics / one()
        }),
        valid(delegate),
        encodes(callback),
    ensures
        ({
            let current = state.accrue(env.time as nat, config.interest, config.fee)->Ok_0.0;
            let outcome = execution(
                config,
                env,
                info,
                state,
                Some(borrower),
                ExecuteMsg::Market(MarketMsg::Borrow { amount, callback, delegate }),
            );
            let debt = (current.debt.size + amount) as nat * (borrower.shares + shares) / (current.debt.atomics
                / one() + shares);
            if amount > current.deposit.size - current.debt.size {
                outcome is Err && outcome->Err_0 == ErrorView::InsufficientLiquidity
            } else if debt > borrower.limit {
                outcome is Err && outcome->Err_0 == ErrorView::BorrowLimit
            } else {
                outcome is Ok
            }
        }),
{
    accrual_keeps_liquidity(state, env.time as nat, config.interest, config.fee);
    let current = state.accrue(env.time as nat, config.interest, config.fee)->Ok_0.0;
    let a = amount as nat;
    lemma_join_wf(current.debt, a);
    let lent = current.debt.try_join(a)->Ok_0.0;
    let total = borrower.shares + shares;
    assert(lent.atomics / one() >= total);
    assert(lent.atomics / one() <= lent.atomics) by (nonlinear_arith)
        requires one() == 1_000_000_000_000_000_000;
    lemma_floor(lent.size * total, lent.shares());
    shares_have_their_part(lent, total, lent.size * total / lent.shares());
}

/// Only known borrowers may use the market.
pub proof fn strangers_may_not_borrow(config: Config, env: Env, info: MessageInfo, state: StateView, msg: MarketMsg)
    requires
        state.accrue(env.time as nat, config.interest, config.fee) is Ok,
    ensures
        execution(config, env, info, state, None, ExecuteMsg::Market(msg)) == Err::<
            (StateView, Option<BorrowerView>, ResponseView),
            _,
        >(ErrorView::Unauthorized),
{
}

/// Whoever owes and pays enough for a share of the debt is heard.
pub proof fn repayments_are_accepted(
    config: Config,
    env: Env,
    info: MessageInfo,
    state: StateView,
    borrower: BorrowerView,
    delegate: Option<Address>,
    amount: nat,
)
    requires
        config.wf(),
        state.wf(),
        state.accrue(env.time as nat, config.interest, config.fee) is Ok,
        brings(info, amount, config.denom@),
        valid(delegate),
        ({
            let debt = state.accrue(env.time as nat, config.interest, config.fee)->Ok_0.0.debt;
            let (whole, owed) = (debt.atomics / one(), owed_shares(borrower, delegate));
            &&& owed <= borrower.shares <= whole
            &&& 0 < debt.size <= amount * whole
            &&& debt.size <= debt.size * owed / whole * whole
        }),
    ensures
        execution(
            config,
            env,
            info,
            state,
            Some(borrower),
            ExecuteMsg::Market(MarketMsg::Repay { delegate }),
        ) is Ok,
{
    accrual_keeps_liquidity(state, env.time as nat, config.interest, config.fee);
    let current = state.accrue(env.time as nat, config.interest, config.fee)->Ok_0.0;
    let (z, s) = (current.debt.size, current.debt.shares());
    let owed = owed_shares(borrower, delegate);
    lemma_fundamental_div_mod(current.debt.atomics as int, one() as int);
    assert(owed > 0) by {
        if owed == 0 {
            assert(z * 0 == 0) by (nonlinear_arith);
            lemma_floor(0, s);
            assert(is_floor(0, 0, s));
            assert(0 * s == 0) by (nonlinear_arith);
        }
    }
    let debt = current.debt.ownership(owed);
    let paid = if amount < debt { amount } else { debt };
    lemma_floor(paid * s, z);
    assert(current.shares_paid(paid) > 0) by {
        let q = current.shares_paid(paid);
        assert(q > 0) by (nonlinear_arith)
            requires paid * s < (q + 1) * z, z <= paid * s;
    }
    repayment_is_accepted(config.denom@, info.sender@, current, borrower, amount, delegate);
}

/// A request that does not bring exactly one coin, of the right denomination, is refused for it.
pub proof fn wrong_funds_are_refused(
    config: Config,
    env: Env,
    info: MessageInfo,
    state: StateView,
    borrower: Option<BorrowerView>,
    msg: ExecuteMsg,
)
    requires
        state.accrue(env.time as nat, config.interest, config.fee) is Ok,
        match msg {
            ExecuteMsg::Deposit { .. } => !brings(info, info.funds@[0].amount as nat, config.denom@),
            ExecuteMsg::Withdraw { .. } => !brings(info, info.funds@[0].amount as nat, receipts(config.denom@)),
            ExecuteMsg::Market(MarketMsg::Repay { .. }) => borrower is Some && !brings(
                info,
                info.funds@[0].amount as nat,
                config.denom@,
            ),
            ExecuteMsg::Market(MarketMsg::Borrow { .. }) => false,
        },
    ensures
        execution(config, env, info, state, borrower, msg) is Err,
        execution(config, env, info, state, borrower, msg)->Err_0 is Payment,
{
}

/// What a borrower can borrow now: what is left of its limit, and no more than the vault holds.
pub open spec fn room(state: StateView, limit: nat, current: nat) -> int {
    let (left, held) = (limit - current, state.deposit.size - state.debt.size);
    if left < 0 {
        0
    } else if left < held {
        left
    } else {
        held
    }
}

/// A report on a borrower is true of it: what it owes is its own part of the debt, rounded down, and
/// what it can borrow is what is left of its limit, as far as the vault holds it.
pub open spec fn reports(config: Config, state: StateView, borrower: Borrower, report: BorrowerResponse) -> bool {
    &&& report.addr == borrower.addr
    &&& report.denom == config.denom
    &&& report.limit == borrower.limit
    &&& report.shares == borrower.shares
    &&& worth(state.debt, borrower.shares as nat, report.current as nat)
    &&& report.available == room(state, borrower.limit as nat, report.current as nat)
}

/// A query for a borrower is answered with a report that is true of it.
pub proof fn borrowers_are_reported(
    config: Config,
    state: StateView,
    addr: Address,
    borrower: Borrower,
    answer: Result<QueryResponse, ContractError>,
)
    requires
        state.wf(),
        addr.validated is Ok,
        borrower.shares <= state.debt.atomics / one(),
        answers(config, state, QueryMsg::Borrower { borrower: Lookup { addr, found: Some(borrower) } }, answer),
    ensures
        answer is Ok,
        answer->Ok_0 is Borrower,
        reports(config, state, borrower, answer->Ok_0->Borrower_0),
{
    lemma_valued(state.debt, borrower.shares as nat);
}

/// A query for a delegate is answered with a true report on the borrower, and with the delegate's
/// own part of the debt.
pub proof fn delegates_are_reported(
    config: Config,
    state: StateView,
    at: Address,
    borrower: Borrower,
    addr: Address,
    answer: Result<QueryResponse, ContractError>,
)
    requires
        state.wf(),
        at.validated is Ok,
        addr.validated is Ok,
        borrower.shares <= state.debt.atomics / one(),
        allocated(borrower@, addr.validated->Ok_0@) <= state.debt.atomics / one(),
        answers(config, state, QueryMsg::Delegate { borrower: Lookup { addr: at, found: Some(borrower) }, addr }, answer),
    ensures
        answer is Ok,
        answer->Ok_0 is Delegate,
        ({
            let report = answer->Ok_0->Delegate_0;
            &&& reports(config, state, borrower, report.borrower)
            &&& report.addr == addr.text
            &&& report.shares == allocated(borrower@, addr.validated->Ok_0@)
            &&& worth(state.debt, report.shares as nat, report.current as nat)
        }),
{
    let shares = allocated(borrower@, addr.validated->Ok_0@);
    lemma_valued(state.debt, borrower.shares as nat);
    lemma_valued(state.debt, shares);
    assert(state.debt.atomics / one() <= state.debt.atomics) by (nonlinear_arith)
        requires one() == 1_000_000_000_000_000_000;
}

/// A list of borrowers reports on each of them truly, and fails for none whose shares the pool backs.
pub proof fn lists_report_truly(
    config: Config,
    state: StateView,
    limit: Option<u8>,
    start_after: Option<Address>,
    stored: Vec<Borrower>,
    answer: Result<QueryResponse, ContractError>,
)
    requires
        state.wf(),
        start_after is Some ==> start_after->0.validated is Ok,
        forall|k: int| 0 <= k < stored@.len() ==> (#[trigger] stored@[k]).shares <= state.debt.atomics / one(),
        answers(config, state, QueryMsg::Borrowers { limit, start_after, stored }, answer),
    ensures
        answer is Ok,
        answer->Ok_0 is Borrowers,
        forall|i: int|
            0 <= i < answer->Ok_0->Borrowers_0@.len() ==> exists|k: int|
                0 <= k < stored@.len() && reports(
                    config,
                    state,
                    #[trigger] stored@[k],
                    #[trigger] answer->Ok_0->Borrowers_0@[i],
                ),
{
    let start = start_address(start_after)->Ok_0;
    let page = cut(listed(stored@, start), limit);
    lemma_listed(stored@, start);
    assert forall|i: int| 0 <= i < page.len() implies stored@.contains(#[trigger] page[i]) && borrower_response(
        config,
        state,
        page[i],
    ) is Ok && reports(config, state, page[i], borrower_response(config, state, page[i])->Ok_0) by {
        assert(page[i] == listed(stored@, start)[i]);
        let k = choose|k: int| 0 <= k < stored@.len() && stored@[k] == page[i];
        assert(stored@[k].shares <= state.debt.atomics / one());
        lemma_valued(state.debt, page[i].shares as nat);
    }
    let list = answer->Ok_0->Borrowers_0@;
    assert forall|i: int| 0 <= i < list.len() implies exists|k: int|
        0 <= k < stored@.len() && reports(config, state, #[trigger] stored@[k], #[trigger] list[i]) by {
        assert(stored@.contains(page[i]));
        let k = choose|k: int| 0 <= k < stored@.len() && stored@[k] == page[i];
        assert(borrower_response(config, state, page[i]) == Ok::<_, ErrorView>(list[i]));
        assert(reports(config, state, stored@[k], list[i]));
    }
}

/// Backed shares have a value, which fits.
proof fn lemma_valued(pool: PoolView, shares: nat)
    requires
        pool.wf(),
        shares <= pool.shares(),
    ensures
        pool.try_ownership(shares) is Ok,
        worth(pool, shares, pool.try_ownership(shares)->Ok_0),
        pool.try_ownership(shares)->Ok_0 <= pool.size,
{
    let value = if shares == 0 { 0 } else { pool.size * shares / pool.shares() };
    if shares > 0 {
        lemma_floor(pool.size * shares, pool.shares());
    }
    shares_have_their_part(pool, shares, value);
}

/// The status is true of the ledger: sizes and shares of both pools, the value of a share rounded
/// down, the part that is lent rounded up, and the rates there.
pub proof fn the_status_is_true(config: Config, state: StateView, answer: Result<QueryResponse, ContractError>)
    requires
        config.wf(),
        state.wf(),
        state.last_updated <= u64::MAX,
        state.debt_rate(config.interest) is Ok,
        state.deposit.size * one() <= u128::MAX,
        answers(config, state, QueryMsg::Status, answer),
    ensures
        answer is Ok,
        answer->Ok_0 is Status,
        ({
            let report = answer->Ok_0->Status_0;
            let part = report.utilization_ratio.atomics as nat;
            &&& report.last_updated == state.last_updated
            &&& describes(state.debt, report.debt_pool)
            &&& describes(state.deposit, report.deposit_pool)
            &&& state.deposit.size == 0 ==> part == 0
            &&& state.deposit.size > 0 ==> state.debt.size * one() <= part * state.deposit.size < state.debt.size
                * one() + state.deposit.size
            &&& report.debt_rate.atomics == config.interest.rate(part)
            &&& is_floor(report.lend_rate.atomics as nat, config.interest.rate(part) * part, one())
        }),
{
    let u = state.utilization();
    utilization_is_the_part_lent(state);
    lemma_utilization(state);
    rates_are_read_at_the_part_lent(state, config.interest, u);
    let r = state.debt_rate(config.interest)->Ok_0;
    lemma_scaled_down(r, u);
    assert(state.debt.size * one() <= state.deposit.size * one()) by (nonlinear_arith)
        requires state.debt.size <= state.deposit.size;
    lemma_ratio(state.debt);
    lemma_ratio(state.deposit);
}

/// A report on a pool is true of it.
pub open spec fn describes(pool: PoolView, report: PoolResponse) -> bool {
    &&& report.size == pool.size
    &&& report.shares == pool.atomics / one()
    &&& pool.atomics == 0 ==> report.ratio.atomics == 0
    &&& pool.atomics > 0 ==> is_floor(report.ratio.atomics as nat, pool.size * one(), pool.atomics / one())
}

proof fn lemma_ratio(pool: PoolView)
    requires
        pool.wf(),
        pool.size * one() <= u128::MAX,
    ensures
        pool.can_ratio(),
        describes(pool, pool_response(pool)),
{
    let (z, s, o) = (pool.size, pool.shares(), one());
    lemma_fundamental_div_mod(pool.atomics as int, o as int);
    assert(s <= pool.atomics) by (nonlinear_arith)
        requires pool.atomics == o * s, o == 1_000_000_000_000_000_000;
    if pool.atomics > 0 {
        assert(pool.atomics == s * o);
        let q = pool.ratio();
        lemma_floor(z * o * o, pool.atomics);
        assert(q * s <= z * o < (q + 1) * s) by (nonlinear_arith)
            requires q * (s * o) <= z * o * o < (q + 1) * (s * o), o == 1_000_000_000_000_000_000,
        {
            assert((q * s) * o <= (z * o) * o);
            assert((z * o) * o < ((q + 1) * s) * o);
        }
        assert(q <= z * o) by (nonlinear_arith)
            requires q * s <= z * o, s >= 1;
    }
}

/// The configuration is shown as it is.
pub proof fn the_configuration_is_shown(config: Config, state: StateView, answer: Result<QueryResponse, ContractError>)
    requires
        answers(config, state, QueryMsg::Config, answer),
    ensures
        answer is Ok,
        answer->Ok_0 is Config,
        answer->Ok_0->Config_0.denom == config.denom,
        answer->Ok_0->Config_0.interest == config.interest,
{
}

/// What a list of reports says that is owed in all.
pub open spec fn total_owed(list: Map<Seq<char>, BorrowerResponse>) -> nat
    decreases list.dom().len(),
    when list.dom().finite()
{
    if list.dom().len() == 0 {
        0
    } else {
        let addr = list.dom().choose();
        list[addr].current as nat + total_owed(list.remove(addr))
    }
}

/// What all borrowers are reported to owe adds up to no more than the debt pool.
pub proof fn reports_add_up(
    config: Config,
    state: StateView,
    stored: Map<Seq<char>, Borrower>,
    books: Map<Seq<char>, BorrowerView>,
    list: Map<Seq<char>, BorrowerResponse>,
)
    requires
        state.wf(),
        stored.dom().finite(),
        books.dom() == stored.dom(),
        list.dom() == stored.dom(),
        forall|addr: Seq<char>| #[trigger] stored.contains_key(addr) ==> books[addr] == stored[addr]@,
        total_shares(books) == state.debt.atomics / one(),
        forall|addr: Seq<char>|
            stored.contains_key(addr) ==> exists|at: Address|
                at.validated is Ok && #[trigger] answers(
                    config,
                    state,
                    QueryMsg::Borrower { borrower: Lookup { addr: at, found: Some(stored[addr]) } },
                    Ok(QueryResponse::Borrower(#[trigger] list[addr])),
                ),
    ensures
        total_owed(list) <= state.debt.size,
{
    let (z, s) = (state.debt.size, state.debt.atomics / one());
    assert forall|addr: Seq<char>| #[trigger] list.contains_key(addr) implies list[addr].current * s <= z
        * books[addr].shares by {
        assert(stored.contains_key(addr));
        every_debt_has_a_value(state, books, addr);
        let at = choose|at: Address|
            at.validated is Ok && #[trigger] answers(
                config,
                state,
                QueryMsg::Borrower { borrower: Lookup { addr: at, found: Some(stored[addr]) } },
                Ok(QueryResponse::Borrower(list[addr])),
            );
        borrowers_are_reported(config, state, at, stored[addr], Ok(QueryResponse::Borrower(list[addr])));
        if stored[addr].shares == 0 {
            assert(0 * s == 0 && z * 0 == 0) by (nonlinear_arith);
        }
    }
    lemma_sums(list, books, z, s);
    let t = total_owed(list);
    if s > 0 {
        assert(t <= z) by (nonlinear_arith)
            requires t * s <= z * s, s > 0;
    } else {
        assert forall|addr: Seq<char>| #[trigger] list.contains_key(addr) implies list[addr].current == 0 by {
            assert(stored.contains_key(addr));
            every_debt_has_a_value(state, books, addr);
            let at = choose|at: Address|
                at.validated is Ok && #[trigger] answers(
                    config,
                    state,
                    QueryMsg::Borrower { borrower: Lookup { addr: at, found: Some(stored[addr]) } },
                    Ok(QueryResponse::Borrower(list[addr])),
                );
            borrowers_are_reported(config, state, at, stored[addr], Ok(QueryResponse::Borrower(list[addr])));
        }
        lemma_nothing_owed(list);
    }
}

proof fn lemma_sums(list: Map<Seq<char>, BorrowerResponse>, books: Map<Seq<char>, BorrowerView>, z: nat, s: nat)
    requires
        list.dom().finite(),
        books.dom() == list.dom(),
        forall|addr: Seq<char>| #[trigger] list.contains_key(addr) ==> list[addr].current * s <= z * books[addr].shares,
    ensures
        total_owed(list) * s <= z * total_shares(books),
    decreases list.dom().len(),
{
    if list.dom().len() == 0 {
        assert(0 * s == 0 && z * 0 == 0) by (nonlinear_arith);
    } else {
        let addr = list.dom().choose();
        assert(list.contains_key(addr));
        let (rest, rest_books) = (list.remove(addr), books.remove(addr));
        assert forall|a: Seq<char>| #[trigger] rest.contains_key(a) implies rest[a].current * s <= z
            * rest_books[a].shares by {
            assert(list.contains_key(a));
        }
        lemma_sums(rest, rest_books, z, s);
        let (c, n) = (list[addr].current as nat, books[addr].shares);
        let (t, m) = (total_owed(rest), total_shares(rest_books));
        assert((c + t) * s <= z * (n + m)) by (nonlinear_arith)
            requires c * s <= z * n, t * s <= z * m;
    }
}

proof fn lemma_nothing_owed(list: Map<Seq<char>, BorrowerResponse>)
    requires
        list.dom().finite(),
        forall|addr: Seq<char>| #[trigger] list.contains_key(addr) ==> list[addr].current == 0,
    ensures
        total_owed(list) == 0,
    decreases list.dom().len(),
{
    if list.dom().len() > 0 {
        let addr = list.dom().choose();
        assert(list.contains_key(addr));
        let rest = list.remove(addr);
        assert forall|a: Seq<char>| #[trigger] rest.contains_key(a) implies rest[a].current == 0 by {
            assert(list.contains_key(a));
        }
        lemma_nothing_owed(rest);
    }
}

/// What a borrower is told that it can borrow, it can: a loan of that amount or less, in the same
/// block, is granted, as long as it is worth a share.
pub proof fn what_is_available_can_be_borrowed(
    config: Config,
    env: Env,
    info: MessageInfo,
    state: StateView,
    at: Address,
    borrower: Borrower,
    report: BorrowerResponse,
    amount: u128,
    callback: Option<CallbackData>,
    delegate: Option<Address>,
)
    requires
        config.wf(),
        state.wf(),
        state.accrue(env.time as nat, config.interest, config.fee) is Ok,
        at.validated is Ok,
        valid(delegate),
        encodes(callback),
        ({
            let current = state.accrue(env.time as nat, config.interest, config.fee)->Ok_0.0;
            &&& borrower.shares <= current.debt.atomics / one()
            &&& owed_shares(borrower@, delegate) <= current.debt.atomics / one()
            &&& current.debt.try_join(amount as nat) is Ok
            &&& answers(
                config,
                current,
                QueryMsg::Borrower { borrower: Lookup { addr: at, found: Some(borrower) } },
                Ok(QueryResponse::Borrower(report)),
            )
        }),
        amount <= report.available,
    ensures
        execution(
            config,
            env,
            info,
            state,
            Some(borrower@),
            ExecuteMsg::Market(MarketMsg::Borrow { amount, callback, delegate }),
        ) is Ok,
{
    accrual_keeps_liquidity(state, env.time as nat, config.interest, config.fee);
    let current = state.accrue(env.time as nat, config.interest, config.fee)->Ok_0.0;
    let (a, own) = (amount as nat, borrower.shares as nat);
    borrowers_are_reported(config, current, at, borrower, Ok(QueryResponse::Borrower(report)));
    joining_buys_shares(current.debt, a);
    let n = current.debt.try_join(a)->Ok_0.1;
    loans_are_answered(config, env, info, state, borrower@, amount, callback, delegate, n);
    let (z, s, c) = (current.debt.size, current.debt.shares(), report.current as nat);
    lemma_fundamental_div_mod(current.debt.atomics as int, one() as int);
    lemma_loan_adds_at_most_itself(z, s, own, a, n, c);
}

/// A loan adds at most itself to what its borrower owes, where shares are sold for their value.
proof fn lemma_loan_adds_at_most_itself(z: nat, s: nat, own: nat, a: nat, n: nat, c: nat)
    requires
        own <= s,
        n > 0,
        s == 0 ==> z == 0 && n == a,
        s > 0 ==> n * z <= a * s,
        own == 0 ==> c == 0,
        own > 0 ==> is_floor(c, z * own, s),
    ensures
        (z + a) * (own + n) / (s + n) <= c + a,
{
    let debt = (z + a) * (own + n) / (s + n);
    lemma_floor((z + a) * (own + n), s + n);
    if s == 0 {
        assert(debt == a) by (nonlinear_arith)
            requires debt * a <= a * a < (debt + 1) * a, a > 0;
    } else {
        assert(z * own < (c + 1) * s) by {
            if own == 0 {
                assert(z * own == 0 && (c + 1) * s >= s) by (nonlinear_arith)
                    requires own == 0;
            }
        }
        assert((s - own) * (a * s - n * z) >= 0) by (nonlinear_arith)
            requires own <= s, n * z <= a * s;
        let (zo, zn, ao, an) = (z * own, z * n, a * own, a * n);
        assert((z + a) * (own + n) == zo + zn + ao + an) by (nonlinear_arith)
            requires zo == z * own, zn == z * n, ao == a * own, an == a * n;
        assert((zo + zn + ao + an) * s == zo * s + zn * s + ao * s + an * s) by (nonlinear_arith);
        let (p, q) = (a * s, n * z);
        assert((s - own) * (p - q) == s * p - s * q - own * p + own * q) by (nonlinear_arith);
        assert((s + n) * (zo + p) == s * zo + s * p + n * zo + n * p) by (nonlinear_arith);
        assert(s * q == zn * s && own * p == ao * s && own * q == n * zo && n * p == an * s && s * zo == zo * s)
            by (nonlinear_arith)
            requires q == n * z, zn == z * n, p == a * s, ao == a * own, zo == z * own, an == a * n;
        assert((z + a) * (own + n) * s + (s - own) * (a * s - n * z) == (s + n) * (z * own + a * s));
        assert(debt * (s + n) * s <= (z + a) * (own + n) * s) by (nonlinear_arith)
            requires debt * (s + n) <= (z + a) * (own + n);
        assert(debt * s <= z * own + a * s) by (nonlinear_arith)
            requires debt * (s + n) * s <= (s + n) * (z * own + a * s), s + n > 0;
        assert(debt <= c + a) by (nonlinear_arith)
            requires debt * s <= z * own + a * s, z * own < (c + 1) * s, s > 0;
    }
}

/// Borrowers are listed in the order in which they are stored, from the first after the start, until
/// the limit or the end: where the store has each address once, and starts at the start if it has
/// it, the list is a part of the store, and no shorter than it has to be.
pub proof fn lists_keep_the_order(
    config: Config,
    state: StateView,
    limit: Option<u8>,
    start_after: Option<Address>,
    stored: Vec<Borrower>,
    answer: Result<QueryResponse, ContractError>,
    skipped: nat,
)
    requires
        answers(config, state, QueryMsg::Borrowers { limit, start_after, stored }, answer),
        answer is Ok,
        forall|i: int, j: int| 0 <= i < j < stored@.len() ==> stored@[i].addr@ != stored@[j].addr@,
        skipped == 0 ==> start_after is Some ==> forall|i: int|
            0 <= i < stored@.len() ==> start_after->0.validated->Ok_0@ != (#[trigger] stored@[i]).addr@,
        skipped > 0 ==> skipped == 1 && stored@.len() > 0 && start_after is Some
            && start_after->0.validated->Ok_0@ == stored@[0].addr@,
    ensures
        answer->Ok_0 is Borrowers,
        ({
            let list = answer->Ok_0->Borrowers_0@;
            let all = stored@.len() - skipped;
            &&& list.len() == (if limit is Some && limit->0 < all {
                limit->0 as int
            } else {
                all
            })
            &&& forall|i: int| 0 <= i < list.len() ==> (#[trigger] list[i]).addr == stored@[i + skipped].addr
        }),
{
    let start = start_address(start_after)->Ok_0;
    let page = cut(listed(stored@, start), limit);
    lemma_listed_in_order(stored@, start, skipped);
    let list = answer->Ok_0->Borrowers_0@;
    assert forall|i: int| 0 <= i < list.len() implies (#[trigger] list[i]).addr == stored@[i + skipped].addr by {
        assert(borrower_response(config, state, page[i]) == Ok::<_, ErrorView>(list[i]));
    }
}

proof fn lemma_listed_in_order(stored: Seq<Borrower>, start: Option<Seq<char>>, skipped: nat)
    requires
        forall|i: int, j: int| 0 <= i < j < stored.len() ==> stored[i].addr@ != stored[j].addr@,
        skipped == 0 ==> forall|i: int| 0 <= i < stored.len() ==> start != Some((#[trigger] stored[i]).addr@),
        skipped > 0 ==> skipped == 1 && (stored.len() > 0 ==> start == Some(stored[0].addr@)),
    ensures
        stored.len() >= skipped ==> listed(stored, start) == stored.skip(skipped as int),
        stored.len() < skipped ==> listed(stored, start) == Seq::<Borrower>::empty(),
    decreases stored.len(),
{
    if stored.len() > 0 {
        let (front, last) = (stored.drop_last(), stored.last());
        assert forall|i: int| 0 <= i < front.len() && skipped == 0 implies start != Some((#[trigger] front[i]).addr@) by {
            assert(front[i] == stored[i]);
        }
        lemma_listed_in_order(front, start, skipped);
        let before = listed(front, start);
        assert forall|i: int| 0 <= i < before.len() implies (#[trigger] before[i]).addr@ != last.addr@ by {
            assert(before[i] == stored[i + skipped]);
        }
        if skipped == 0 {
            assert(stored[stored.len() - 1] == last);
        }
        assert(listed(stored, start) =~= stored.skip(skipped as int));
    } else {
        assert(listed(stored, start) =~= stored.skip(0));
    }
}

/// A borrower that is not known, or whose address is not valid, is not reported on, alone or with a
/// delegate.
pub proof fn strangers_are_not_reported(
    config: Config,
    state: StateView,
    lookup: Lookup,
    addr: Address,
    answer: Result<QueryResponse, ContractError>,
)
    requires
        lookup.addr.validated is Err || lookup.found is None,
        answers(config, state, QueryMsg::Borrower { borrower: lookup }, answer) || answers(
            config,
            state,
            QueryMsg::Delegate { borrower: lookup, addr },
            answer,
        ),
    ensures
        answer is Err,
        lookup.addr.validated is Ok ==> answer->Err_0@ == ErrorView::Unauthorized,
        lookup.addr.validated is Err ==> answer->Err_0@ == ErrorView::Std(lookup.addr.validated->Err_0@),
{
}

/// An address in a query that is not valid is refused for it.
pub proof fn invalid_addresses_are_refused(
    config: Config,
    state: StateView,
    borrower: Borrower,
    at: Address,
    addr: Address,
    limit: Option<u8>,
    stored: Vec<Borrower>,
    answer: Result<QueryResponse, ContractError>,
)
    requires
        at.validated is Ok,
        addr.validated is Err,
        answers(
            config,
            state,
            QueryMsg::Delegate { borrower: Lookup { addr: at, found: Some(borrower) }, addr },
            answer,
        ) || answers(config, state, QueryMsg::Borrowers { limit, start_after: Some(addr), stored }, answer),
    ensures
        answer is Err,
        answer->Err_0@ == ErrorView::Std(addr.validated->Err_0@),
{
}

/// Where interest cannot be charged, the request fails for the same reason.
pub proof fn no_request_without_a_charge(
    config: Config,
    env: Env,
    info: MessageInfo,
    state: StateView,
    borrower: Option<BorrowerView>,
    msg: ExecuteMsg,
)
    requires
        state.accrue(env.time as nat, config.interest, config.fee) is Err,
    ensures
        execution(config, env, info, state, borrower, msg) is Err,
        execution(config, env, info, state, borrower, msg)->Err_0 == state.accrue(
            env.time as nat,
            config.interest,
            config.fee,
        )->Err_0,
{
}

/// A new limit changes nothing else of a borrower, and a borrower that is new owes nothing.
pub proof fn a_limit_changes_nothing_else(found: Option<BorrowerView>, addr: Seq<char>, limit: nat)
    ensures
        ({
            let borrower = BorrowerView::with_limit(found, addr, limit);
            &&& borrower.addr == addr
            &&& borrower.limit == limit
            &&& found is Some ==> borrower.shares == found->0.shares && borrower.delegates == found->0.delegates
            &&& found is None ==> borrower.shares == 0 && borrower.delegates == Map::<Seq<char>, nat>::empty()
        }),
{
}

/// What a vault is created with: its receipt token is named after the asset and carries the metadata
/// asked for, its name and version are recorded, and its configuration holds exactly if the steps
/// rise, the target lies between zero and one, and the fee is at most all of the interest.
pub proof fn a_vault_is_created(
    contract: Seq<char>,
    denom: Seq<char>,
    metadata: MetadataView,
    name: Seq<char>,
    config: Config,
)
    ensures
        create_message(contract, receipt_id(denom), metadata) == (MsgView::Any {
            type_url: "/thorchain.denom.v1.MsgCreateDenom"@,
            value: create_value(contract, "ghost-vault/"@ + denom, metadata),
        }),
        present_version(name).contract == name,
        present_version(name).version == "0.1.0"@,
        config.fault() is None <==> {
            &&& config.interest.step1.atomics < config.interest.step2.atomics
            &&& 0 < config.interest.target_utilization.atomics < 1_000_000_000_000_000_000
            &&& config.fee.atomics <= 1_000_000_000_000_000_000
        },
{
}

/// The number that a text of decimal digits stands for.
pub open spec fn number(text: Seq<char>) -> int
    decreases text.len(),
{
    if text.len() == 0 {
        0
    } else {
        10 * number(text.drop_last()) + (text.last() as int - 48)
    }
}

/// Amounts are written in decimal digits, without a leading zero, and can be read back.
pub proof fn amounts_can_be_read_back(n: nat)
    ensures
        decimal_text(n).len() > 0,
        number(decimal_text(n)) == n,
        forall|i: int| 0 <= i < decimal_text(n).len() ==> 48 <= (#[trigger] decimal_text(n)[i]) as int <= 57,
        n > 0 ==> decimal_text(n)[0] as int > 48,
    decreases n,
{
    let text = decimal_text(n);
    if n < 10 {
        assert(text.drop_last() =~= Seq::<char>::empty());
        assert(number(text.drop_last()) == 0);
    } else {
        amounts_can_be_read_back(n / 10);
        assert(text.drop_last() =~= decimal_text(n / 10));
        assert(text[0] == decimal_text(n / 10)[0]);
    }
}

} // verus!

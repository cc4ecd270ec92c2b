//! The entry points of a vault.
use vstd::prelude::*;
use vstd::string::*;
use crate::address::Address;
use crate::borrowers::{borrower_view, cut, listed, Borrower, BorrowerView};
use crate::callback::{callback_message, CallbackData};
use crate::config::{Config, InstantiateMsg};
use crate::decimal::Decimal;
use crate::error::{ContractError, ErrorView};
use crate::events::{
    borrow_event, deposit_event, event_borrow, event_deposit, event_repay, event_withdraw, repay_event,
    withdraw_event,
};
use crate::message::{coins, one_coin, CosmosMsg, MsgView, Response, ResponseView};
use crate::msg::{
    BorrowerResponse, ConfigResponse, DelegateResponse, ExecuteMsg, Lookup, MarketMsg, PoolResponse,
    QueryMsg, QueryResponse, StatusResponse, SudoMsg,
};
use crate::payment::{must_pay, payment, MessageInfo};
use crate::pool;
use crate::pool::{pool_view, PoolView};
use crate::state::{Env, State, StateView};
use crate::token::{
    burn_message, create_message, mint_message, token_denom, TokenFactory,
};
use crate::version::{contract_version, present_version, ContractVersion};

verus! {

/// The name of the receipt token of a vault for `denom`.
pub open spec fn receipt_id(denom: Seq<char>) -> Seq<char> {
    "ghost-vault/"@ + denom
}

/// The receipt token of a vault.
fn receipt(contract: &String, denom: &String) -> (r: TokenFactory)
    ensures
        r.contract@ == contract@,
        r.id@ == receipt_id(denom@),
{
    let mut id = "ghost-vault/".to_owned();
    id.append(denom.as_str());
    TokenFactory { contract: contract.clone(), id }
}

/// The message that pays `amount` of `denom` to `to`: a transfer, or a callback with funds.
pub open spec fn payout(callback: Option<CallbackData>, to: Seq<char>, amount: nat, denom: Seq<char>) -> Result<MsgView, ErrorView> {
    match callback {
        None => Ok(MsgView::BankSend { to_address: to, amount: one_coin(amount, denom) }),
        Some(cb) => callback_message(cb.data@, to, amount, denom),
    }
}

/// The message that pays `amount` of `denom` to `to`.
fn pay(callback: &Option<CallbackData>, to: &String, amount: u128, denom: &String) -> (r: Result<CosmosMsg, ContractError>)
    ensures
        match r {
            Ok(msg) => payout(*callback, to@, amount as nat, denom@) == Ok::<_, ErrorView>(msg@),
            Err(e) => payout(*callback, to@, amount as nat, denom@) == Err::<MsgView, _>(e@),
        },
{
    match callback {
        None => Ok(CosmosMsg::BankSend { to_address: to.clone(), amount: coins(amount, denom) }),
        Some(cb) => cb.to_message(to, amount, denom),
    }
}

/// The text of an address, if there is one.
pub open spec fn address_text(address: Option<Address>) -> Option<Seq<char>> {
    match address {
        Some(a) => Some(a.text@),
        None => None,
    }
}

/// What a vault is set up with: what to store, and the answer.
#[derive(Debug)]
pub struct Instantiated {
    pub version: ContractVersion,
    pub config: Config,
    pub state: State,
    pub response: Response<CosmosMsg>,
}

/// Sets a vault up, with empty pools, and creates its receipt token.
pub fn instantiate(env: &Env, msg: InstantiateMsg) -> (r: Result<Instantiated, ContractError>)
    ensures
        match r {
            Ok(vault) => {
                &&& vault.version@ == present_version("rujira-ghost-vault"@)
                &&& vault.config.denom == msg.denom
                &&& vault.config.interest == msg.interest
                &&& vault.config.fee == msg.fee
                &&& msg.fee_address.validated == Ok::<_, String>(vault.config.fee_address)
                &&& vault.config.fault() is None
                &&& vault.config.wf()
                &&& vault.state@ == (StateView {
                    last_updated: env.time as nat,
                    debt: PoolView::empty(),
                    deposit: PoolView::empty(),
                })
                &&& vault.state@.wf()
                &&& vault.response@ == ResponseView::empty().message(
                    create_message(env.contract@, receipt_id(msg.denom@), msg.receipt@),
                )
            },
            Err(e) => match msg.fee_address.validated {
                Err(text) => e@ == ErrorView::Std(text@),
                Ok(fee_address) => {
                    let config = Config {
                        denom: msg.denom,
                        interest: msg.interest,
                        fee: msg.fee,
                        fee_address,
                    };
                    config.fault() is Some && e@ == ErrorView::Std(config.fault()->0)
                },
            },
        },
{
    let config = match Config::new(&msg) {
        Err(e) => return Err(e),
        Ok(config) => config,
    };
    match config.validate() {
        Err(e) => return Err(e),
        Ok(()) => {},
    }
    let rcpt = receipt(&env.contract, &config.denom);
    let response = Response::empty().add_message(rcpt.create_msg(&msg.receipt));
    Ok(
        Instantiated {
            version: contract_version("rujira-ghost-vault"),
            config,
            state: State::init(env),
            response,
        },
    )
}

/// A loan: the ledger, the borrower and the answer afterwards.
pub open spec fn market_borrow(
    denom: Seq<char>,
    sender: Seq<char>,
    state: StateView,
    borrower: BorrowerView,
    amount: nat,
    callback: Option<CallbackData>,
    delegate: Option<Address>,
) -> Result<(StateView, BorrowerView, ResponseView), ErrorView> {
    match state.borrowed(amount) {
        Err(error) => Err(error),
        Ok((lent, shares)) => match (match delegate {
            None => borrower.borrowed(lent.debt, shares),
            Some(d) => match d.outcome() {
                Err(error) => Err(error),
                Ok(addr) => borrower.delegate_borrowed(addr, lent.debt, shares),
            },
        }) {
            Err(error) => Err(error),
            Ok(debtor) => match payout(callback, sender, amount, denom) {
                Err(error) => Err(error),
                Ok(msg) => Ok(
                    (
                        lent,
                        debtor,
                        ResponseView::empty().message(msg).event(
                            borrow_event(debtor.addr, address_text(delegate), amount, shares),
                        ),
                    ),
                ),
            },
        },
    }
}

/// What a repayment of at most `amount` comes to, where `debt` is owed.
pub open spec fn repayment(amount: nat, debt: nat) -> nat {
    if amount < debt {
        amount
    } else {
        debt
    }
}

/// The answer to a repayment: the event, and a refund of what was paid too much.
pub open spec fn repay_response(
    denom: Seq<char>,
    sender: Seq<char>,
    borrower: Seq<char>,
    delegate: Option<Seq<char>>,
    amount: nat,
    repaid: nat,
    shares: nat,
) -> ResponseView {
    let response = ResponseView::empty().event(repay_event(borrower, delegate, repaid, shares));
    if repaid < amount {
        response.message(
            MsgView::BankSend { to_address: sender, amount: one_coin((amount - repaid) as nat, denom) },
        )
    } else {
        response
    }
}

/// A repayment with `amount`, of the debt of the delegate or of the borrower.
pub open spec fn market_repay(
    denom: Seq<char>,
    sender: Seq<char>,
    state: StateView,
    borrower: BorrowerView,
    amount: nat,
    delegate: Option<Address>,
) -> Result<(StateView, BorrowerView, ResponseView), ErrorView> {
    match (match delegate {
        None => Ok(None),
        Some(d) => match d.outcome() {
            Err(error) => Err(error),
            Ok(addr) => Ok(Some(addr)),
        },
    }) {
        Err(error) => Err(error),
        Ok(addr) => match state.debt.try_ownership(
            match addr {
                Some(a) => borrower.delegate_shares(a),
                None => borrower.shares,
            },
        ) {
            Err(error) => Err(error),
            Ok(debt) => match state.repaid(repayment(amount, debt)) {
                Err(error) => Err(error),
                Ok((settled, shares)) => match (match addr {
                    Some(a) => borrower.delegate_repaid(a, shares),
                    None => borrower.repaid(shares),
                }) {
                    Err(error) => Err(error),
                    Ok(debtor) => Ok(
                        (
                            settled,
                            debtor,
                            repay_response(
                                denom,
                                sender,
                                debtor.addr,
                                address_text(delegate),
                                amount,
                                repayment(amount, debt),
                                shares,
                            ),
                        ),
                    ),
                },
            },
        },
    }
}

/// A request of a contract that may borrow: the ledger, the borrower and the answer afterwards.
pub open spec fn market(
    config: Config,
    info: MessageInfo,
    state: StateView,
    borrower: BorrowerView,
    msg: MarketMsg,
) -> Result<(StateView, BorrowerView, ResponseView), ErrorView> {
    match msg {
        MarketMsg::Borrow { amount, callback, delegate } => market_borrow(
            config.denom@,
            info.sender@,
            state,
            borrower,
            amount as nat,
            callback,
            delegate,
        ),
        MarketMsg::Repay { delegate } => match payment(info.funds@, config.denom@) {
            Err(error) => Err(ErrorView::Payment(error)),
            Ok(amount) => market_repay(config.denom@, info.sender@, state, borrower, amount, delegate),
        },
    }
}

/// Runs a request of a contract that may borrow. A request that is refused changes nothing.
pub fn execute_market(
    config: &Config,
    info: &MessageInfo,
    state: &mut State,
    msg: MarketMsg,
    borrower: &mut Borrower,
) -> (r: Result<Response<CosmosMsg>, ContractError>)
    requires
        old(state)@.wf(),
        old(borrower).wf(),
    ensures
        final(state)@.wf(),
        final(borrower).wf(),
        match r {
            Ok(response) => market(*config, *info, old(state)@, old(borrower)@, msg) == Ok::<_, ErrorView>(
                (final(state)@, final(borrower)@, response@),
            ),
            Err(e) => market(*config, *info, old(state)@, old(borrower)@, msg) == Err::<
                (StateView, BorrowerView, ResponseView),
                _,
            >(e@) && final(state)@ == old(state)@ && final(borrower)@ == old(borrower)@,
        },
{
    let mut ledger = state.copy();
    let mut debtor = borrower.copy();
    let response = match msg {
        MarketMsg::Borrow { amount, callback, delegate } => {
            let shares = match ledger.borrow(amount) {
                Err(e) => return Err(e),
                Ok(shares) => shares,
            };
            let taken = match &delegate {
                Some(d) => match d.validate() {
                    Err(e) => return Err(e),
                    Ok(addr) => debtor.delegate_borrow(addr, &ledger.debt_pool, shares),
                },
                None => debtor.borrow(&ledger.debt_pool, shares),
            };
            match taken {
                Err(e) => return Err(e),
                Ok(()) => {},
            }
            let payment = match pay(&callback, &info.sender, amount, &config.denom) {
                Err(e) => return Err(e),
                Ok(payment) => payment,
            };
            let event = event_borrow(&debtor.addr, text_of(&delegate), amount, shares);
            Response::empty().add_message(payment).add_event(event)
        },
        MarketMsg::Repay { delegate } => {
            let amount = match must_pay(info, config.denom.as_str()) {
                Err(e) => return Err(ContractError::Payment(e)),
                Ok(amount) => amount,
            };
            let delegate_address = match &delegate {
                Some(d) => match d.validate() {
                    Err(e) => return Err(e),
                    Ok(addr) => Some(addr),
                },
                None => None,
            };
            let borrower_shares: u128 = match &delegate_address {
                Some(d) => debtor.delegate_shares(d),
                None => debtor.shares,
            };
            let borrower_debt = match pool::ownership(&ledger.debt_pool, borrower_shares) {
                Err(e) => return Err(e),
                Ok(debt) => debt,
            };
            let repay_amount: u128 = if amount < borrower_debt {
                amount
            } else {
                borrower_debt
            };
            let shares = match ledger.repay(repay_amount) {
                Err(e) => return Err(e),
                Ok(shares) => shares,
            };
            let given = match delegate_address {
                Some(d) => debtor.delegate_repay(d, shares),
                None => debtor.repay(shares),
            };
            match given {
                Err(e) => return Err(e),
                Ok(()) => {},
            }
            let event = event_repay(&debtor.addr, text_of(&delegate), repay_amount, shares);
            let response = Response::empty().add_event(event);
            let refund: u128 = amount - repay_amount;
            if refund != 0 {
                let back = CosmosMsg::BankSend {
                    to_address: info.sender.clone(),
                    amount: coins(refund, &config.denom),
                };
                response.add_message(back)
            } else {
                response
            }
        },
    };
    *state = ledger;
    *borrower = debtor;
    Ok(response)
}

/// The text of an address, if there is one.
fn text_of(address: &Option<Address>) -> (r: Option<&String>)
    ensures
        match r {
            Some(t) => address_text(*address) == Some(t@),
            None => address_text(*address) is None,
        },
{
    match address {
        Some(a) => Some(&a.text),
        None => None,
    }
}

/// A deposit: the ledger and the answer afterwards. Without a callback the receipt tokens go to
/// the sender; with one they go to the vault itself, which sends them along.
pub open spec fn deposited(
    config: Config,
    env: Env,
    info: MessageInfo,
    state: StateView,
    callback: Option<CallbackData>,
) -> Result<(StateView, ResponseView), ErrorView> {
    let id = receipt_id(config.denom@);
    match payment(info.funds@, config.denom@) {
        Err(error) => Err(ErrorView::Payment(error)),
        Ok(amount) => match state.deposited(amount) {
            Err(error) => Err(error),
            Ok((next, mint)) => match (match callback {
                None => Ok(
                    ResponseView::empty().message(mint_message(env.contract@, id, mint, info.sender@)),
                ),
                Some(cb) => match callback_message(cb.data@, info.sender@, mint, token_denom(id)) {
                    Err(error) => Err(error),
                    Ok(msg) => Ok(
                        ResponseView::empty().message(
                            mint_message(env.contract@, id, mint, env.contract@),
                        ).message(msg),
                    ),
                },
            }) {
                Err(error) => Err(error),
                Ok(response) => Ok((next, response.event(deposit_event(info.sender@, amount, mint)))),
            },
        },
    }
}

/// A withdrawal: the ledger and the answer afterwards. The receipt tokens are burned, and what
/// they are worth is paid to the sender.
pub open spec fn withdrawn(
    config: Config,
    env: Env,
    info: MessageInfo,
    state: StateView,
    callback: Option<CallbackData>,
) -> Result<(StateView, ResponseView), ErrorView> {
    let id = receipt_id(config.denom@);
    match payment(info.funds@, token_denom(id)) {
        Err(error) => Err(ErrorView::Payment(error)),
        Ok(shares) => match state.withdrawn(shares) {
            Err(error) => Err(error),
            Ok((next, amount)) => match payout(callback, info.sender@, amount, config.denom@) {
                Err(error) => Err(error),
                Ok(msg) => Ok(
                    (
                        next,
                        ResponseView::empty().message(burn_message(env.contract@, id, shares)).message(
                            msg,
                        ).event(withdraw_event(info.sender@, amount, shares)),
                    ),
                ),
            },
        },
    }
}

/// A request on a ledger that is up to date: the ledger, the borrower and the answer afterwards.
pub open spec fn executed(
    config: Config,
    env: Env,
    info: MessageInfo,
    state: StateView,
    borrower: Option<BorrowerView>,
    msg: ExecuteMsg,
) -> Result<(StateView, Option<BorrowerView>, ResponseView), ErrorView> {
    match msg {
        ExecuteMsg::Deposit { callback } => match deposited(config, env, info, state, callback) {
            Err(error) => Err(error),
            Ok((next, response)) => Ok((next, borrower, response)),
        },
        ExecuteMsg::Withdraw { callback } => match withdrawn(config, env, info, state, callback) {
            Err(error) => Err(error),
            Ok((next, response)) => Ok((next, borrower, response)),
        },
        ExecuteMsg::Market(msg) => match borrower {
            None => Err(ErrorView::Unauthorized),
            Some(debtor) => match market(config, info, state, debtor, msg) {
                Err(error) => Err(error),
                Ok((next, debtor, response)) => Ok((next, Some(debtor), response)),
            },
        },
    }
}

/// A request: interest is charged, the request runs, and the shares that the fee bought are
/// minted to the fee address.
pub open spec fn execution(
    config: Config,
    env: Env,
    info: MessageInfo,
    state: StateView,
    borrower: Option<BorrowerView>,
    msg: ExecuteMsg,
) -> Result<(StateView, Option<BorrowerView>, ResponseView), ErrorView> {
    match state.accrue(env.time as nat, config.interest, config.fee) {
        Err(error) => Err(error),
        Ok((current, fees)) => match executed(config, env, info, current, borrower, msg) {
            Err(error) => Err(error),
            Ok((next, debtor, response)) => Ok(
                (
                    next,
                    debtor,
                    if fees > 0 {
                        response.message(
                            mint_message(env.contract@, receipt_id(config.denom@), fees, config.fee_address@),
                        )
                    } else {
                        response
                    },
                ),
            ),
        },
    }
}

/// Runs a request. `borrower` is what is stored at the address of the sender; only a market request
/// reads it. A request that is refused changes nothing.
pub fn execute(
    config: &Config,
    env: &Env,
    info: &MessageInfo,
    state: &mut State,
    borrower: &mut Option<Borrower>,
    msg: ExecuteMsg,
) -> (r: Result<Response<CosmosMsg>, ContractError>)
    requires
        config.wf(),
        old(state)@.wf(),
        *old(borrower) is Some ==> (*old(borrower))->0.wf(),
    ensures
        final(state)@.wf(),
        *final(borrower) is Some ==> (*final(borrower))->0.wf(),
        match r {
            Ok(response) => execution(*config, *env, *info, old(state)@, borrower_view(*old(borrower)), msg)
                == Ok::<_, ErrorView>((final(state)@, borrower_view(*final(borrower)), response@)),
            Err(e) => execution(*config, *env, *info, old(state)@, borrower_view(*old(borrower)), msg) == Err::<
                (StateView, Option<BorrowerView>, ResponseView),
                _,
            >(e@) && final(state)@ == old(state)@ && borrower_view(*final(borrower)) == borrower_view(*old(borrower)),
        },
{
    let mut ledger = state.copy();
    let rcpt = receipt(&env.contract, &config.denom);
    let fees = match ledger.distribute_interest(env, config) {
        Err(e) => return Err(e),
        Ok(fees) => fees,
    };
    let response = match msg {
        ExecuteMsg::Deposit { callback } => {
            let amount = match must_pay(info, config.denom.as_str()) {
                Err(e) => return Err(ContractError::Payment(e)),
                Ok(amount) => amount,
            };
            let mint = match ledger.deposit(amount) {
                Err(e) => return Err(e),
                Ok(mint) => mint,
            };
            let response = match &callback {
                None => Response::empty().add_message(rcpt.mint_msg(mint, &info.sender)),
                Some(cb) => {
                    let forward = match cb.to_message(&info.sender, mint, &rcpt.denom()) {
                        Err(e) => return Err(e),
                        Ok(forward) => forward,
                    };
                    Response::empty().add_message(rcpt.mint_msg(mint, &env.contract)).add_message(forward)
                },
            };
            response.add_event(event_deposit(&info.sender, amount, mint))
        },
        ExecuteMsg::Withdraw { callback } => {
            let amount = match must_pay(info, rcpt.denom().as_str()) {
                Err(e) => return Err(ContractError::Payment(e)),
                Ok(amount) => amount,
            };
            let withdrawn = match ledger.withdraw(amount) {
                Err(e) => return Err(e),
                Ok(withdrawn) => withdrawn,
            };
            let payment = match pay(&callback, &info.sender, withdrawn, &config.denom) {
                Err(e) => return Err(e),
                Ok(payment) => payment,
            };
            Response::empty().add_message(rcpt.burn_msg(amount)).add_message(payment).add_event(
                event_withdraw(&info.sender, withdrawn, amount),
            )
        },
        ExecuteMsg::Market(market_msg) => match borrower {
            None => return Err(ContractError::Unauthorized),
            Some(debtor) => match execute_market(config, info, &mut ledger, market_msg, debtor) {
                Err(e) => return Err(e),
                Ok(response) => response,
            },
        },
    };
    *state = ledger;
    if fees > 0 {
        Ok(response.add_message(rcpt.mint_msg(fees, &config.fee_address)))
    } else {
        Ok(response)
    }
}

/// Runs a request of the chain itself. `borrower` is what is stored at the address that the
/// request names. A request that is refused changes nothing.
pub fn sudo(config: &mut Config, borrower: &mut Option<Borrower>, msg: SudoMsg) -> (r: Result<Response<CosmosMsg>, ContractError>)
    requires
        old(config).wf(),
        *old(borrower) is Some ==> (*old(borrower))->0.wf(),
    ensures
        final(config).wf(),
        *final(borrower) is Some ==> (*final(borrower))->0.wf(),
        final(config).denom == old(config).denom,
        final(config).fee == old(config).fee,
        final(config).fee_address == old(config).fee_address,
        r is Ok ==> r->Ok_0@ == ResponseView::empty(),
        match msg {
            SudoMsg::SetBorrower { contract, limit } => {
                &&& final(config).interest == old(config).interest
                &&& match contract.outcome() {
                    Ok(addr) => r is Ok && borrower_view(*final(borrower)) == Some(
                        BorrowerView::with_limit(borrower_view(*old(borrower)), addr, limit as nat),
                    ),
                    Err(error) => r is Err && r->Err_0@ == error && *final(borrower) == *old(borrower),
                }
            },
            SudoMsg::SetInterest(interest) => {
                &&& *final(borrower) == *old(borrower)
                &&& match interest.fault() {
                    None => r is Ok && final(config).interest == interest,
                    Some(text) => r is Err && r->Err_0@ == ErrorView::Std(text) && final(config).interest
                        == old(config).interest,
                }
            },
        },
{
    match msg {
        SudoMsg::SetBorrower { contract, limit } => match contract.validate() {
            Err(e) => Err(e),
            Ok(addr) => {
                let found = borrower.take();
                *borrower = Some(Borrower::set(found, addr, limit));
                Ok(Response::empty())
            },
        },
        SudoMsg::SetInterest(interest) => match interest.validate() {
            Err(text) => Err(ContractError::Std(text)),
            Ok(()) => {
                config.interest = interest;
                Ok(Response::empty())
            },
        },
    }
}

/// Moves a vault to the present version: the version to record, and the answer. `migrated` says
/// whether the stored borrowers could be brought into their present form.
pub fn migrate(migrated: Result<(), ContractError>) -> (r: Result<(ContractVersion, Response<CosmosMsg>), ContractError>)
    ensures
        match r {
            Ok((version, response)) => {
                &&& migrated is Ok
                &&& version@ == present_version("rujira-ghost-vault"@)
                &&& response@ == ResponseView::empty()
            },
            Err(e) => migrated == Err::<(), _>(e),
        },
{
    match migrated {
        Err(e) => Err(e),
        Ok(()) => Ok((contract_version("rujira-ghost-vault"), Response::empty())),
    }
}

/// What a pool says of itself.
pub open spec fn pool_response(pool: PoolView) -> PoolResponse {
    PoolResponse {
        size: pool.size as u128,
        shares: pool.shares() as u128,
        ratio: Decimal { atomics: pool.ratio() as u128 },
    }
}

/// The status of a ledger that is up to date.
pub open spec fn status(config: Config, state: StateView) -> Result<StatusResponse, ErrorView> {
    match (state.debt_rate(config.interest), state.lend_rate(config.interest)) {
        (Ok(debt_rate), Ok(lend_rate)) => if !state.debt.can_ratio() || !state.deposit.can_ratio() {
            Err(ErrorView::Overflow)
        } else {
            Ok(
                StatusResponse {
                    debt_rate: Decimal { atomics: debt_rate as u128 },
                    lend_rate: Decimal { atomics: lend_rate as u128 },
                    utilization_ratio: Decimal { atomics: state.utilization() as u128 },
                    last_updated: state.last_updated as u64,
                    debt_pool: pool_response(state.debt),
                    deposit_pool: pool_response(state.deposit),
                },
            )
        },
        _ => Err(ErrorView::Overflow),
    }
}

/// What a borrower that owes `current` can borrow now: the limit may be exceeded by interest, and
/// the vault may hold less.
pub open spec fn available(state: StateView, limit: nat, current: nat) -> nat {
    let room = if limit > current {
        (limit - current) as nat
    } else {
        0
    };
    if room < state.liquidity() {
        room
    } else {
        state.liquidity()
    }
}

/// What a borrower owes and can borrow.
pub open spec fn borrower_response(config: Config, state: StateView, borrower: Borrower) -> Result<BorrowerResponse, ErrorView> {
    match state.debt.try_ownership(borrower.shares as nat) {
        Err(error) => Err(error),
        Ok(current) => Ok(
            BorrowerResponse {
                addr: borrower.addr,
                denom: config.denom,
                limit: borrower.limit,
                current: current as u128,
                shares: borrower.shares,
                available: available(state, borrower.limit as nat, current) as u128,
            },
        ),
    }
}

/// The borrower that a query names.
pub open spec fn looked_up(lookup: Lookup) -> Result<Borrower, ErrorView> {
    match lookup.addr.outcome() {
        Err(error) => Err(error),
        Ok(_) => match lookup.found {
            Some(borrower) => Ok(borrower),
            None => Err(ErrorView::Unauthorized),
        },
    }
}

/// What is owed on behalf of a delegate.
pub open spec fn delegate_response(config: Config, state: StateView, borrower: Borrower, addr: Address) -> Result<DelegateResponse, ErrorView> {
    match addr.outcome() {
        Err(error) => Err(error),
        Ok(delegate) => match borrower_response(config, state, borrower) {
            Err(error) => Err(error),
            Ok(response) => match state.debt.try_ownership(borrower@.delegate_shares(delegate)) {
                Err(error) => Err(error),
                Ok(current) => Ok(
                    DelegateResponse {
                        borrower: response,
                        addr: addr.text,
                        current: current as u128,
                        shares: borrower@.delegate_shares(delegate) as u128,
                    },
                ),
            },
        },
    }
}

/// The address that a list starts after, if there is one.
pub open spec fn start_address(address: Option<Address>) -> Result<Option<Seq<char>>, ErrorView> {
    match address {
        None => Ok(None),
        Some(a) => match a.outcome() {
            Ok(addr) => Ok(Some(addr)),
            Err(error) => Err(error),
        },
    }
}

/// `answer` is the answer to a query on a ledger that is up to date.
pub open spec fn answers(config: Config, state: StateView, msg: QueryMsg, answer: Result<QueryResponse, ContractError>) -> bool {
    match msg {
        QueryMsg::Config => answer == Ok::<_, ContractError>(
            QueryResponse::Config(ConfigResponse { denom: config.denom, interest: config.interest }),
        ),
        QueryMsg::Status => match status(config, state) {
            Ok(response) => answer == Ok::<_, ContractError>(QueryResponse::Status(response)),
            Err(error) => answer is Err && answer->Err_0@ == error,
        },
        QueryMsg::Borrower { borrower } => match looked_up(borrower) {
            Err(error) => answer is Err && answer->Err_0@ == error,
            Ok(found) => match borrower_response(config, state, found) {
                Ok(response) => answer == Ok::<_, ContractError>(QueryResponse::Borrower(response)),
                Err(error) => answer is Err && answer->Err_0@ == error,
            },
        },
        QueryMsg::Delegate { borrower, addr } => match looked_up(borrower) {
            Err(error) => answer is Err && answer->Err_0@ == error,
            Ok(found) => match delegate_response(config, state, found, addr) {
                Ok(response) => answer == Ok::<_, ContractError>(QueryResponse::Delegate(response)),
                Err(error) => answer is Err && answer->Err_0@ == error,
            },
        },
        QueryMsg::Borrowers { limit, start_after, stored } => match start_address(start_after) {
            Err(error) => answer is Err && answer->Err_0@ == error,
            Ok(start) => {
                let page = cut(listed(stored@, start), limit);
                if exists|i: int|
                    0 <= i < page.len() && borrower_response(config, state, #[trigger] page[i]) is Err {
                    answer is Err && answer->Err_0@ == ErrorView::Overflow
                } else {
                    &&& answer matches Ok(QueryResponse::Borrowers(list))
                    &&& list@.len() == page.len()
                    &&& forall|i: int|
                        0 <= i < page.len() ==> borrower_response(config, state, page[i]) == Ok::<_, ErrorView>(
                            #[trigger] list@[i],
                        )
                }
            },
        },
    }
}

/// What a pool says of itself.
fn describe_pool(pool: &rujira_rs::SharePool) -> (r: Result<PoolResponse, ContractError>)
    requires
        pool_view(*pool).wf(),
    ensures
        match r {
            Ok(response) => pool_view(*pool).can_ratio() && response == pool_response(pool_view(*pool)),
            Err(e) => !pool_view(*pool).can_ratio() && e@ == ErrorView::Overflow,
        },
{
    match pool::ratio(pool) {
        Err(e) => Err(e),
        Ok(ratio) => Ok(PoolResponse { size: pool::size(pool), shares: pool::shares(pool), ratio }),
    }
}

/// The status of a ledger that is up to date.
fn describe_status(config: &Config, state: &State) -> (r: Result<StatusResponse, ContractError>)
    requires
        config.wf(),
        state@.wf(),
    ensures
        match r {
            Ok(response) => status(*config, state@) == Ok::<_, ErrorView>(response),
            Err(e) => status(*config, state@) == Err::<StatusResponse, _>(e@),
        },
{
    let debt_rate = match state.debt_rate(&config.interest) {
        Err(e) => return Err(e),
        Ok(rate) => rate,
    };
    let lend_rate = match state.lend_rate(&config.interest) {
        Err(e) => return Err(e),
        Ok(rate) => rate,
    };
    let debt_pool = match describe_pool(&state.debt_pool) {
        Err(e) => return Err(e),
        Ok(response) => response,
    };
    let deposit_pool = match describe_pool(&state.deposit_pool) {
        Err(e) => return Err(e),
        Ok(response) => response,
    };
    Ok(
        StatusResponse {
            debt_rate,
            lend_rate,
            utilization_ratio: state.utilization(),
            last_updated: state.last_updated,
            debt_pool,
            deposit_pool,
        },
    )
}

/// What a borrower owes and can borrow.
fn describe_borrower(config: &Config, state: &State, borrower: &Borrower) -> (r: Result<BorrowerResponse, ContractError>)
    requires
        state@.wf(),
    ensures
        match r {
            Ok(response) => borrower_response(*config, state@, *borrower) == Ok::<_, ErrorView>(response),
            Err(e) => borrower_response(*config, state@, *borrower) == Err::<BorrowerResponse, _>(e@),
        },
{
    let current = match pool::ownership(&state.debt_pool, borrower.shares) {
        Err(e) => return Err(e),
        Ok(current) => current,
    };
    // Current borrows can exceed the limit due to interest
    let room: u128 = if borrower.limit > current {
        borrower.limit - current
    } else {
        0
    };
    let liquidity: u128 = state.liquidity();
    Ok(
        BorrowerResponse {
            addr: borrower.addr.clone(),
            denom: config.denom.clone(),
            limit: borrower.limit,
            current,
            shares: borrower.shares,
            available: if room < liquidity {
                room
            } else {
                liquidity
            },
        },
    )
}

/// What each borrower of a page owes and can borrow.
fn describe_page(config: &Config, state: &State, page: &Vec<Borrower>) -> (r: Result<Vec<BorrowerResponse>, ContractError>)
    requires
        state@.wf(),
    ensures
        match r {
            Ok(list) => list@.len() == page@.len() && forall|i: int|
                0 <= i < page@.len() ==> borrower_response(*config, state@, #[trigger] page@[i]) == Ok::<
                    _,
                    ErrorView,
                >(list@[i]),
            Err(e) => e@ == ErrorView::Overflow && exists|i: int|
                0 <= i < page@.len() && borrower_response(*config, state@, #[trigger] page@[i]) is Err,
        },
{
    let mut list: Vec<BorrowerResponse> = Vec::new();
    for i in 0..page.len()
        invariant
            state@.wf(),
            list@.len() == i,
            forall|j: int|
                0 <= j < i ==> borrower_response(*config, state@, #[trigger] page@[j]) == Ok::<_, ErrorView>(
                    list@[j],
                ),
    {
        match describe_borrower(config, state, &page[i]) {
            Err(e) => return Err(e),
            Ok(response) => list.push(response),
        }
    }
    Ok(list)
}

/// The borrower that a query names.
fn look_up(lookup: Lookup) -> (r: Result<Borrower, ContractError>)
    ensures
        match r {
            Ok(borrower) => looked_up(lookup) == Ok::<_, ErrorView>(borrower),
            Err(e) => looked_up(lookup) == Err::<Borrower, _>(e@),
        },
{
    match lookup.addr.validate() {
        Err(e) => Err(e),
        Ok(_) => Borrower::load(lookup.found),
    }
}

/// Answers a query, from the ledger as it is once interest is charged up to now.
pub fn query(config: &Config, env: &Env, state: &State, msg: QueryMsg) -> (r: Result<QueryResponse, ContractError>)
    requires
        config.wf(),
        state@.wf(),
        msg matches QueryMsg::Delegate { borrower, .. } ==> borrower.found is Some ==> borrower.found->0.wf(),
    ensures
        match state@.accrue(env.time as nat, config.interest, config.fee) {
            Err(error) => r is Err && r->Err_0@ == error,
            Ok((current, _)) => answers(*config, current, msg, r),
        },
{
    let mut current = state.copy();
    match current.distribute_interest(env, config) {
        Err(e) => return Err(e),
        Ok(_) => {},
    }
    match msg {
        QueryMsg::Config => Ok(
            QueryResponse::Config(ConfigResponse { denom: config.denom.clone(), interest: config.interest }),
        ),
        QueryMsg::Status => match describe_status(config, &current) {
            Err(e) => Err(e),
            Ok(response) => Ok(QueryResponse::Status(response)),
        },
        QueryMsg::Borrower { borrower } => match look_up(borrower) {
            Err(e) => Err(e),
            Ok(found) => match describe_borrower(config, &current, &found) {
                Err(e) => Err(e),
                Ok(response) => Ok(QueryResponse::Borrower(response)),
            },
        },
        QueryMsg::Delegate { borrower, addr } => {
            let found = match look_up(borrower) {
                Err(e) => return Err(e),
                Ok(found) => found,
            };
            let delegate = match addr.validate() {
                Err(e) => return Err(e),
                Ok(delegate) => delegate,
            };
            let shares: u128 = found.delegate_shares(&delegate);
            let response = match describe_borrower(config, &current, &found) {
                Err(e) => return Err(e),
                Ok(response) => response,
            };
            match pool::ownership(&current.debt_pool, shares) {
                Err(e) => Err(e),
                Ok(owed) => Ok(
                    QueryResponse::Delegate(
                        DelegateResponse { borrower: response, addr: addr.text, current: owed, shares },
                    ),
                ),
            }
        },
        QueryMsg::Borrowers { limit, start_after, stored } => {
            let start = match &start_after {
                None => None,
                Some(address) => match address.validate() {
                    Err(e) => return Err(e),
                    Ok(addr) => Some(addr),
                },
            };
            let page = Borrower::list(stored, limit, &start);
            match describe_page(config, &current, &page) {
                Err(e) => Err(e),
                Ok(borrowers) => Ok(QueryResponse::Borrowers(borrowers)),
            }
        },
    }
}

} // verus!

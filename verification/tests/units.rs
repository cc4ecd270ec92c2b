//! Single functions, on exact values and against the crates that they call.
use cosmwasm_std::testing::mock_env;
use cosmwasm_std::{Addr, Binary, Uint128};
use rujira_vault::account;
use rujira_vault::address::Address;
use rujira_vault::borrowers::{Borrower, Delegate};
use rujira_vault::callback::CallbackData;
use rujira_vault::config::{Config, InstantiateMsg};
use rujira_vault::contract::{execute, execute_market, instantiate, migrate, query, sudo};
use rujira_vault::decimal::{Decimal, ONE};
use rujira_vault::error::{ContractError, PaymentError, SharePoolError};
use rujira_vault::events::{amount_text, event_borrow, event_deposit, event_repay, event_withdraw};
use rujira_vault::interest::Interest;
use rujira_vault::message::{coins, Attribute, CosmosMsg, Response};
use rujira_vault::msg::{
    ConfigResponse, ExecuteMsg, Lookup, MarketMsg, QueryMsg, QueryResponse, SudoMsg,
};
use rujira_vault::payment::{Coin, MessageInfo};
use rujira_vault::pool;
use rujira_vault::state::{Env, State};
use rujira_vault::token::{TokenFactory, TokenMetadata};
use rujira_vault::version::ContractVersion;

const YEAR: u64 = 31_536_000_000_000_000;

fn percent(n: u128) -> Decimal {
    Decimal { atomics: n * ONE / 100 }
}

fn interest() -> Interest {
    Interest { target_utilization: percent(80), base_rate: percent(10), step1: percent(10), step2: percent(300) }
}

fn config() -> Config {
    Config { denom: "btc".to_string(), interest: interest(), fee: percent(1), fee_address: "fees".to_string() }
}

fn address(text: &str) -> Address {
    Address { text: text.to_string(), validated: Ok(text.to_string()) }
}

fn bad_address() -> Address {
    Address { text: "?".to_string(), validated: Err("invalid address".to_string()) }
}

fn env(time: u64) -> Env {
    Env { contract: "vault".to_string(), time }
}

fn info(sender: &str, funds: &[(u128, &str)]) -> MessageInfo {
    MessageInfo {
        sender: sender.to_string(),
        funds: funds.iter().map(|(a, d)| Coin { denom: d.to_string(), amount: *a }).collect(),
    }
}

fn metadata() -> TokenMetadata {
    TokenMetadata {
        description: "a share".to_string(),
        display: "vBTC".to_string(),
        name: "vault btc".to_string(),
        symbol: "VBTC".to_string(),
        uri: Some("https://example.org".to_string()),
        uri_hash: None,
    }
}

fn instantiate_msg(fee: Decimal, fee_address: Address, interest: Interest) -> InstantiateMsg {
    InstantiateMsg { denom: "btc".to_string(), receipt: metadata(), interest, fee, fee_address }
}

fn outside_factory() -> rujira_rs::TokenFactory {
    let mut env = mock_env();
    env.contract.address = Addr::unchecked("vault");
    rujira_rs::TokenFactory::new(&env, "ghost-vault/btc")
}

fn any(msg: cosmwasm_std::CosmosMsg) -> CosmosMsg {
    match msg {
        cosmwasm_std::CosmosMsg::Any(any) => CosmosMsg::Any { type_url: any.type_url, value: any.value.to_vec() },
        other => panic!("unexpected message {:?}", other),
    }
}

/// A ledger with these deposits and this debt.
fn ledger(deposits: u128, debt: u128) -> State {
    let mut state = State::init(&env(0));
    assert_eq!(state.deposit(deposits), Ok(deposits));
    if debt > 0 {
        assert_eq!(state.borrow(debt), Ok(debt));
    }
    state
}

#[test]
fn instantiation_stores_the_configuration() {
    let made = instantiate(&env(7), instantiate_msg(percent(1), address("fees"), interest())).unwrap();
    assert_eq!(
        made.version,
        ContractVersion { contract: "rujira-ghost-vault".to_string(), version: "0.1.0".to_string() }
    );
    assert_eq!(made.config, config());
    assert_eq!(made.state.last_updated, 7);
    assert_eq!(made.state.deposit_pool, rujira_rs::SharePool::default());
    assert_eq!(made.state.debt_pool, rujira_rs::SharePool::default());
    let expected = any(outside_factory().create_msg(rujira_rs::TokenMetadata {
        description: "a share".to_string(),
        display: "vBTC".to_string(),
        name: "vault btc".to_string(),
        symbol: "VBTC".to_string(),
        uri: Some("https://example.org".to_string()),
        uri_hash: None,
    }));
    assert_eq!(made.response, Response { messages: vec![expected], events: vec![] });
}

#[test]
fn instantiation_refuses_invalid_values() {
    let refused = instantiate(&env(0), instantiate_msg(percent(1), bad_address(), interest()));
    assert_eq!(refused.unwrap_err(), ContractError::Std("invalid address".to_string()));

    let refused = instantiate(&env(0), instantiate_msg(percent(101), address("fees"), interest()));
    assert_eq!(refused.unwrap_err(), ContractError::Std("fee must be <= 1".to_string()));
    assert!(instantiate(&env(0), instantiate_msg(percent(100), address("fees"), interest())).is_ok());

    let flat = Interest { step2: percent(10), ..interest() };
    let refused = instantiate(&env(0), instantiate_msg(percent(1), address("fees"), flat));
    assert_eq!(refused.unwrap_err(), ContractError::Std("step2 must be > step1".to_string()));
}

#[test]
fn interest_models_are_validated() {
    let mut config = config();
    let mut nobody = None;
    for (model, text) in [
        (Interest { step1: percent(301), ..interest() }, "step2 must be > step1"),
        (Interest { target_utilization: percent(0), ..interest() }, "target_utilization must be > 0"),
        (Interest { target_utilization: percent(100), ..interest() }, "target_utilization must be < 1"),
    ] {
        let refused = sudo(&mut config, &mut nobody, SudoMsg::SetInterest(model));
        assert_eq!(refused.unwrap_err(), ContractError::Std(text.to_string()));
        assert_eq!(config.interest, interest());
    }
    let steeper = Interest { step2: percent(500), ..interest() };
    let accepted = sudo(&mut config, &mut nobody, SudoMsg::SetInterest(steeper)).unwrap();
    assert_eq!(accepted, Response { messages: vec![], events: vec![] });
    assert_eq!(config.interest, steeper);
    assert_eq!(nobody, None);
}

#[test]
fn borrowers_are_set() {
    let mut config = config();
    let mut found = None;
    let refused = sudo(&mut config, &mut found, SudoMsg::SetBorrower { contract: bad_address(), limit: 5 });
    assert_eq!(refused.unwrap_err(), ContractError::Std("invalid address".to_string()));
    assert_eq!(found, None);
    sudo(&mut config, &mut found, SudoMsg::SetBorrower { contract: address("b"), limit: 5 }).unwrap();
    assert_eq!(found, Some(Borrower { addr: "b".to_string(), limit: 5, shares: 0, delegates: vec![] }));
}

/// The rate rises with the utilization, and faster beyond the target.
#[test]
fn rates_follow_the_curve() {
    for (debt, utilization, debt_rate, lend_rate) in [
        (0, percent(0), percent(10), percent(0)),
        (400, percent(40), percent(15), percent(6)),
        (800, percent(80), percent(20), percent(16)),
        (900, percent(90), percent(170), percent(153)),
        (1000, percent(100), percent(320), percent(320)),
    ] {
        let state = ledger(1000, debt);
        assert_eq!(state.utilization(), utilization);
        assert_eq!(state.debt_rate(&interest()), Ok(debt_rate));
        assert_eq!(state.lend_rate(&interest()), Ok(lend_rate));
        assert_eq!(state.liquidity(), 1000 - debt);
    }
    assert_eq!(State::init(&env(0)).utilization(), percent(0));
    let huge = Interest { base_rate: Decimal { atomics: u128::MAX }, ..interest() };
    assert_eq!(ledger(1000, 0).debt_rate(&huge), Ok(Decimal { atomics: u128::MAX }));
    assert_eq!(ledger(1000, 0).lend_rate(&huge), Ok(percent(0)));
    assert_eq!(ledger(1000, 400).debt_rate(&huge), Err(ContractError::Overflow));
    assert_eq!(ledger(1000, 400).lend_rate(&huge), Err(ContractError::Overflow));
}

/// A step that is out of reach at the present utilization keeps nobody from the vault.
#[test]
fn rates_count_where_they_apply() {
    let steep = Interest { step2: Decimal { atomics: u128::MAX }, ..interest() };
    let mut config = config();
    sudo(&mut config, &mut None, SudoMsg::SetInterest(steep)).unwrap();
    let answer = query(&config, &env(YEAR), &ledger(1000, 0), QueryMsg::Config);
    let expected = ConfigResponse { denom: "btc".to_string(), interest: steep };
    assert_eq!(answer, Ok(QueryResponse::Config(expected)));

    let mut idle = ledger(1000, 0);
    assert_eq!(idle.debt_rate(&steep), Ok(percent(10)));
    let msg = ExecuteMsg::Deposit { callback: None };
    assert!(execute(&config, &env(YEAR), &info("user", &[(500, "btc")]), &mut idle, &mut None, msg).is_ok());
    assert_eq!((idle.last_updated, idle.liquidity()), (YEAR, 1500));

    assert_eq!(ledger(1000, 400).debt_rate(&steep), Ok(percent(15)));
    assert_eq!(ledger(1000, 800).debt_rate(&steep), Ok(percent(20)));
    assert_eq!(ledger(1000, 1000).debt_rate(&steep), Err(ContractError::Overflow));
    let mut lent = ledger(1000, 400);
    assert_eq!(lent.distribute_interest(&env(YEAR), &Config { fee: percent(0), ..config }), Ok(0));
    assert_eq!(lent.debt_pool.size(), Uint128::new(460));
}

/// Where nothing is lent, no rate is too high for any length of time; where something is, it is.
#[test]
fn rates_out_of_range_stop_only_debt() {
    let huge = Interest { base_rate: Decimal { atomics: u128::MAX }, ..interest() };
    let config = Config { interest: huge, ..config() };
    let mut idle = ledger(1000, 0);
    assert_eq!(idle.distribute_interest(&env(5 * YEAR), &config), Ok(0));
    assert_eq!((idle.last_updated, idle.liquidity()), (5 * YEAR, 1000));
    let mut lent = ledger(1000, 1);
    assert_eq!(lent.distribute_interest(&env(5 * YEAR), &config), Err(ContractError::Overflow));
    assert_eq!(lent.last_updated, 0);
}

/// A year's interest on 400 of 1000 at 15 percent is 60, and a fee of a tenth of it buys shares.
#[test]
fn interest_is_distributed() {
    let mut state = ledger(1000, 400);
    let config = Config { fee: percent(10), ..config() };
    assert_eq!(state.distribute_interest(&env(YEAR), &config), Ok(5));
    assert_eq!(state.last_updated, YEAR);
    assert_eq!(state.debt_pool.size(), Uint128::new(460));
    assert_eq!(state.debt_pool.shares(), Uint128::new(400));
    assert_eq!(state.deposit_pool.size(), Uint128::new(1060));
    assert_eq!(state.deposit_pool.shares(), Uint128::new(1005));
    assert_eq!(state.liquidity(), 600);
    assert_eq!(state.distribute_interest(&env(YEAR), &config), Ok(0));
    assert_eq!(state.debt_pool.size(), Uint128::new(460));

    let mut half = ledger(1000, 400);
    assert_eq!(half.distribute_interest(&env(YEAR / 2), &Config { fee: percent(0), ..config }), Ok(0));
    assert_eq!(half.debt_pool.size(), Uint128::new(430));
    assert_eq!(half.deposit_pool.shares(), Uint128::new(1000));
}

/// Interest that would leave too few shares for their value is refused, and nothing changes.
#[test]
fn interest_keeps_shares_divisible() {
    let mut state = ledger(2, 2);
    let before = state.copy();
    for (rate, error) in [(300, SharePoolError::InvalidDeposit), (1000, SharePoolError::ZeroShares)] {
        let steep = Interest { base_rate: Decimal { atomics: rate * ONE }, ..interest() };
        let config = Config { fee: percent(0), interest: steep, ..config() };
        assert_eq!(state.distribute_interest(&env(YEAR), &config), Err(ContractError::SharePool(error)));
        assert_eq!(state.last_updated, before.last_updated);
        assert_eq!(state.deposit_pool, before.deposit_pool);
        assert_eq!(state.debt_pool, before.debt_pool);
    }
}

#[test]
fn ledgers_refuse_what_they_cannot_do() {
    let mut state = ledger(1000, 400);
    assert_eq!(state.deposit(0), Err(ContractError::SharePool(SharePoolError::ZeroAmount)));
    assert_eq!(state.withdraw(1001), Err(ContractError::SharePool(SharePoolError::ShareOverflow)));
    assert_eq!(state.withdraw(601), Err(ContractError::InsufficientLiquidity));
    assert_eq!(state.borrow(601), Err(ContractError::InsufficientLiquidity));
    assert_eq!(state.borrow(0), Err(ContractError::SharePool(SharePoolError::ZeroAmount)));
    assert_eq!(state.repay(0), Err(ContractError::SharePool(SharePoolError::ZeroAmount)));
    assert_eq!(state.repay(401), Err(ContractError::SharePool(SharePoolError::ShareOverflow)));
    assert_eq!(State::init(&env(0)).deposit(u128::MAX), Err(ContractError::Overflow));
    assert_eq!((state.liquidity(), state.debt_pool.size()), (600, Uint128::new(400)));
    assert_eq!(state.repay(400), Ok(400));
    assert_eq!(state.withdraw(1000), Ok(1000));
    assert_eq!(state.deposit_pool, rujira_rs::SharePool::default());
}

/// The pool functions do what the pool does.
#[test]
fn pools_follow_the_share_pool() {
    let (mut ours, mut theirs) = (rujira_rs::SharePool::default(), rujira_rs::SharePool::default());
    assert_eq!(pool::ratio(&ours), Ok(percent(0)));
    assert_eq!(pool::ownership(&ours, 0), Ok(0));
    assert_eq!(pool::ownership(&ours, 1), Err(ContractError::Overflow));
    for amount in [1_000u128, 333, 7, 100_000] {
        assert_eq!(pool::join(&mut ours, amount), Ok(theirs.join(Uint128::new(amount)).unwrap().u128()));
        assert_eq!(pool::deposit(&mut ours, 13), theirs.deposit(Uint128::new(13)).map_err(|_| unreachable!()));
        assert_eq!(ours, theirs);
        assert_eq!(pool::ownership(&ours, 55), Ok(theirs.ownership(Uint128::new(55)).u128()));
        assert_eq!(pool::ratio(&ours), Ok(Decimal { atomics: theirs.ratio().atomics().u128() }));
    }
    for shares in [1u128, 500, 10_000] {
        assert_eq!(pool::leave(&mut ours, shares), Ok(theirs.leave(Uint128::new(shares)).unwrap().u128()));
        assert_eq!(ours, theirs);
    }
    assert_eq!(pool::deposit(&mut ours, u128::MAX), Err(ContractError::Overflow));
    assert_eq!(ours, theirs);
}

/// At a share value of 1.25, 1000 buys 800 shares, or one less where the part of the pool that it buys
/// is no finite decimal.
#[test]
fn shares_are_bought_at_their_value() {
    for (shares, donated, issued) in [(800u128, 200u128, 800u128), (12, 3, 799)] {
        let mut pool = rujira_rs::SharePool::default();
        assert_eq!(pool::join(&mut pool, shares), Ok(shares));
        assert_eq!(pool::deposit(&mut pool, donated), Ok(()));
        assert_eq!(pool::ratio(&pool), Ok(percent(125)));
        assert_eq!(pool::join(&mut pool, 1000), Ok(issued));
    }
}

#[test]
fn shares_are_never_issued_for_nothing() {
    let mut shares = rujira_rs::SharePool::default();
    assert_eq!(pool::join(&mut shares, 1_000), Ok(1_000));
    assert_eq!(pool::deposit(&mut shares, 1_000), Ok(()));
    assert_eq!(pool::join(&mut shares, 1), Err(ContractError::SharePool(SharePoolError::ZeroShares)));
    assert_eq!(pool::join(&mut shares, 2), Ok(1));
    assert_eq!(pool::leave(&mut shares, 0), Err(ContractError::SharePool(SharePoolError::ZeroAmount)));
}

#[test]
fn payments_are_checked() {
    let (config, e) = (config(), env(0));
    let mut state = State::init(&e);
    for (funds, error) in [
        (vec![], PaymentError::NoFunds),
        (vec![(0, "btc")], PaymentError::NoFunds),
        (vec![(5, "eth")], PaymentError::MissingDenom("btc".to_string())),
        (vec![(5, "btc"), (5, "eth")], PaymentError::MultipleDenoms),
    ] {
        let msg = ExecuteMsg::Deposit { callback: None };
        let refused = execute(&config, &e, &info("user", &funds), &mut state, &mut None, msg);
        assert_eq!(refused.unwrap_err(), ContractError::Payment(error));
    }
    let msg = ExecuteMsg::Withdraw { callback: None };
    let refused = execute(&config, &e, &info("user", &[(5, "btc")]), &mut state, &mut None, msg);
    assert_eq!(
        refused.unwrap_err(),
        ContractError::Payment(PaymentError::MissingDenom("x/ghost-vault/btc".to_string()))
    );
}

#[test]
fn deposits_mint_and_withdrawals_burn() {
    let (config, e) = (config(), env(0));
    let mut state = State::init(&e);
    let msg = ExecuteMsg::Deposit { callback: None };
    let response = execute(&config, &e, &info("user", &[(900, "btc")]), &mut state, &mut None, msg).unwrap();
    let mint = any(outside_factory().mint_msg(Uint128::new(900), Addr::unchecked("user")));
    assert_eq!(
        response,
        Response { messages: vec![mint], events: vec![event_deposit(&"user".to_string(), 900, 900)] }
    );

    let msg = ExecuteMsg::Withdraw { callback: None };
    let funds = info("user", &[(300, "x/ghost-vault/btc")]);
    let response = execute(&config, &e, &funds, &mut state, &mut None, msg).unwrap();
    let burn = any(outside_factory().burn_msg(Uint128::new(300)));
    let send = CosmosMsg::BankSend { to_address: "user".to_string(), amount: coins(300, &"btc".to_string()) };
    assert_eq!(
        response,
        Response { messages: vec![burn, send], events: vec![event_withdraw(&"user".to_string(), 300, 300)] }
    );
}

fn outside_callback(data: &[u8], to: &str, amount: u128, denom: &str) -> CosmosMsg {
    let callback = rujira_rs::CallbackData(Binary::new(data.to_vec()));
    let funds = cosmwasm_std::coins(amount, denom);
    let to = Addr::unchecked(to);
    let msg = callback.to_message(&to, cosmwasm_std::Empty {}, funds).unwrap();
    match msg.into() {
        cosmwasm_std::CosmosMsg::<cosmwasm_std::Empty>::Wasm(cosmwasm_std::WasmMsg::Execute {
            contract_addr,
            msg,
            funds,
        }) => CosmosMsg::WasmExecute {
            contract_addr,
            msg: msg.to_vec(),
            funds: funds.into_iter().map(|c| Coin { denom: c.denom, amount: c.amount.u128() }).collect(),
        },
        other => panic!("unexpected message {:?}", other),
    }
}

/// With a callback, funds go along with a call of the sender; receipt tokens pass by the vault.
#[test]
fn callbacks_carry_the_funds() {
    let (config, e) = (config(), env(0));
    let mut state = State::init(&e);
    let callback = || Some(CallbackData { data: vec![1, 2, 3] });

    let msg = ExecuteMsg::Deposit { callback: callback() };
    let response = execute(&config, &e, &info("user", &[(900, "btc")]), &mut state, &mut None, msg).unwrap();
    let mint = any(outside_factory().mint_msg(Uint128::new(900), Addr::unchecked("vault")));
    let call = outside_callback(&[1, 2, 3], "user", 900, "x/ghost-vault/btc");
    assert_eq!(response.messages, vec![mint, call]);

    let msg = ExecuteMsg::Withdraw { callback: callback() };
    let funds = info("user", &[(300, "x/ghost-vault/btc")]);
    let response = execute(&config, &e, &funds, &mut state, &mut None, msg).unwrap();
    let burn = any(outside_factory().burn_msg(Uint128::new(300)));
    assert_eq!(response.messages, vec![burn, outside_callback(&[1, 2, 3], "user", 300, "btc")]);

    let mut borrower = Borrower { addr: "b".to_string(), limit: 100, shares: 0, delegates: vec![] };
    let msg = MarketMsg::Borrow { amount: 100, callback: callback(), delegate: None };
    let response = execute_market(&config, &info("b", &[]), &mut state, msg, &mut borrower).unwrap();
    assert_eq!(
        response,
        Response {
            messages: vec![outside_callback(&[1, 2, 3], "b", 100, "btc")],
            events: vec![event_borrow(&"b".to_string(), None, 100, 100)],
        }
    );
    match &response.messages[0] {
        CosmosMsg::WasmExecute { msg, .. } => {
            assert_eq!(String::from_utf8(msg.clone()).unwrap(), "{\"callback\":{\"data\":\"e30=\",\"callback\":\"AQID\"}}")
        }
        other => panic!("unexpected message {:?}", other),
    }
}

#[test]
fn tokens_have_a_denomination() {
    let token = TokenFactory { contract: "vault".to_string(), id: "ghost-vault/btc".to_string() };
    assert_eq!(token.denom(), "x/ghost-vault/btc");
    let minted = token.mint_msg(u128::MAX, &"user".to_string());
    assert_eq!(minted, any(outside_factory().mint_msg(Uint128::MAX, Addr::unchecked("user"))));
}

#[test]
fn requests_with_invalid_delegates_are_refused() {
    let config = config();
    let mut state = ledger(1000, 0);
    let mut borrower = Borrower { addr: "b".to_string(), limit: 500, shares: 0, delegates: vec![] };
    let error = ContractError::Std("invalid address".to_string());
    let msg = MarketMsg::Borrow { amount: 100, callback: None, delegate: Some(bad_address()) };
    assert_eq!(execute_market(&config, &info("b", &[]), &mut state, msg, &mut borrower).unwrap_err(), error);
    let msg = MarketMsg::Repay { delegate: Some(bad_address()) };
    let funds = info("b", &[(5, "btc")]);
    assert_eq!(execute_market(&config, &funds, &mut state, msg, &mut borrower).unwrap_err(), error);
    assert_eq!(borrower.shares, 0);
    assert_eq!(state.liquidity(), 1000);
}

/// A repayment pays off shares rounded down, and the borrower's books follow the pool's.
#[test]
fn repayments_round_in_favour_of_the_pool() {
    let config = Config { fee: percent(0), ..config() };
    let mut state = ledger(1000, 400);
    let mut borrower = Borrower { addr: "b".to_string(), limit: 400, shares: 400, delegates: vec![] };
    assert_eq!(state.distribute_interest(&env(YEAR), &config), Ok(0));
    assert_eq!(state.debt_pool.size(), Uint128::new(460));
    let msg = MarketMsg::Repay { delegate: None };
    let response = execute_market(&config, &info("b", &[(100, "btc")]), &mut state, msg, &mut borrower).unwrap();
    // 100 * 400 / 460 shares, and 86 * 460 / 400 of the debt for them
    assert_eq!(response.events, vec![event_repay(&"b".to_string(), None, 100, 86)]);
    assert_eq!(response.messages, vec![]);
    assert_eq!(borrower.shares, 314);
    assert_eq!(state.debt_pool.size(), Uint128::new(460 - 98));
    assert_eq!(state.debt_pool.shares(), Uint128::new(314));
}

/// Giving back the shares of a loan undoes it.
#[test]
fn repaying_undoes_borrowing() {
    let state = ledger(1000, 400);
    let mut borrower = Borrower {
        addr: "b".to_string(),
        limit: 400,
        shares: 100,
        delegates: vec![Delegate { addr: "d".to_string(), shares: 40 }],
    };
    let before = borrower.copy();
    assert_eq!(borrower.borrow(&state.debt_pool, 50), Ok(()));
    assert_eq!(borrower.shares, 150);
    assert_eq!(borrower.repay(50), Ok(()));
    assert_eq!(borrower, before);
    assert_eq!(borrower.delegate_borrow("d".to_string(), &state.debt_pool, 50), Ok(()));
    assert_eq!((borrower.shares, borrower.delegate_shares(&"d".to_string())), (150, 90));
    assert_eq!(borrower.delegate_repay("d".to_string(), 50), Ok(()));
    assert_eq!(borrower, before);
    assert_eq!(borrower.delegate_shares(&"e".to_string()), 0);
}

#[test]
fn borrowers_refuse_what_they_cannot_do() {
    let state = ledger(1000, 400);
    let mut borrower = Borrower { addr: "b".to_string(), limit: 300, shares: 100, delegates: vec![] };
    let before = borrower.copy();
    assert_eq!(borrower.borrow(&state.debt_pool, 201), Err(ContractError::BorrowLimit));
    assert_eq!(borrower.delegate_borrow("d".to_string(), &state.debt_pool, 201), Err(ContractError::BorrowLimit));
    assert_eq!(borrower.borrow(&state.debt_pool, u128::MAX), Err(ContractError::Overflow));
    assert_eq!(borrower.repay(101), Err(ContractError::Overflow));
    assert_eq!(borrower.delegate_repay("d".to_string(), 1), Err(ContractError::Overflow));
    assert_eq!(borrower, before);
    assert_eq!(Borrower::load(None), Err(ContractError::Unauthorized));
}

/// A list has no address twice, and not the one that it starts after.
#[test]
fn lists_repeat_no_address() {
    let borrower = |addr: &str, limit: u128| Borrower { addr: addr.to_string(), limit, shares: 0, delegates: vec![] };
    let stored = || vec![borrower("a", 1), borrower("b", 2), borrower("a", 3), borrower("c", 4), borrower("b", 5)];
    let limits = |list: Vec<Borrower>| list.iter().map(|b| b.limit).collect::<Vec<u128>>();
    assert_eq!(limits(Borrower::list(stored(), None, &None)), vec![1, 2, 4]);
    assert_eq!(limits(Borrower::list(stored(), None, &Some("b".to_string()))), vec![1, 4]);
    assert_eq!(limits(Borrower::list(stored(), Some(2), &Some("a".to_string()))), vec![2, 4]);
    assert_eq!(limits(Borrower::list(stored(), Some(1), &Some("z".to_string()))), vec![1]);
    assert_eq!(limits(Borrower::list(vec![], Some(1), &None)), Vec::<u128>::new());
}

/// A delegate can always pay what it owes, or less, as long as the borrower's books cover it.
#[test]
fn delegates_can_repay() {
    let config = Config { fee: percent(0), ..config() };
    let mut state = ledger(1000, 400);
    let mut borrower = Borrower {
        addr: "b".to_string(),
        limit: 400,
        shares: 400,
        delegates: vec![Delegate { addr: "d".to_string(), shares: 100 }],
    };
    assert_eq!(state.distribute_interest(&env(YEAR), &config), Ok(0));
    // 100 of 400 shares of 460; then 57 of 357 shares of 411, worth 65, which pays off 56 shares
    for (paid, left) in [(50u128, 57u128), (1_000, 1)] {
        let msg = MarketMsg::Repay { delegate: Some(address("d")) };
        let funds = info("b", &[(paid, "btc")]);
        execute_market(&config, &funds, &mut state, msg, &mut borrower).unwrap();
        assert_eq!(borrower.delegate_shares(&"d".to_string()), left);
        assert_eq!(borrower.shares, 300 + left);
        assert_eq!(state.debt_pool.shares(), Uint128::new(300 + left));
    }
}

/// Without time passing, a ledger stays as it is after any request.
#[test]
fn no_time_costs_no_interest() {
    let config = config();
    let mut state = ledger(1000, 900);
    assert_eq!(state.distribute_interest(&env(YEAR), &config), Ok(5));
    assert_eq!(state.repay(500), Ok(185));
    let (debt, deposits) = (state.debt_pool.clone(), state.deposit_pool.clone());
    assert_eq!(state.distribute_interest(&env(YEAR), &config), Ok(0));
    assert_eq!((state.debt_pool, state.deposit_pool), (debt, deposits));
}

/// A request that is refused late changes neither the ledger nor the borrower.
#[test]
fn refused_requests_change_nothing() {
    let config = config();
    let mut state = ledger(1000, 400);
    let mut found = Some(Borrower { addr: "b".to_string(), limit: 400, shares: 400, delegates: vec![] });
    let msg = ExecuteMsg::Market(MarketMsg::Borrow { amount: 100, callback: None, delegate: None });
    let refused = execute(&config, &env(YEAR), &info("b", &[]), &mut state, &mut found, msg);
    assert_eq!(refused.unwrap_err(), ContractError::BorrowLimit);
    assert_eq!(state.last_updated, 0);
    assert_eq!(state.debt_pool.size(), Uint128::new(400));
    assert_eq!(found.unwrap().shares, 400);
}

#[test]
fn queries_are_answered() {
    let (config, state) = (config(), ledger(1000, 0));
    assert_eq!(
        query(&config, &env(0), &state, QueryMsg::Config),
        Ok(QueryResponse::Config(ConfigResponse { denom: "btc".to_string(), interest: interest() }))
    );
    let lookup = Lookup { addr: bad_address(), found: None };
    assert_eq!(
        query(&config, &env(0), &state, QueryMsg::Borrower { borrower: lookup }),
        Err(ContractError::Std("invalid address".to_string()))
    );
    let known = Borrower { addr: "b".to_string(), limit: 1, shares: 0, delegates: vec![] };
    let lookup = Lookup { addr: address("b"), found: Some(known) };
    assert_eq!(
        query(&config, &env(0), &state, QueryMsg::Delegate { borrower: lookup, addr: bad_address() }),
        Err(ContractError::Std("invalid address".to_string()))
    );
}

#[test]
fn migration_records_the_version() {
    let (version, response) = migrate(Ok(())).unwrap();
    assert_eq!(version.contract, "rujira-ghost-vault");
    assert_eq!(version.version, "0.1.0");
    assert_eq!(response, Response { messages: vec![], events: vec![] });
    assert_eq!(migrate(Err(ContractError::Overflow)).unwrap_err(), ContractError::Overflow);
}

#[test]
fn accounts_run_what_the_chain_hands_them() {
    let (version, response) = account::instantiate::<u8>();
    assert_eq!(version, ContractVersion { contract: "rujira-account".to_string(), version: "0.1.0".to_string() });
    assert_eq!(response, Response { messages: vec![], events: vec![] });
    assert_eq!(account::sudo(7u8), Ok(Response { messages: vec![7u8], events: vec![] }));
    assert_eq!(account::execute::<u8>(), Err(ContractError::Unauthorized));
    assert_eq!(account::query(), Err(ContractError::Unauthorized));
}

#[test]
fn amounts_are_written_in_decimal() {
    for n in [0, 7, 10, 1_000_000, u64::MAX as u128, u128::MAX] {
        assert_eq!(amount_text(n), n.to_string());
    }
    let event = event_borrow(&"b".to_string(), Some(&"d".to_string()), 12, 34);
    assert_eq!(event.kind, "rujira-ghost-vault/borrow");
    for (key, value) in [("borrower", "b"), ("delegate", "d"), ("amount", "12"), ("shares", "34")] {
        assert!(event.attributes.contains(&Attribute { key: key.to_string(), value: value.to_string() }));
    }
    assert_eq!(event.attributes.len(), 4);
}

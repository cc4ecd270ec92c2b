//! Scenarios on a vault with balances, borrowers and a clock.
use cosmwasm_std::Decimal as StdDecimal;
use rujira_vault::address::Address;
use rujira_vault::borrowers::Borrower;
use rujira_vault::config::{Config, InstantiateMsg};
use rujira_vault::contract::{execute, instantiate, query, sudo};
use rujira_vault::decimal::{Decimal, ONE};
use rujira_vault::error::{ContractError, SharePoolError};
use rujira_vault::interest::Interest;
use rujira_vault::message::{CosmosMsg, Response};
use rujira_vault::msg::{
    BorrowerResponse, DelegateResponse, ExecuteMsg, Lookup, MarketMsg, QueryMsg, QueryResponse,
    StatusResponse, SudoMsg,
};
use rujira_vault::payment::{Coin, MessageInfo};
use rujira_vault::state::{Env, State};
use rujira_vault::token::TokenMetadata;
use std::collections::BTreeMap;
use std::str::FromStr;

const RECEIPT: &str = "x/ghost-vault/btc";
const VAULT: &str = "vault";
const DAY: u64 = 86_400_000_000_000;

fn decimal(text: &str) -> Decimal {
    Decimal { atomics: StdDecimal::from_str(text).unwrap().atomics().u128() }
}

fn ratio(numerator: u128, denominator: u128) -> Decimal {
    Decimal { atomics: StdDecimal::from_ratio(numerator, denominator).atomics().u128() }
}

fn address(text: &str) -> Address {
    Address { text: text.to_string(), validated: Ok(text.to_string()) }
}

/// The length-delimited fields of a protobuf message, by their tags.
fn fields(bytes: &[u8]) -> BTreeMap<u8, Vec<u8>> {
    let mut found = BTreeMap::new();
    let mut at = 0;
    while at < bytes.len() {
        assert_eq!(bytes[at] & 7, 2);
        let tag = bytes[at] >> 3;
        let len = bytes[at + 1] as usize;
        assert!(len < 128);
        found.insert(tag, bytes[at + 2..at + 2 + len].to_vec());
        at += 2 + len;
    }
    found
}

fn text(bytes: &[u8]) -> String {
    String::from_utf8(bytes.to_vec()).unwrap()
}

/// A chain with one vault on it.
struct Chain {
    time: u64,
    config: Config,
    state: State,
    borrowers: BTreeMap<String, Borrower>,
    balances: BTreeMap<(String, String), u128>,
}

impl Chain {
    fn new(fee: Decimal) -> Chain {
        let time = 1_571_797_419_879_305_533;
        let msg = InstantiateMsg {
            denom: "btc".to_string(),
            receipt: TokenMetadata {
                description: "".to_string(),
                display: "".to_string(),
                name: "".to_string(),
                symbol: "".to_string(),
                uri: None,
                uri_hash: None,
            },
            interest: Interest {
                target_utilization: ratio(8, 10),
                base_rate: ratio(1, 10),
                step1: ratio(1, 10),
                step2: ratio(3, 1),
            },
            fee,
            fee_address: address("owner"),
        };
        let made = instantiate(&Env { contract: VAULT.to_string(), time }, msg).unwrap();
        Chain {
            time,
            config: made.config,
            state: made.state,
            borrowers: BTreeMap::new(),
            balances: BTreeMap::new(),
        }
    }

    fn env(&self) -> Env {
        Env { contract: VAULT.to_string(), time: self.time }
    }

    fn balance(&self, who: &str, denom: &str) -> u128 {
        *self.balances.get(&(who.to_string(), denom.to_string())).unwrap_or(&0)
    }

    fn credit(&mut self, who: &str, amount: u128, denom: &str) {
        *self.balances.entry((who.to_string(), denom.to_string())).or_insert(0) += amount;
    }

    fn send(&mut self, from: &str, to: &str, amount: u128, denom: &str) {
        let held = self.balance(from, denom);
        assert!(held >= amount, "{} holds {} {}, not {}", from, held, denom, amount);
        self.balances.insert((from.to_string(), denom.to_string()), held - amount);
        self.credit(to, amount, denom);
    }

    fn run(&mut self, msg: &CosmosMsg) {
        match msg {
            CosmosMsg::BankSend { to_address, amount } => {
                for c in amount {
                    self.send(VAULT, to_address, c.amount, &c.denom);
                }
            }
            CosmosMsg::WasmExecute { contract_addr, funds, .. } => {
                for c in funds {
                    self.send(VAULT, contract_addr, c.amount, &c.denom);
                }
            }
            CosmosMsg::Any { type_url, value } => {
                let outer = fields(value);
                assert_eq!(text(&outer[&1]), VAULT);
                let coin = fields(&outer[&2]);
                let (denom, amount) = (text(&coin[&1]), text(&coin[&2]).parse::<u128>().unwrap());
                match type_url.as_str() {
                    "/thorchain.denom.v1.MsgMintTokens" => {
                        let recipient = text(&outer[&3]);
                        self.credit(&recipient, amount, &denom);
                    }
                    "/thorchain.denom.v1.MsgBurnTokens" => self.send(VAULT, "nobody", amount, &denom),
                    other => panic!("unexpected message {}", other),
                }
            }
        }
    }

    fn execute(
        &mut self,
        sender: &str,
        msg: ExecuteMsg,
        funds: &[(u128, &str)],
    ) -> Result<Response<CosmosMsg>, ContractError> {
        let info = MessageInfo {
            sender: sender.to_string(),
            funds: funds.iter().map(|(a, d)| Coin { denom: d.to_string(), amount: *a }).collect(),
        };
        for (a, d) in funds {
            self.send(sender, VAULT, *a, d);
        }
        let env = self.env();
        let mut found = self.borrowers.remove(sender);
        let result = execute(&self.config, &env, &info, &mut self.state, &mut found, msg);
        if let Some(borrower) = found {
            self.borrowers.insert(sender.to_string(), borrower);
        }
        match &result {
            Ok(response) => {
                for msg in &response.messages {
                    self.run(msg);
                }
            }
            Err(_) => {
                for (a, d) in funds {
                    self.send(VAULT, sender, *a, d);
                }
            }
        }
        result
    }

    fn deposit(&mut self, sender: &str, amount: u128) -> Result<Response<CosmosMsg>, ContractError> {
        self.execute(sender, ExecuteMsg::Deposit { callback: None }, &[(amount, "btc")])
    }

    fn withdraw(&mut self, sender: &str, shares: u128) -> Result<Response<CosmosMsg>, ContractError> {
        self.execute(sender, ExecuteMsg::Withdraw { callback: None }, &[(shares, RECEIPT)])
    }

    fn borrow(
        &mut self,
        sender: &str,
        amount: u128,
        delegate: Option<&str>,
    ) -> Result<Response<CosmosMsg>, ContractError> {
        let delegate = delegate.map(address);
        self.execute(sender, ExecuteMsg::Market(MarketMsg::Borrow { amount, callback: None, delegate }), &[])
    }

    fn repay(
        &mut self,
        sender: &str,
        amount: u128,
        delegate: Option<&str>,
    ) -> Result<Response<CosmosMsg>, ContractError> {
        let delegate = delegate.map(address);
        self.execute(sender, ExecuteMsg::Market(MarketMsg::Repay { delegate }), &[(amount, "btc")])
    }

    fn set_borrower(&mut self, contract: &str, limit: u128) {
        let mut found = self.borrowers.remove(contract);
        sudo(&mut self.config, &mut found, SudoMsg::SetBorrower { contract: address(contract), limit }).unwrap();
        self.borrowers.insert(contract.to_string(), found.unwrap());
    }

    fn lookup(&self, addr: &str) -> Lookup {
        Lookup { addr: address(addr), found: self.borrowers.get(addr).map(|b| b.copy()) }
    }

    fn query(&self, msg: QueryMsg) -> Result<QueryResponse, ContractError> {
        query(&self.config, &self.env(), &self.state, msg)
    }

    fn status(&self) -> StatusResponse {
        match self.query(QueryMsg::Status) {
            Ok(QueryResponse::Status(status)) => status,
            other => panic!("unexpected answer {:?}", other),
        }
    }

    fn borrower(&self, addr: &str) -> BorrowerResponse {
        match self.query(QueryMsg::Borrower { borrower: self.lookup(addr) }) {
            Ok(QueryResponse::Borrower(borrower)) => borrower,
            other => panic!("unexpected answer {:?}", other),
        }
    }

    fn delegate(&self, borrower: &str, addr: &str) -> DelegateResponse {
        match self.query(QueryMsg::Delegate { borrower: self.lookup(borrower), addr: address(addr) }) {
            Ok(QueryResponse::Delegate(delegate)) => delegate,
            other => panic!("unexpected answer {:?}", other),
        }
    }

    fn pass_days(&mut self, days: u64) {
        self.time += days * DAY;
    }

    /// What the ledger says that the vault holds.
    fn liquidity(&self) -> u128 {
        self.state.liquidity()
    }
}

/// The chain logs the events of a contract under `wasm-`.
fn assert_event(response: &Response<CosmosMsg>, kind: &str, attributes: &[(&str, &str)]) {
    let found = response.events.iter().any(|e| {
        format!("wasm-{}", e.kind) == kind
            && attributes.iter().all(|(k, v)| e.attributes.iter().any(|a| a.key == *k && a.value == *v))
    });
    assert!(found, "no {} with {:?} in {:?}", kind, attributes, response.events);
}

fn assert_mint(response: &Response<CosmosMsg>, amount: &str, recipient: &str) {
    let found = response.messages.iter().any(|m| match m {
        CosmosMsg::Any { type_url, value } if type_url == "/thorchain.denom.v1.MsgMintTokens" => {
            let outer = fields(value);
            let coin = fields(&outer[&2]);
            text(&coin[&1]) == RECEIPT && text(&coin[&2]) == amount && text(&outer[&3]) == recipient
        }
        _ => false,
    });
    assert!(found, "no mint of {} to {} in {:?}", amount, recipient, response.messages);
}

fn assert_burn(response: &Response<CosmosMsg>, amount: &str) {
    let found = response.messages.iter().any(|m| match m {
        CosmosMsg::Any { type_url, value } if type_url == "/thorchain.denom.v1.MsgBurnTokens" => {
            let coin = fields(&fields(value)[&2]);
            text(&coin[&1]) == RECEIPT && text(&coin[&2]) == amount
        }
        _ => false,
    });
    assert!(found, "no burn of {} in {:?}", amount, response.messages);
}

fn assert_transfer(response: &Response<CosmosMsg>, amount: u128, denom: &str, recipient: &str) {
    let expected = CosmosMsg::BankSend {
        to_address: recipient.to_string(),
        amount: vec![Coin { denom: denom.to_string(), amount }],
    };
    assert!(response.messages.contains(&expected));
}

#[test]
fn lifecycle() {
    let mut app = Chain::new(Decimal { atomics: 0 });
    app.credit("owner", 1_000_000, "btc");
    app.credit("borrower", 1_000_000, "btc");

    // First deposit
    let res = app.execute("owner", ExecuteMsg::Deposit { callback: None }, &[(1_000, "btc")]).unwrap();
    println!("Execute contract content: {:?}", res);
    assert_event(
        &res,
        "wasm-rujira-ghost-vault/deposit",
        &[("amount", "1000"), ("owner", "owner"), ("shares", "1000")],
    );
    assert_mint(&res, "1000", "owner");

    // Withdraw some
    let res =
        app.execute("owner", ExecuteMsg::Withdraw { callback: None }, &[(200, "x/ghost-vault/btc")]).unwrap();
    assert_event(
        &res,
        "wasm-rujira-ghost-vault/withdraw",
        &[("amount", "200"), ("owner", "owner"), ("shares", "200")],
    );
    assert_burn(&res, "200");

    // Whitelist a borrower address
    app.set_borrower("borrower", 500);
    let b = app.borrower("borrower");
    assert_eq!(b.addr, "borrower");
    assert_eq!(b.limit, 500);
    assert_eq!(b.current, 0);

    // Check we can't borrow more than the limit
    assert_eq!(app.borrow("borrower", 501, None).unwrap_err(), ContractError::BorrowLimit);

    // Borrow the whole lot
    let res = app.borrow("borrower", 500, None).unwrap();
    assert_event(
        &res,
        "wasm-rujira-ghost-vault/borrow",
        &[("borrower", "borrower"), ("amount", "500"), ("shares", "500")],
    );
    assert_transfer(&res, 500, "btc", "borrower");

    // Now repay with the required asset
    let res = app.repay("borrower", 100, None).unwrap();
    assert_event(
        &res,
        "wasm-rujira-ghost-vault/repay",
        &[("amount", "100"), ("borrower", "borrower"), ("shares", "100")],
    );

    app.pass_days(90);

    // Check the rate has increased
    let status = app.status();
    assert_eq!(status.utilization_ratio, decimal("0.509803921568627451"));
    assert_eq!(status.debt_pool.size, 416);
    assert_eq!(status.debt_pool.shares, 400);
    assert_eq!(status.debt_pool.ratio, decimal("1.04"));
    assert_eq!(status.deposit_pool.size, 816);
    assert_eq!(status.deposit_pool.shares, 800);
    assert_eq!(status.deposit_pool.ratio, decimal("1.02"));

    // Make another deposit: fewer than 1000 tokens are minted, for the interest paid so far
    let res = app.deposit("owner", 1_000).unwrap();
    assert_event(
        &res,
        "wasm-rujira-ghost-vault/deposit",
        &[("amount", "1000"), ("owner", "owner"), ("shares", "980")],
    );
    assert_mint(&res, "980", "owner");

    // A 1:1 repayment is not enough, more btc is required
    let res = app.repay("borrower", 104, None).unwrap();
    assert_event(
        &res,
        "wasm-rujira-ghost-vault/repay",
        &[("amount", "104"), ("borrower", "borrower"), ("shares", "100")],
    );

    // The value of the deposit has increased
    let res = app.withdraw("owner", 200).unwrap();
    assert_event(
        &res,
        "wasm-rujira-ghost-vault/withdraw",
        &[("amount", "204"), ("owner", "owner"), ("shares", "200")],
    );
    assert_burn(&res, "200");

    // Check complete repayment
    app.repay("borrower", 312, None).unwrap();
    let status = app.status();
    assert_eq!(status.utilization_ratio, Decimal { atomics: 0 });
    assert_eq!(status.debt_pool.size, 0);
    assert_eq!(status.debt_pool.shares, 0);
    assert_eq!(status.debt_pool.ratio, Decimal { atomics: 0 });
    assert_eq!(status.deposit_pool.size, 1612);
    assert_eq!(status.deposit_pool.shares, 1580);
    assert_eq!(status.deposit_pool.ratio, decimal("1.020253164556962025"));
    assert_eq!(app.balance(VAULT, "btc"), app.liquidity());
}

/// A vault that takes one percent of the interest, and two holders of the asset.
fn setup_vault() -> Chain {
    let mut app = Chain::new(ratio(1, 100));
    app.credit("owner", 10_000_000, "btc");
    app.credit("attacker", 10_000_000, "btc");
    app
}

/// Funds that are sent to the vault outside of a deposit do not change the value of a share.
#[test]
fn exploit_first_depositor_attack() {
    let mut app = setup_vault();
    app.deposit("attacker", 1).unwrap();
    let attacker_shares = app.balance("attacker", "x/ghost-vault/btc");
    assert_eq!(attacker_shares, 1);

    app.send("attacker", VAULT, 1_000_000, "btc");
    let status = app.status();
    assert_eq!(status.deposit_pool.size, 1);
    assert_eq!(status.deposit_pool.shares, 1);
    assert_eq!(status.deposit_pool.ratio, decimal("1"));

    app.deposit("owner", 1_000_000).unwrap();
    assert_eq!(app.balance("owner", RECEIPT), 1_000_000);

    app.withdraw("attacker", attacker_shares).unwrap();
    let initial_investment = 1_000_001;
    assert_eq!(app.balance("attacker", "btc"), 10_000_000 - initial_investment + 1);
}

/// Small deposits and withdrawals bring no profit.
#[test]
fn exploit_precision_loss() {
    let mut app = setup_vault();
    app.deposit("owner", 1_000_000).unwrap();
    let initial = app.balance("attacker", "btc");
    for i in 0..100 {
        if app.deposit("attacker", 10).is_ok() {
            let shares = app.balance("attacker", "x/ghost-vault/btc");
            if shares > 0 {
                app.withdraw("attacker", shares).unwrap();
            }
        }
        if i % 10 == 0 {
            println!("Completed {} iterations", i);
        }
    }
    let profit = app.balance("attacker", "btc") as i128 - initial as i128;
    assert!(profit <= 0);
    assert!(profit >= -1000);
    assert_eq!(profit, 0);
}

/// A large withdrawal does not lower what another depositor gets.
#[test]
fn exploit_no_slippage_protection() {
    let mut app = setup_vault();
    app.deposit("owner", 1_000_000).unwrap();
    app.deposit("attacker", 1_000_000).unwrap();
    let status = app.status();
    assert_eq!((status.deposit_pool.size, status.deposit_pool.shares), (2_000_000, 2_000_000));

    let expected_withdrawal = app.balance("owner", RECEIPT) / 10;
    let attacker_shares = app.balance("attacker", RECEIPT);
    app.withdraw("attacker", attacker_shares / 2).unwrap();
    let status_after = app.status();
    assert_eq!(status_after.deposit_pool.size, 1_500_000);
    assert_eq!(status_after.deposit_pool.ratio, status.deposit_pool.ratio);

    let before = app.balance("owner", "btc");
    app.withdraw("owner", expected_withdrawal).unwrap();
    let actual_received = app.balance("owner", "btc") - before;
    let expected = expected_withdrawal * status.deposit_pool.ratio.atomics / ONE;
    let slippage = expected as i128 - actual_received as i128;
    assert!(slippage <= 1000);
    assert_eq!(actual_received, 100_000);
}

/// Loans for delegates count toward the limit of the borrower.
#[test]
fn exploit_delegate_limit_bypass() {
    let mut app = setup_vault();
    app.deposit("owner", 10_000_000).unwrap();
    app.set_borrower("attacker", 100_000);
    assert!(app.borrow("attacker", 50_000, None).is_ok());
    assert!(app.borrow("attacker", 50_000, Some("delegate1")).is_ok());
    assert_eq!(app.borrow("attacker", 50_000, Some("delegate2")).unwrap_err(), ContractError::BorrowLimit);

    let borrower = app.borrower("attacker");
    assert_eq!(borrower.current, 100_000);
    assert_eq!(borrower.limit, 100_000);
    assert_eq!(borrower.available, 0);
    assert_eq!(app.delegate("attacker", "delegate1").current, 50_000);
    assert_eq!(app.delegate("attacker", "delegate2").current, 0);
}

/// A query shows what the next request finds.
#[test]
fn exploit_query_state_inconsistency() {
    let mut app = setup_vault();
    app.credit("owner", 100_000, "btc");
    app.deposit("owner", 10_000_000).unwrap();
    app.set_borrower("attacker", 5_000_000);
    app.borrow("attacker", 5_000_000, None).unwrap();
    app.pass_days(365);

    let status1 = app.status();
    assert_eq!(status1.debt_pool.size, 5_812_500);
    assert_eq!(status1.deposit_pool.size, 10_812_500);
    assert_eq!(app.status(), status1);

    app.deposit("owner", 100_000).unwrap();
    let status3 = app.status();
    assert_eq!(status3.debt_pool.size, status1.debt_pool.size);
    assert_eq!(status3.deposit_pool.size, 10_912_500);
    assert_eq!(status3.deposit_pool.shares, 10_100_075);
}

/// Small deposits still buy shares in a large pool.
#[test]
fn exploit_zero_shares_dos() {
    let mut app = setup_vault();
    app.credit("owner", 1_990_000_000, "btc");
    app.deposit("owner", 1_000_000_000).unwrap();
    app.send("owner", VAULT, 1_000_000_000, "btc");
    let status = app.status();
    assert_eq!(status.deposit_pool.ratio, decimal("1"));
    assert_eq!(status.deposit_pool.size, 1_000_000_000);
    assert_eq!(status.deposit_pool.shares, 1_000_000_000);

    app.deposit("attacker", 1).unwrap();
    assert_eq!(app.balance("attacker", RECEIPT), 1);
    for amount in [10, 100, 1_000, 10_000, 100_000, 1_000_000] {
        let test_user = format!("test_{}", amount);
        app.credit(&test_user, 10_000_000, "btc");
        app.deposit(&test_user, amount).unwrap();
        // The part of the pool that a deposit buys is rounded down, which costs at most one share
        assert_eq!(app.balance(&test_user, RECEIPT), amount - 1);
    }
}

/// Whoever deposits after interest was charged gets shares at their present value, first or not.
#[test]
fn exploit_interest_arbitrage() {
    let mut app = setup_vault();
    app.deposit("owner", 10_000_000).unwrap();
    app.set_borrower("owner", 5_000_000);
    app.borrow("owner", 5_000_000, None).unwrap();
    app.pass_days(365);
    let status = app.status();
    assert_eq!(status.deposit_pool.ratio, decimal("1.080437510991734215"));
    assert_eq!(status.debt_pool.size, 5_812_500);

    let attacker_deposit = 1_000_000;
    app.deposit("attacker", attacker_deposit).unwrap();
    let actual_shares = app.balance("attacker", RECEIPT);
    assert_eq!(actual_shares, 925_550);
    assert!(actual_shares >= attacker_deposit * 90 / 100);
    assert!(actual_shares <= attacker_deposit * 110 / 100);

    app.credit("victim", 10_000_000, "btc");
    app.deposit("victim", attacker_deposit).unwrap();
    assert_eq!(app.balance("victim", RECEIPT), actual_shares);
}

/// A loan that is repaid in the same block leaves no trace.
#[test]
fn exploit_flash_loan_manipulation() {
    let mut app = setup_vault();
    app.deposit("owner", 10_000_000).unwrap();
    app.set_borrower("attacker", 5_000_000);
    let status_before = app.status();
    assert_eq!(status_before.utilization_ratio, Decimal { atomics: 0 });
    app.borrow("attacker", 5_000_000, None).unwrap();
    assert_eq!(app.status().utilization_ratio, decimal("0.5"));
    app.repay("attacker", 5_000_000, None).unwrap();
    assert_eq!(app.status(), status_before);
    assert_eq!(app.balance("attacker", "btc"), 10_000_000);
}

/// The fee on the interest goes to the fee address with the next request.
#[test]
fn exploit_fee_extraction_race() {
    let mut app = setup_vault();
    app.deposit("owner", 1_000_000).unwrap();
    app.set_borrower("owner", 500_000);
    app.borrow("owner", 500_000, None).unwrap();
    app.pass_days(90);

    let fee_shares_before = app.balance("owner", RECEIPT);
    let res = app.deposit("attacker", 100_000).unwrap();
    assert_mint(&res, "98055", "attacker");
    assert_mint(&res, "196", "owner");
    let fees_collected = app.balance("owner", RECEIPT) - fee_shares_before;
    assert_eq!(fees_collected, 196);
}

/// A year of interest on large pools stays in range.
#[test]
fn exploit_integer_overflow_isolated() {
    let mut app = setup_vault();
    app.credit("owner", 100_000_000, "btc");
    app.deposit("owner", 100_000_000).unwrap();
    app.set_borrower("owner", 50_000_000);
    app.borrow("owner", 50_000_000, None).unwrap();
    let before = app.status();
    assert_eq!((before.deposit_pool.size, before.deposit_pool.shares), (100_000_000, 100_000_000));
    assert_eq!((before.debt_pool.size, before.debt_pool.shares), (50_000_000, 50_000_000));

    app.pass_days(365);
    let status = app.status();
    assert_eq!((status.deposit_pool.size, status.deposit_pool.shares), (108_125_000, 100_075_201));
    assert_eq!((status.debt_pool.size, status.debt_pool.shares), (58_125_000, 50_000_000));

    let res = app.deposit("owner", 1_000).unwrap();
    assert_event(&res, "wasm-rujira-ghost-vault/deposit", &[("amount", "1000"), ("shares", "925")]);
}

/// Where interest takes the debt above the limit, nothing more can be borrowed.
#[test]
fn exploit_available_underflow() {
    let mut app = setup_vault();
    app.deposit("owner", 1_000_000).unwrap();
    app.set_borrower("attacker", 900_000);
    app.borrow("attacker", 800_000, None).unwrap();
    assert_eq!(app.borrower("attacker").available, 100_000);
    app.pass_days(365);

    let borrower = app.borrower("attacker");
    assert_eq!(borrower.current, 960_000);
    assert_eq!(borrower.limit, 900_000);
    assert_eq!(borrower.available, 0);
    assert_eq!(app.borrow("attacker", 1, None).unwrap_err(), ContractError::SharePool(SharePoolError::ZeroShares));
    assert_eq!(app.borrow("attacker", 10, None).unwrap_err(), ContractError::BorrowLimit);
}

/// However much interest is charged, the debt stays below the deposits.
#[test]
fn exploit_deposit_pool_underflow() {
    let mut app = setup_vault();
    app.credit("owner", 990_000_000, "btc");
    app.deposit("owner", 1_000_000_000).unwrap();
    let status1 = app.status();
    assert_eq!((status1.deposit_pool.size, status1.deposit_pool.shares), (1_000_000_000, 1_000_000_000));
    app.set_borrower("owner", 900_000_000);
    app.borrow("owner", 900_000_000, None).unwrap();
    app.pass_days(730);

    let status = app.status();
    assert_eq!((status.deposit_pool.size, status.deposit_pool.shares), (4_060_000_000, 1_007_594_182));
    assert_eq!((status.debt_pool.size, status.debt_pool.shares), (3_960_000_000, 900_000_000));
    assert_eq!(status.utilization_ratio, decimal("0.975369458128078818"));

    let res = app.deposit("attacker", 100_000).unwrap();
    assert_event(&res, "wasm-rujira-ghost-vault/deposit", &[("amount", "100000"), ("shares", "24817")]);
}

/// When all shares are given back, nothing stays behind.
#[test]
fn exploit_dust_accounting() {
    let mut app = setup_vault();
    app.deposit("owner", 1_000_000).unwrap();
    app.deposit("attacker", 500_000).unwrap();
    let owner_shares = app.balance("owner", RECEIPT);
    app.withdraw("owner", owner_shares).unwrap();
    let attacker_shares = app.balance("attacker", RECEIPT);
    app.withdraw("attacker", attacker_shares).unwrap();

    assert_eq!(app.balance(VAULT, "btc"), 0);
    let status = app.status();
    assert_eq!(status.deposit_pool.size, 0);
    assert_eq!(status.deposit_pool.shares, 0);
}

/// Under many requests and a running clock, the vault holds what its ledger says, the books of the
/// borrowers add up to the debt pool, and no share of the deposits loses value.
#[test]
fn a_vault_stays_solvent() {
    let mut app = setup_vault();
    app.set_borrower("b1", 400_000);
    app.set_borrower("b2", 300_000);
    app.credit("b1", 1_000_000, "btc");
    app.credit("b2", 1_000_000, "btc");
    app.deposit("owner", 1_000_000).unwrap();
    let mut price = (0u128, 1u128);
    for step in 0u128..60 {
        let _ = match step % 6 {
            0 => app.borrow("b1", 37_001 + step, None),
            1 => app.borrow("b2", 21_013 + step, Some("d")),
            2 => app.deposit("attacker", 1_009 * (step + 1)),
            3 => app.repay("b1", 5_003 * (step % 7 + 1), None),
            4 => app.repay("b2", 3_001 * (step % 5 + 1), Some("d")),
            _ => {
                let held = app.balance("attacker", RECEIPT);
                app.withdraw("attacker", held / 3 + 1)
            }
        };
        app.pass_days(3);
        let shares: u128 = app.borrowers.values().map(|b| b.shares).sum();
        assert_eq!(shares, app.state.debt_pool.shares().u128());
        assert!(app.balance(VAULT, "btc") >= app.liquidity());
        let receipts: u128 =
            app.balances.iter().filter(|((who, denom), _)| who != "nobody" && denom == RECEIPT).map(|(_, n)| *n).sum();
        assert_eq!(receipts, app.state.deposit_pool.shares().u128());
        let (size, shares) =
            (app.state.deposit_pool.size().u128(), app.state.deposit_pool.shares().u128());
        assert!(size * price.1 >= price.0 * shares);
        price = (size, shares);
    }
    assert!(price.0 > price.1);
}

/// Interest that was charged once in a block is not charged again.
#[test]
fn interest_is_charged_once_per_block() {
    let mut app = setup_vault();
    app.deposit("owner", 1_000_000).unwrap();
    app.set_borrower("attacker", 500_000);
    app.borrow("attacker", 500_000, None).unwrap();
    app.pass_days(90);
    let fees = app.deposit("owner", 1_000).unwrap();
    assert_eq!(fees.messages.len(), 2);
    let debt = app.state.debt_pool.size().u128();
    assert_eq!(debt, 520_034);
    let again = app.deposit("owner", 1_000).unwrap();
    assert_eq!(again.messages.len(), 1);
    assert_eq!(app.state.debt_pool.size().u128(), debt);
}

/// Without debt, time changes nothing but the clock of the ledger.
#[test]
fn time_without_debt_costs_nothing() {
    let mut app = setup_vault();
    app.deposit("owner", 1_000_000).unwrap();
    let before = app.status();
    app.pass_days(3650);
    let after = app.status();
    assert_eq!(after.deposit_pool, before.deposit_pool);
    assert_eq!(after.debt_pool, before.debt_pool);
    assert_eq!(after.last_updated, before.last_updated + 3650 * DAY);
    assert_eq!(after.debt_rate, decimal("0.1"));
    assert_eq!(after.lend_rate, decimal("0"));
}

/// A clock that runs backwards is refused, and nothing changes.
#[test]
fn the_clock_runs_forward() {
    let mut app = setup_vault();
    app.deposit("owner", 1_000_000).unwrap();
    let before = app.status();
    app.time -= DAY;
    assert_eq!(app.deposit("owner", 1_000).unwrap_err(), ContractError::Overflow);
    assert_eq!(app.query(QueryMsg::Config).unwrap_err(), ContractError::Overflow);
    app.time += DAY;
    assert_eq!(app.status(), before);
}

/// What is paid beyond the debt comes back, and the debt is gone.
#[test]
fn overpayment_is_refunded() {
    let mut app = setup_vault();
    app.deposit("owner", 1_000_000).unwrap();
    app.set_borrower("attacker", 500_000);
    app.borrow("attacker", 500_000, None).unwrap();
    app.pass_days(365);
    assert_eq!(app.borrower("attacker").current, 581_250);
    let res = app.repay("attacker", 600_000, None).unwrap();
    assert_transfer(&res, 18_750, "btc", "attacker");
    assert_event(
        &res,
        "wasm-rujira-ghost-vault/repay",
        &[("amount", "581250"), ("borrower", "attacker"), ("shares", "500000")],
    );
    assert_eq!(app.borrower("attacker").current, 0);
    assert_eq!(app.status().debt_pool.size, 0);
    assert_eq!(app.balance(VAULT, "btc"), 1_081_250);
    assert_eq!(app.liquidity(), 1_081_250);
}

/// A delegate's debt is repaid on its own, and an exact payment sends nothing back.
#[test]
fn delegates_have_books_of_their_own() {
    let mut app = setup_vault();
    app.deposit("owner", 1_000_000).unwrap();
    app.set_borrower("attacker", 500_000);
    app.borrow("attacker", 100_000, None).unwrap();
    let res = app.borrow("attacker", 50_000, Some("d1")).unwrap();
    assert_event(
        &res,
        "wasm-rujira-ghost-vault/borrow",
        &[("borrower", "attacker"), ("delegate", "d1"), ("amount", "50000"), ("shares", "50000")],
    );
    app.borrow("attacker", 75_000, Some("d2")).unwrap();
    let d1 = app.delegate("attacker", "d1");
    assert_eq!((d1.addr.as_str(), d1.shares, d1.current), ("d1", 50_000, 50_000));
    assert_eq!((d1.borrower.shares, d1.borrower.available), (225_000, 275_000));

    let res = app.repay("attacker", 60_000, Some("d1")).unwrap();
    assert_transfer(&res, 10_000, "btc", "attacker");
    assert_event(
        &res,
        "wasm-rujira-ghost-vault/repay",
        &[("borrower", "attacker"), ("delegate", "d1"), ("amount", "50000"), ("shares", "50000")],
    );
    assert_eq!(app.delegate("attacker", "d1").shares, 0);
    assert_eq!(app.delegate("attacker", "d2").shares, 75_000);
    assert_eq!(app.borrower("attacker").shares, 175_000);

    let res = app.repay("attacker", 75_000, Some("d2")).unwrap();
    assert_eq!(res.messages, vec![]);
}

/// A withdrawal or a loan that the vault cannot pay is refused, and nothing changes.
#[test]
fn the_vault_pays_no_more_than_it_holds() {
    let mut app = setup_vault();
    app.deposit("owner", 1_000).unwrap();
    app.set_borrower("attacker", 5_000);
    app.borrow("attacker", 600, None).unwrap();
    let before = app.status();
    assert_eq!(app.withdraw("owner", 401).unwrap_err(), ContractError::InsufficientLiquidity);
    assert_eq!(app.borrow("attacker", 401, None).unwrap_err(), ContractError::InsufficientLiquidity);
    assert_eq!(app.status(), before);
    assert_eq!(app.borrower("attacker").available, 400);
    app.withdraw("owner", 400).unwrap();
    assert_eq!(app.status().utilization_ratio, decimal("1"));
}

/// Only contracts that were given a limit may borrow; a new limit keeps the debt.
#[test]
fn borrowers_are_whitelisted() {
    let mut app = setup_vault();
    app.deposit("owner", 1_000).unwrap();
    assert_eq!(app.borrow("attacker", 1, None).unwrap_err(), ContractError::Unauthorized);
    assert_eq!(app.repay("attacker", 1, None).unwrap_err(), ContractError::Unauthorized);
    let unknown = app.query(QueryMsg::Borrower { borrower: app.lookup("attacker") });
    assert_eq!(unknown.unwrap_err(), ContractError::Unauthorized);

    app.set_borrower("attacker", 500);
    app.borrow("attacker", 500, None).unwrap();
    app.set_borrower("attacker", 100);
    let b = app.borrower("attacker");
    assert_eq!((b.limit, b.current, b.shares, b.available), (100, 500, 500, 0));
    assert_eq!(app.borrow("attacker", 1, None).unwrap_err(), ContractError::BorrowLimit);
    app.set_borrower("attacker", 501);
    app.borrow("attacker", 1, None).unwrap();
}

/// The borrowers are listed in their order, each as a query for it alone describes it.
#[test]
fn borrowers_are_listed() {
    let mut app = setup_vault();
    app.deposit("owner", 1_000).unwrap();
    app.set_borrower("a", 300);
    app.set_borrower("b", 200);
    app.set_borrower("c", 100);
    app.borrow("a", 100, None).unwrap();
    let list = |limit: Option<u8>, start_after: Option<&str>| {
        let stored = app.borrowers.values().map(|b| b.copy()).collect();
        match app.query(QueryMsg::Borrowers { limit, start_after: start_after.map(address), stored }) {
            Ok(QueryResponse::Borrowers(list)) => list,
            other => panic!("unexpected answer {:?}", other),
        }
    };
    let all = list(None, None);
    assert_eq!(all.len(), 3);
    assert_eq!((all[0].addr.as_str(), all[0].current, all[0].available), ("a", 100, 200));
    assert_eq!((all[1].addr.as_str(), all[1].current, all[1].available), ("b", 0, 200));
    assert_eq!(all[1].denom, "btc");
    for item in &all {
        assert_eq!(item, &app.borrower(&item.addr));
    }
    assert_eq!(list(Some(2), None), all[..2]);
    assert_eq!(list(Some(0), None), all[..0]);
    assert_eq!(list(Some(9), None), all[..]);
    assert_eq!(list(None, Some("a")), all[1..]);
    assert_eq!(list(Some(1), Some("a")), all[1..2]);

    let bad = Address { text: "?".to_string(), validated: Err("bad address".to_string()) };
    let refused = app.query(QueryMsg::Borrowers { limit: None, start_after: Some(bad), stored: vec![] });
    assert_eq!(refused.unwrap_err(), ContractError::Std("bad address".to_string()));
}

/// A borrower whose shares no pool backs cannot be valued.
#[test]
fn shares_without_a_pool_have_no_value() {
    let app = setup_vault();
    let stray = Borrower { addr: "a".to_string(), limit: 1, shares: 5, delegates: vec![] };
    let refused = app.query(QueryMsg::Borrowers { limit: None, start_after: None, stored: vec![stray] });
    assert_eq!(refused.unwrap_err(), ContractError::Overflow);
}

/// What a deposit buys is worth the deposit, or a little less.
#[test]
fn a_deposit_can_be_withdrawn_at_once() {
    let mut app = setup_vault();
    app.deposit("owner", 1_000_000).unwrap();
    app.set_borrower("owner", 500_000);
    app.borrow("owner", 500_000, None).unwrap();
    app.pass_days(90);
    app.deposit("attacker", 100_000).unwrap();
    let shares = app.balance("attacker", RECEIPT);
    assert_eq!(shares, 98_055);
    app.withdraw("attacker", shares).unwrap();
    assert_eq!(app.balance("attacker", "btc"), 9_999_999);
}

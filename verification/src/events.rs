//! The events of a vault.
use vstd::prelude::*;
use vstd::string::*;
use crate::message::{Attribute, Event, EventView};

verus! {

/// The decimal digit of a number below ten.
pub open spec fn digit(n: nat) -> char {
    (48 + n) as char
}

/// A number in decimal notation.
pub open spec fn decimal_text(n: nat) -> Seq<char>
    decreases n,
{
    if n < 10 {
        seq![digit(n)]
    } else {
        decimal_text(n / 10).push(digit(n % 10))
    }
}

/// The decimal digit of a number below ten.
fn digit_text(n: u128) -> (r: &'static str)
    requires
        n < 10,
    ensures
        r@ == seq![digit(n as nat)],
{
    proof {
        reveal_strlit("0");
        reveal_strlit("1");
        reveal_strlit("2");
        reveal_strlit("3");
        reveal_strlit("4");
        reveal_strlit("5");
        reveal_strlit("6");
        reveal_strlit("7");
        reveal_strlit("8");
        reveal_strlit("9");
    }
    let text = match n {
        0 => "0",
        1 => "1",
        2 => "2",
        3 => "3",
        4 => "4",
        5 => "5",
        6 => "6",
        7 => "7",
        8 => "8",
        _ => "9",
    };
    assert(text@ =~= seq![digit(n as nat)]);
    text
}

/// A number in decimal notation.
pub fn amount_text(n: u128) -> (r: String)
    ensures
        r@ == decimal_text(n as nat),
    decreases n,
{
    if n < 10 {
        digit_text(n).to_owned()
    } else {
        let mut text = amount_text(n / 10);
        let ghost head = text@;
        text.append(digit_text(n % 10));
        assert(text@ =~= head.push(digit((n % 10) as nat)));
        text
    }
}

/// An event that names an account, an amount of the asset and the shares it stands for.
pub open spec fn pool_event(kind: Seq<char>, role: Seq<char>, account: Seq<char>, amount: nat, shares: nat) -> EventView {
    EventView {
        kind,
        attributes: seq![
            ("amount"@, decimal_text(amount)),
            (role, account),
            ("shares"@, decimal_text(shares)),
        ],
    }
}

/// A pool event that also names the delegate that a debt is allocated to, if there is one.
pub open spec fn debt_event(kind: Seq<char>, borrower: Seq<char>, delegate: Option<Seq<char>>, amount: nat, shares: nat) -> EventView {
    let event = pool_event(kind, "borrower"@, borrower, amount, shares);
    match delegate {
        None => event,
        Some(delegate) => EventView {
            kind,
            attributes: event.attributes.push(("delegate"@, delegate)),
        },
    }
}

/// The event of a deposit.
pub open spec fn deposit_event(owner: Seq<char>, amount: nat, shares: nat) -> EventView {
    pool_event("rujira-ghost-vault/deposit"@, "owner"@, owner, amount, shares)
}

/// The event of a withdrawal.
pub open spec fn withdraw_event(owner: Seq<char>, amount: nat, shares: nat) -> EventView {
    pool_event("rujira-ghost-vault/withdraw"@, "owner"@, owner, amount, shares)
}

/// The event of a loan.
pub open spec fn borrow_event(borrower: Seq<char>, delegate: Option<Seq<char>>, amount: nat, shares: nat) -> EventView {
    debt_event("rujira-ghost-vault/borrow"@, borrower, delegate, amount, shares)
}

/// The event of a repayment.
pub open spec fn repay_event(borrower: Seq<char>, delegate: Option<Seq<char>>, amount: nat, shares: nat) -> EventView {
    debt_event("rujira-ghost-vault/repay"@, borrower, delegate, amount, shares)
}

fn attribute(key: &str, value: String) -> (r: Attribute)
    ensures
        r.key@ == key@,
        r.value == value,
{
    Attribute { key: key.to_owned(), value }
}

fn new_pool_event(kind: &str, role: &str, account: &String, amount: u128, shares: u128) -> (r: Event)
    ensures
        r@ == pool_event(kind@, role@, account@, amount as nat, shares as nat),
{
    let mut attributes: Vec<Attribute> = Vec::new();
    attributes.push(attribute("amount", amount_text(amount)));
    attributes.push(attribute(role, account.clone()));
    attributes.push(attribute("shares", amount_text(shares)));
    let event = Event { kind: kind.to_owned(), attributes };
    assert(event@.attributes =~= pool_event(kind@, role@, account@, amount as nat, shares as nat).attributes);
    event
}

fn new_debt_event(kind: &str, borrower: &String, delegate: Option<&String>, amount: u128, shares: u128) -> (r: Event)
    ensures
        r@ == debt_event(
            kind@,
            borrower@,
            match delegate {
                Some(d) => Some(d@),
                None => None,
            },
            amount as nat,
            shares as nat,
        ),
{
    let event = new_pool_event(kind, "borrower", borrower, amount, shares);
    match delegate {
        None => event,
        Some(d) => {
            let mut attributes = event.attributes;
            let ghost head = event@.attributes;
            attributes.push(attribute("delegate", d.clone()));
            let event = Event { kind: event.kind, attributes };
            assert(event@.attributes =~= head.push(("delegate"@, d@)));
            event
        },
    }
}

/// The event of a deposit.
pub fn event_deposit(owner: &String, amount: u128, shares: u128) -> (r: Event)
    ensures
        r@ == deposit_event(owner@, amount as nat, shares as nat),
{
    new_pool_event("rujira-ghost-vault/deposit", "owner", owner, amount, shares)
}

/// The event of a withdrawal.
pub fn event_withdraw(owner: &String, amount: u128, shares: u128) -> (r: Event)
    ensures
        r@ == withdraw_event(owner@, amount as nat, shares as nat),
{
    new_pool_event("rujira-ghost-vault/withdraw", "owner", owner, amount, shares)
}

/// The event of a loan.
pub fn event_borrow(borrower: &String, delegate: Option<&String>, amount: u128, shares: u128) -> (r: Event)
    ensures
        r@ == borrow_event(
            borrower@,
            match delegate {
                Some(d) => Some(d@),
                None => None,
            },
            amount as nat,
            shares as nat,
        ),
{
    new_debt_event("rujira-ghost-vault/borrow", borrower, delegate, amount, shares)
}

/// The event of a repayment.
pub fn event_repay(borrower: &String, delegate: Option<&String>, amount: u128, shares: u128) -> (r: Event)
    ensures
        r@ == repay_event(
            borrower@,
            match delegate {
                Some(d) => Some(d@),
                None => None,
            },
            amount as nat,
            shares as nat,
        ),
{
    new_debt_event("rujira-ghost-vault/repay", borrower, delegate, amount, shares)
}

} // verus!

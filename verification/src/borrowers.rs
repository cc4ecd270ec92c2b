//! The contracts that may borrow, and what each of them owes.
use vstd::prelude::*;
use crate::error::{ContractError, ErrorView};
use crate::pool;
use crate::pool::{pool_view, PoolView};
use crate::token::text;

verus! {

/// The debt shares of a borrower that are allocated to a delegate.
#[derive(Debug, PartialEq, Eq)]
pub struct Delegate {
    pub addr: String,
    pub shares: u128,
}

/// A contract that may borrow.
#[derive(Debug, PartialEq, Eq)]
pub struct Borrower {
    pub addr: String,
    /// The most that the borrower may owe after a loan.
    pub limit: u128,
    /// All debt shares of the borrower, those of its delegates among them.
    pub shares: u128,
    /// What is allocated to delegates; each delegate occurs once.
    pub delegates: Vec<Delegate>,
}

/// What a borrower owes, and may owe.
#[verifier::ext_equal]
pub struct BorrowerView {
    pub addr: Seq<char>,
    pub limit: nat,
    pub shares: nat,
    pub delegates: Map<Seq<char>, nat>,
}

/// The place of a delegate in a list.
pub open spec fn is_at(delegates: Seq<Delegate>, addr: Seq<char>, i: int) -> bool {
    0 <= i < delegates.len() && delegates[i].addr@ == addr
}

/// The shares of each delegate in a list.
pub open spec fn delegates_view(delegates: Seq<Delegate>) -> Map<Seq<char>, nat> {
    Map::new(
        |addr: Seq<char>| exists|i: int| is_at(delegates, addr, i),
        |addr: Seq<char>| delegates[choose|i: int| is_at(delegates, addr, i)].shares as nat,
    )
}

impl View for Borrower {
    type V = BorrowerView;

    open spec fn view(&self) -> BorrowerView {
        BorrowerView {
            addr: self.addr@,
            limit: self.limit as nat,
            shares: self.shares as nat,
            delegates: delegates_view(self.delegates@),
        }
    }
}

/// What a borrower that may be missing owes.
pub open spec fn borrower_view(borrower: Option<Borrower>) -> Option<BorrowerView> {
    match borrower {
        Some(b) => Some(b@),
        None => None,
    }
}

impl BorrowerView {
    /// The shares allocated to a delegate.
    pub open spec fn delegate_shares(self, delegate: Seq<char>) -> nat {
        if self.delegates.contains_key(delegate) {
            self.delegates[delegate]
        } else {
            0
        }
    }

    /// The borrower with more debt shares, if their value in the pool stays within the limit.
    pub open spec fn borrowed(self, pool: PoolView, shares: nat) -> Result<BorrowerView, ErrorView> {
        if self.shares + shares > u128::MAX {
            Err(ErrorView::Overflow)
        } else {
            match pool.try_ownership(self.shares + shares) {
                Err(error) => Err(error),
                Ok(debt) => if debt > self.limit {
                    Err(ErrorView::BorrowLimit)
                } else {
                    Ok(BorrowerView { shares: self.shares + shares, ..self })
                },
            }
        }
    }

    /// The borrower with more debt shares that are allocated to a delegate.
    pub open spec fn delegate_borrowed(self, delegate: Seq<char>, pool: PoolView, shares: nat) -> Result<BorrowerView, ErrorView> {
        match self.borrowed(pool, shares) {
            Err(error) => Err(error),
            Ok(borrower) => if self.delegate_shares(delegate) + shares > u128::MAX {
                Err(ErrorView::Overflow)
            } else {
                Ok(
                    BorrowerView {
                        delegates: self.delegates.insert(delegate, self.delegate_shares(delegate) + shares),
                        ..borrower
                    },
                )
            },
        }
    }

    /// The borrower with fewer debt shares.
    pub open spec fn repaid(self, shares: nat) -> Result<BorrowerView, ErrorView> {
        if shares > self.shares {
            Err(ErrorView::Overflow)
        } else {
            Ok(BorrowerView { shares: (self.shares - shares) as nat, ..self })
        }
    }

    /// The borrower with fewer debt shares, which were allocated to a delegate.
    pub open spec fn delegate_repaid(self, delegate: Seq<char>, shares: nat) -> Result<BorrowerView, ErrorView> {
        match self.repaid(shares) {
            Err(error) => Err(error),
            Ok(borrower) => if shares > self.delegate_shares(delegate) {
                Err(ErrorView::Overflow)
            } else {
                Ok(
                    BorrowerView {
                        delegates: self.delegates.insert(
                            delegate,
                            (self.delegate_shares(delegate) - shares) as nat,
                        ),
                        ..borrower
                    },
                )
            },
        }
    }

    /// A borrower with a new limit: it keeps its debt; one that is new has none.
    pub open spec fn with_limit(found: Option<BorrowerView>, addr: Seq<char>, limit: nat) -> BorrowerView {
        match found {
            Some(borrower) => BorrowerView { addr, limit, ..borrower },
            None => BorrowerView { addr, limit, shares: 0, delegates: Map::empty() },
        }
    }
}

/// Whether an address is in a list of borrowers.
pub open spec fn is_listed(list: Seq<Borrower>, addr: Seq<char>) -> bool {
    exists|i: int| 0 <= i < list.len() && (#[trigger] list[i]).addr@ == addr
}

/// The stored borrowers in their order, each address once, and without the address to start after.
pub open spec fn listed(stored: Seq<Borrower>, start_after: Option<Seq<char>>) -> Seq<Borrower>
    decreases stored.len(),
{
    if stored.len() == 0 {
        Seq::empty()
    } else {
        let (before, last) = (listed(stored.drop_last(), start_after), stored.last());
        if start_after == Some(last.addr@) || is_listed(before, last.addr@) {
            before
        } else {
            before.push(last)
        }
    }
}

/// As many of a list as the limit allows.
pub open spec fn cut(list: Seq<Borrower>, limit: Option<u8>) -> Seq<Borrower> {
    match limit {
        Some(n) => if n < list.len() {
            list.take(n as int)
        } else {
            list
        },
        None => list,
    }
}

/// The list has no address twice and not the one to start after, and all of it is stored. Every
/// other stored address is on it.
pub proof fn lemma_listed(stored: Seq<Borrower>, start_after: Option<Seq<char>>)
    ensures
        ({
            let list = listed(stored, start_after);
            &&& forall|i: int, j: int| 0 <= i < j < list.len() ==> list[i].addr@ != list[j].addr@
            &&& forall|i: int| 0 <= i < list.len() ==> start_after != Some((#[trigger] list[i]).addr@)
            &&& forall|i: int| 0 <= i < list.len() ==> stored.contains(#[trigger] list[i])
            &&& forall|k: int|
                0 <= k < stored.len() && start_after != Some((#[trigger] stored[k]).addr@) ==> is_listed(
                    list,
                    stored[k].addr@,
                )
        }),
    decreases stored.len(),
{
    if stored.len() > 0 {
        let (front, last) = (stored.drop_last(), stored.last());
        lemma_listed(front, start_after);
        let (before, list) = (listed(front, start_after), listed(stored, start_after));
        assert forall|i: int| 0 <= i < list.len() implies stored.contains(#[trigger] list[i]) by {
            if i < before.len() {
                assert(front.contains(before[i]));
                let k = choose|k: int| 0 <= k < front.len() && front[k] == before[i];
                assert(stored[k] == list[i]);
            } else {
                assert(stored[stored.len() - 1] == list[i]);
            }
        }
        assert forall|k: int|
            0 <= k < stored.len() && start_after != Some((#[trigger] stored[k]).addr@) implies is_listed(
            list,
            stored[k].addr@,
        ) by {
            if k < front.len() {
                assert(front[k] == stored[k]);
                let i = choose|i: int| 0 <= i < before.len() && (#[trigger] before[i]).addr@ == stored[k].addr@;
                assert(list[i].addr@ == stored[k].addr@);
            } else if !is_listed(before, last.addr@) {
                assert(list[before.len() as int].addr@ == stored[k].addr@);
            }
        }
    }
}

/// In a list where each delegate occurs once, the view gives the shares at its place.
proof fn lemma_delegate_at(delegates: Seq<Delegate>, i: int)
    requires
        0 <= i < delegates.len(),
        forall|j: int, k: int| 0 <= j < k < delegates.len() ==> delegates[j].addr@ != delegates[k].addr@,
    ensures
        delegates_view(delegates).contains_key(delegates[i].addr@),
        delegates_view(delegates)[delegates[i].addr@] == delegates[i].shares,
{
    let addr = delegates[i].addr@;
    assert(is_at(delegates, addr, i));
    let k = choose|k: int| is_at(delegates, addr, k);
    assert(is_at(delegates, addr, k));
    assert(k == i);
}

/// Two lists that have an address in the same places either both know it or both do not.
proof fn lemma_same_places(xs: Seq<Delegate>, ys: Seq<Delegate>, addr: Seq<char>)
    requires
        forall|i: int| is_at(xs, addr, i) <==> is_at(ys, addr, i),
    ensures
        delegates_view(xs).contains_key(addr) <==> delegates_view(ys).contains_key(addr),
{
    if delegates_view(xs).contains_key(addr) {
        let i = choose|i: int| is_at(xs, addr, i);
        assert(is_at(ys, addr, i));
    }
    if delegates_view(ys).contains_key(addr) {
        let i = choose|i: int| is_at(ys, addr, i);
        assert(is_at(xs, addr, i));
    }
}

impl Borrower {
    /// Each delegate occurs once.
    pub open spec fn wf(self) -> bool {
        forall|j: int, k: int|
            0 <= j < k < self.delegates@.len() ==> self.delegates@[j].addr@ != self.delegates@[k].addr@
    }

    /// Another borrower that says the same.
    pub fn copy(&self) -> (r: Borrower)
        requires
            self.wf(),
        ensures
            r@ == self@,
            r.wf(),
    {
        let mut delegates: Vec<Delegate> = Vec::new();
        for i in 0..self.delegates.len()
            invariant
                delegates@ == self.delegates@.take(i as int),
        {
            delegates.push(
                Delegate { addr: self.delegates[i].addr.clone(), shares: self.delegates[i].shares },
            );
            assert(delegates@ =~= self.delegates@.take(i + 1));
        }
        assert(delegates@ =~= self.delegates@);
        Borrower { addr: self.addr.clone(), limit: self.limit, shares: self.shares, delegates }
    }

    /// The borrower that was found at an address; only those that are known may borrow.
    pub fn load(found: Option<Borrower>) -> (r: Result<Borrower, ContractError>)
        ensures
            match r {
                Ok(borrower) => found == Some(borrower),
                Err(e) => found is None && e@ == ErrorView::Unauthorized,
            },
    {
        match found {
            Some(borrower) => Ok(borrower),
            None => Err(ContractError::Unauthorized),
        }
    }

    /// Whether an address is in a list of borrowers.
    fn lists(list: &Vec<Borrower>, addr: &String) -> (r: bool)
        ensures
            r == is_listed(list@, addr@),
    {
        for i in 0..list.len()
            invariant
                forall|j: int| 0 <= j < i ==> (#[trigger] list@[j]).addr@ != addr@,
        {
            if list[i].addr == *addr {
                return true;
            }
        }
        false
    }

    /// A page of the stored borrowers: those after an address, as many as the limit allows.
    pub fn list(stored: Vec<Borrower>, limit: Option<u8>, start_after: &Option<String>) -> (r: Vec<Borrower>)
        ensures
            r@ == cut(listed(stored@, text(*start_after)), limit),
    {
        let ghost all = stored@;
        let ghost start = text(*start_after);
        let mut list: Vec<Borrower> = Vec::new();
        for borrower in stored_borrowers: stored
            invariant
                stored_borrowers.seq() == all,
                start == text(*start_after),
                list@ == cut(listed(all.take(stored_borrowers.index()), start), limit),
        {
            let ghost done = all.take(stored_borrowers.index());
            let ghost next = all.take(stored_borrowers.index() + 1);
            let full = match limit {
                Some(n) => list.len() >= n as usize,
                None => false,
            };
            let is_start = match start_after {
                Some(addr) => borrower.addr == *addr,
                None => false,
            };
            proof {
                assert(next.drop_last() =~= done);
                assert(next.last() == borrower);
            }
            if !full {
                assert(list@ == listed(done, start));
                if !is_start && !Borrower::lists(&list, &borrower.addr) {
                    list.push(borrower);
                }
            }
            assert(list@ =~= cut(listed(next, start), limit));
        }
        assert(all.take(all.len() as int) =~= all);
        list
    }

    /// Gives the borrower that was found at an address a limit, or makes a new one with it.
    pub fn set(found: Option<Borrower>, addr: String, limit: u128) -> (r: Borrower)
        requires
            found is Some ==> found->0.wf(),
        ensures
            r@ == BorrowerView::with_limit(borrower_view(found), addr@, limit as nat),
            r.wf(),
    {
        match found {
            Some(borrower) => Borrower { addr, limit, shares: borrower.shares, delegates: borrower.delegates },
            None => {
                let r = Borrower { addr, limit, shares: 0, delegates: Vec::new() };
                assert(r@.delegates =~= Map::<Seq<char>, nat>::empty());
                r
            },
        }
    }

    /// The place of a delegate in the list.
    fn find(&self, delegate: &String) -> (r: Option<usize>)
        ensures
            match r {
                Some(i) => is_at(self.delegates@, delegate@, i as int),
                None => forall|i: int| !is_at(self.delegates@, delegate@, i),
            },
    {
        for i in 0..self.delegates.len()
            invariant
                forall|j: int| 0 <= j < i ==> !is_at(self.delegates@, delegate@, j),
        {
            if self.delegates[i].addr == *delegate {
                return Some(i);
            }
        }
        None
    }

    /// The shares allocated to a delegate.
    pub fn delegate_shares(&self, delegate: &String) -> (r: u128)
        requires
            self.wf(),
        ensures
            r == self@.delegate_shares(delegate@),
    {
        match self.find(delegate) {
            Some(i) => {
                proof {
                    lemma_delegate_at(self.delegates@, i as int);
                }
                self.delegates[i].shares
            },
            None => 0,
        }
    }

    /// Sets the shares allocated to a delegate.
    fn allocate(&mut self, delegate: String, shares: u128)
        requires
            old(self).wf(),
        ensures
            final(self).wf(),
            final(self)@ == (BorrowerView {
                delegates: old(self)@.delegates.insert(delegate@, shares as nat),
                ..old(self)@
            }),
    {
        let ghost before = self.delegates@;
        let ghost addr = delegate@;
        match self.find(&delegate) {
            Some(i) => {
                self.delegates.set(i, Delegate { addr: delegate, shares });
                proof {
                    assert forall|a: Seq<char>| delegates_view(self.delegates@).contains_key(a) <==> #[trigger] delegates_view(
                        before,
                    ).contains_key(a) by {
                        lemma_same_places(self.delegates@, before, a);
                    }
                    lemma_delegate_at(self.delegates@, i as int);
                    assert forall|a: Seq<char>| a != addr && #[trigger] delegates_view(before).contains_key(a) implies delegates_view(
                        self.delegates@,
                    )[a] == delegates_view(before)[a] by {
                        let j = choose|j: int| is_at(before, a, j);
                        lemma_delegate_at(before, j);
                        lemma_delegate_at(self.delegates@, j);
                    }
                    lemma_delegate_at(before, i as int);
                }
            },
            None => {
                self.delegates.push(Delegate { addr: delegate, shares });
                proof {
                    let n = before.len() as int;
                    assert forall|j: int, k: int| 0 <= j < k < self.delegates@.len() implies self.delegates@[j].addr@
                        != self.delegates@[k].addr@ by {
                        if k == n {
                            assert(!is_at(before, addr, j));
                        }
                    }
                    lemma_delegate_at(self.delegates@, n);
                    assert forall|a: Seq<char>| a != addr implies (#[trigger] delegates_view(self.delegates@).contains_key(a)
                        <==> delegates_view(before).contains_key(a)) by {
                        lemma_same_places(self.delegates@, before, a);
                    }
                    assert forall|a: Seq<char>| a != addr && #[trigger] delegates_view(before).contains_key(a) implies delegates_view(
                        self.delegates@,
                    )[a] == delegates_view(before)[a] by {
                        let j = choose|j: int| is_at(before, a, j);
                        lemma_delegate_at(before, j);
                        lemma_delegate_at(self.delegates@, j);
                    }
                }
            },
        }
        assert(delegates_view(self.delegates@) =~= delegates_view(before).insert(addr, shares as nat));
    }

    /// Takes over debt shares of the pool, if their value stays within the limit.
    pub fn borrow(&mut self, pool: &rujira_rs::SharePool, shares: u128) -> (r: Result<(), ContractError>)
        requires
            old(self).wf(),
        ensures
            final(self).wf(),
            match r {
                Ok(()) => old(self)@.borrowed(pool_view(*pool), shares as nat) == Ok::<_, ErrorView>(
                    final(self)@,
                ),
                Err(e) => old(self)@.borrowed(pool_view(*pool), shares as nat) == Err::<BorrowerView, _>(e@)
                    && final(self)@ == old(self)@,
            },
    {
        match self.shares.checked_add(shares) {
            None => Err(ContractError::Overflow),
            Some(sum) => match pool::ownership(pool, sum) {
                Err(e) => Err(e),
                Ok(debt) => {
                    if debt > self.limit {
                        return Err(ContractError::BorrowLimit);
                    }
                    self.shares = sum;
                    Ok(())
                },
            },
        }
    }

    /// Takes over debt shares of the pool and allocates them to a delegate.
    pub fn delegate_borrow(&mut self, delegate: String, pool: &rujira_rs::SharePool, shares: u128) -> (r: Result<(), ContractError>)
        requires
            old(self).wf(),
        ensures
            final(self).wf(),
            match r {
                Ok(()) => old(self)@.delegate_borrowed(delegate@, pool_view(*pool), shares as nat)
                    == Ok::<_, ErrorView>(final(self)@),
                Err(e) => old(self)@.delegate_borrowed(delegate@, pool_view(*pool), shares as nat)
                    == Err::<BorrowerView, _>(e@) && final(self)@ == old(self)@,
            },
    {
        let sum = self.delegate_shares(&delegate).checked_add(shares);
        let before: u128 = self.shares;
        match self.borrow(pool, shares) {
            Err(e) => Err(e),
            Ok(()) => match sum {
                None => {
                    self.shares = before;
                    Err(ContractError::Overflow)
                },
                Some(allocated) => {
                    self.allocate(delegate, allocated);
                    Ok(())
                },
            },
        }
    }

    /// Gives up debt shares that were paid off.
    pub fn repay(&mut self, shares: u128) -> (r: Result<(), ContractError>)
        requires
            old(self).wf(),
        ensures
            final(self).wf(),
            match r {
                Ok(()) => old(self)@.repaid(shares as nat) == Ok::<_, ErrorView>(final(self)@),
                Err(e) => old(self)@.repaid(shares as nat) == Err::<BorrowerView, _>(e@) && final(self)@
                    == old(self)@,
            },
    {
        match self.shares.checked_sub(shares) {
            None => Err(ContractError::Overflow),
            Some(left) => {
                self.shares = left;
                Ok(())
            },
        }
    }

    /// Gives up debt shares that were allocated to a delegate and were paid off.
    pub fn delegate_repay(&mut self, delegate: String, shares: u128) -> (r: Result<(), ContractError>)
        requires
            old(self).wf(),
        ensures
            final(self).wf(),
            match r {
                Ok(()) => old(self)@.delegate_repaid(delegate@, shares as nat) == Ok::<_, ErrorView>(
                    final(self)@,
                ),
                Err(e) => old(self)@.delegate_repaid(delegate@, shares as nat) == Err::<BorrowerView, _>(e@)
                    && final(self)@ == old(self)@,
            },
    {
        match self.delegate_shares(&delegate).checked_sub(shares) {
            None => Err(ContractError::Overflow),
            Some(allocated) => match self.repay(shares) {
                Err(e) => Err(e),
                Ok(()) => {
                    self.allocate(delegate, allocated);
                    Ok(())
                },
            },
        }
    }
}

} // verus!

//! Positions of principals: a loan and collateral per denomination.

use vstd::prelude::*;
use crate::error::ContractError;
use crate::table::{
    Table, keys_unique, find_key, lemma_find_key, lookup, assign, erase, lemma_assign, lemma_erase,
    lemma_entries_after_assign, lemma_entries_after_erase,
};

verus! {

/// What one principal owes and has put up.
#[derive(Debug, PartialEq, Eq)]
pub struct Position {
    pub loan: u128,
    pub collaterals: Table<String, u128>,
}

pub struct PositionView {
    pub loan: u128,
    pub collaterals: Seq<(Seq<char>, u128)>,
}

impl View for Position {
    type V = PositionView;

    open spec fn view(&self) -> PositionView {
        PositionView { loan: self.loan, collaterals: self.collaterals@ }
    }
}

pub open spec fn position_ok(p: PositionView) -> bool {
    keys_unique(p.collaterals)
}

pub open spec fn empty_position() -> PositionView {
    PositionView { loan: 0, collaterals: Seq::empty() }
}

pub open spec fn or_empty(p: Option<PositionView>) -> PositionView {
    match p {
        Some(p) => p,
        None => empty_position(),
    }
}

/// Recorded collateral of `denom`; zero where there is no entry.
pub open spec fn balance_of(p: PositionView, denom: Seq<char>) -> nat {
    match lookup(p.collaterals, denom) {
        Some(a) => a as nat,
        None => 0,
    }
}

/// The position after `amount` of `denom` is added to it (or to a new one).
pub open spec fn deposit_outcome(p: Option<PositionView>, denom: Seq<char>, amount: u128) -> Result<
    PositionView,
    ContractError,
> {
    let b = or_empty(p);
    let total = balance_of(b, denom) + amount;
    if total > u128::MAX {
        Err(ContractError::Overflow)
    } else {
        Ok(PositionView { loan: b.loan, collaterals: assign(b.collaterals, denom, total as u128) })
    }
}

/// The position after a withdrawal, and the amount that leaves it.
pub open spec fn withdraw_outcome(
    p: Option<PositionView>,
    denom: Seq<char>,
    amount: Option<u128>,
) -> Result<(PositionView, u128), ContractError> {
    match p {
        None => Err(ContractError::UserNotFound),
        Some(p) => match lookup(p.collaterals, denom) {
            None => Err(ContractError::CollateralNotFound),
            Some(held) => match amount {
                None => Ok((PositionView { loan: p.loan, collaterals: erase(p.collaterals, denom) }, held)),
                Some(a) => if a > held {
                    Err(ContractError::InsufficientCollateral)
                } else {
                    Ok(
                        (
                            PositionView {
                                loan: p.loan,
                                collaterals: assign(p.collaterals, denom, (held - a) as u128),
                            },
                            a,
                        ),
                    )
                },
            },
        },
    }
}

pub open spec fn increase_loan_outcome(p: Option<PositionView>, amount: u128) -> Result<
    PositionView,
    ContractError,
> {
    let b = or_empty(p);
    if b.loan + amount > u128::MAX {
        Err(ContractError::Overflow)
    } else {
        Ok(PositionView { loan: (b.loan + amount) as u128, collaterals: b.collaterals })
    }
}

/// A repayment; without an amount the whole loan is repaid.
pub open spec fn decrease_loan_outcome(p: Option<PositionView>, amount: Option<u128>) -> Result<
    PositionView,
    ContractError,
> {
    match p {
        None => Err(ContractError::UserNotFound),
        Some(p) => {
            let a = match amount {
                Some(a) => a,
                None => p.loan,
            };
            if a > p.loan {
                Err(ContractError::RepayExceedsLoan)
            } else {
                Ok(PositionView { loan: (p.loan - a) as u128, collaterals: p.collaterals })
            }
        },
    }
}

impl Clone for Position {
    fn clone(&self) -> (r: Self)
        ensures
            r@ == self@,
    {
        let mut entries: Vec<(String, u128)> = Vec::new();
        let mut i: usize = 0;
        while i < self.collaterals.entries.len()
            invariant
                i <= self.collaterals.entries.len(),
                entries@.len() == i,
                forall|j: int|
                    0 <= j < i ==> (#[trigger] entries@[j].0@, entries@[j].1)
                        == self.collaterals@[j],
            decreases self.collaterals.entries.len() - i,
        {
            let e = &self.collaterals.entries[i];
            entries.push((e.0.clone(), e.1));
            i = i + 1;
        }
        let t = Table { entries };
        assert(t@ =~= self.collaterals@);
        Position { loan: self.loan, collaterals: t }
    }
}

impl Position {
    pub fn new() -> (r: Position)
        ensures
            r@ == empty_position(),
            position_ok(r@),
    {
        Position { loan: 0, collaterals: Table::new() }
    }
}

/// All positions, one per principal.
pub struct Ledger {
    pub positions: Table<String, Position>,
}

impl View for Ledger {
    type V = Seq<(Seq<char>, PositionView)>;

    open spec fn view(&self) -> Seq<(Seq<char>, PositionView)> {
        self.positions@
    }
}

pub open spec fn ledger_ok(l: Seq<(Seq<char>, PositionView)>) -> bool {
    &&& keys_unique(l)
    &&& forall|i: int| 0 <= i < l.len() ==> position_ok(#[trigger] l[i].1)
}

pub proof fn lemma_ledger_assign(l: Seq<(Seq<char>, PositionView)>, user: Seq<char>, p: PositionView)
    requires
        ledger_ok(l),
        position_ok(p),
    ensures
        ledger_ok(assign(l, user, p)),
        lookup(l, user) matches Some(q) ==> position_ok(q),
{
    lemma_assign(l, user, p);
    lemma_entries_after_assign(l, user, p);
    crate::table::lemma_find_key(l, user);
    let t = assign(l, user, p);
    assert forall|i: int| 0 <= i < t.len() implies position_ok(#[trigger] t[i].1) by {
        assert(t[i] == (user, p) || t[i] == l[i]);
    }
}

pub proof fn lemma_ledger_erase(l: Seq<(Seq<char>, PositionView)>, user: Seq<char>)
    requires
        ledger_ok(l),
    ensures
        ledger_ok(erase(l, user)),
{
    lemma_erase(l, user);
    lemma_entries_after_erase(l, user);
    let t = erase(l, user);
    assert forall|i: int| 0 <= i < t.len() implies position_ok(#[trigger] t[i].1) by {
        assert(t[i] == l[i] || t[i] == l[i + 1]);
    }
}

/// The ledger after a principal's position is replaced by `r`'s, or unchanged on a refusal.
pub open spec fn settle(
    l: Seq<(Seq<char>, PositionView)>,
    user: Seq<char>,
    r: Result<PositionView, ContractError>,
) -> Seq<(Seq<char>, PositionView)> {
    match r {
        Ok(p) => assign(l, user, p),
        Err(_) => l,
    }
}



/// Adds each incoming collateral in turn, as a deposit would.
pub open spec fn credit_collaterals(p: PositionView, colls: Seq<(Seq<char>, u128)>) -> Result<
    PositionView,
    ContractError,
>
    decreases colls.len(),
{
    if colls.len() == 0 {
        Ok(p)
    } else {
        match credit_collaterals(p, colls.drop_last()) {
            Ok(q) => deposit_outcome(Some(q), colls.last().0, colls.last().1),
            Err(e) => Err(e),
        }
    }
}

/// The principal's position after an incoming position is added to it: its loan, then
/// each of its collaterals.
pub open spec fn credit_outcome(p: Option<PositionView>, incoming: PositionView) -> Result<
    PositionView,
    ContractError,
> {
    match increase_loan_outcome(p, incoming.loan) {
        Ok(q) => credit_collaterals(q, incoming.collaterals),
        Err(e) => Err(e),
    }
}

proof fn lemma_credit_error_stays(p: PositionView, colls: Seq<(Seq<char>, u128)>, i: int)
    requires
        0 <= i <= colls.len(),
        credit_collaterals(p, colls.take(i)) is Err,
    ensures
        credit_collaterals(p, colls) == credit_collaterals(p, colls.take(i)),
    decreases colls.len(),
{
    if colls.len() == i {
        assert(colls.take(i) =~= colls);
    } else {
        assert(colls.drop_last().take(i) =~= colls.take(i));
        lemma_credit_error_stays(p, colls.drop_last(), i);
    }
}

/// Crediting a position to a principal that has none yields that position itself.
pub proof fn lemma_credit_fresh(incoming: PositionView)
    requires
        position_ok(incoming),
    ensures
        credit_outcome(None, incoming) == Ok::<PositionView, ContractError>(incoming),
{
    let base = PositionView { loan: incoming.loan, collaterals: Seq::empty() };
    assert(increase_loan_outcome(None, incoming.loan) == Ok::<PositionView, ContractError>(base));
    lemma_credit_fresh_prefix(incoming, incoming.collaterals.len() as int);
    assert(incoming.collaterals.take(incoming.collaterals.len() as int) =~= incoming.collaterals);
}

proof fn lemma_credit_fresh_prefix(incoming: PositionView, i: int)
    requires
        position_ok(incoming),
        0 <= i <= incoming.collaterals.len(),
    ensures
        credit_collaterals(
            PositionView { loan: incoming.loan, collaterals: Seq::empty() },
            incoming.collaterals.take(i),
        ) == Ok::<PositionView, ContractError>(
            PositionView { loan: incoming.loan, collaterals: incoming.collaterals.take(i) },
        ),
    decreases i,
{
    let c = incoming.collaterals;
    let base = PositionView { loan: incoming.loan, collaterals: Seq::empty() };
    if i == 0 {
        assert(c.take(0) =~= Seq::<(Seq<char>, u128)>::empty());
    } else {
        lemma_credit_fresh_prefix(incoming, i - 1);
        assert(c.take(i).drop_last() =~= c.take(i - 1));
        let prev = c.take(i - 1);
        let k = c[i - 1].0;
        lemma_find_key(prev, k);
        assert forall|j: int| 0 <= j < prev.len() implies prev[j].0 != k by {
            assert(prev[j] == c[j]);
        }
        assert(find_key(prev, k) == -1);
        assert(prev.push(c[i - 1]) =~= c.take(i));
    }
}

/// A deposit or a withdrawal of collateral by one principal.
pub enum CollateralCall {
    Deposit { denom: Seq<char>, amount: u128 },
    Withdraw { denom: Seq<char>, requested: Option<u128> },
}

pub open spec fn call_denom(c: CollateralCall) -> Seq<char> {
    match c {
        CollateralCall::Deposit { denom, .. } => denom,
        CollateralCall::Withdraw { denom, .. } => denom,
    }
}

/// The ledger after one call, and what the call moved in (positive) or out (negative).
pub open spec fn ledger_step(l: Seq<(Seq<char>, PositionView)>, user: Seq<char>, c: CollateralCall) -> (
    Seq<(Seq<char>, PositionView)>,
    int,
) {
    match c {
        CollateralCall::Deposit { denom, amount } => match deposit_outcome(
            lookup(l, user),
            denom,
            amount,
        ) {
            Ok(p) => (assign(l, user, p), amount as int),
            Err(_) => (l, 0),
        },
        CollateralCall::Withdraw { denom, requested } => match withdraw_outcome(
            lookup(l, user),
            denom,
            requested,
        ) {
            Ok(r) => (assign(l, user, r.0), -(r.1 as int)),
            Err(_) => (l, 0),
        },
    }
}

pub open spec fn run_calls(
    l: Seq<(Seq<char>, PositionView)>,
    user: Seq<char>,
    calls: Seq<CollateralCall>,
) -> Seq<(Seq<char>, PositionView)>
    decreases calls.len(),
{
    if calls.len() == 0 {
        l
    } else {
        ledger_step(run_calls(l, user, calls.drop_last()), user, calls.last()).0
    }
}

/// Deposits minus withdrawals of `denom` over the calls, as they were carried out.
pub open spec fn net_flow(
    l: Seq<(Seq<char>, PositionView)>,
    user: Seq<char>,
    calls: Seq<CollateralCall>,
    denom: Seq<char>,
) -> int
    decreases calls.len(),
{
    if calls.len() == 0 {
        0
    } else {
        let before = run_calls(l, user, calls.drop_last());
        net_flow(l, user, calls.drop_last(), denom) + if call_denom(calls.last()) == denom {
            ledger_step(before, user, calls.last()).1
        } else {
            0
        }
    }
}

pub open spec fn collateral_of(l: Seq<(Seq<char>, PositionView)>, user: Seq<char>, denom: Seq<char>) -> nat {
    balance_of(or_empty(lookup(l, user)), denom)
}

proof fn lemma_step_flow(l: Seq<(Seq<char>, PositionView)>, user: Seq<char>, c: CollateralCall)
    requires
        ledger_ok(l),
    ensures
        ledger_ok(ledger_step(l, user, c).0),
        forall|d: Seq<char>| #[trigger]
            collateral_of(ledger_step(l, user, c).0, user, d) == collateral_of(l, user, d) + (if call_denom(
                c,
            ) == d {
                ledger_step(l, user, c).1
            } else {
                0
            }),
{
    crate::table::lemma_find_key(l, user);
    let b = or_empty(lookup(l, user));
    assert(position_ok(b));
    match c {
        CollateralCall::Deposit { denom, amount } => {
            if let Ok(p) = deposit_outcome(lookup(l, user), denom, amount) {
                lemma_assign(b.collaterals, denom, (balance_of(b, denom) + amount) as u128);
                lemma_ledger_assign(l, user, p);
                lemma_assign(l, user, p);
            }
        },
        CollateralCall::Withdraw { denom, requested } => {
            if let Ok(r) = withdraw_outcome(lookup(l, user), denom, requested) {
                let held = lookup(b.collaterals, denom).unwrap();
                lemma_erase(b.collaterals, denom);
                if let Some(a) = requested {
                    lemma_assign(b.collaterals, denom, (held - a) as u128);
                }
                lemma_ledger_assign(l, user, r.0);
                lemma_assign(l, user, r.0);
            }
        },
    }
}

/// Conservation: over any sequence of deposits and withdrawals by one principal, the recorded
/// collateral of each denomination is what it was, plus what was deposited, minus what was
/// withdrawn; a withdrawal that would take it below zero is refused and moves nothing.
pub proof fn lemma_conservation(
    l: Seq<(Seq<char>, PositionView)>,
    user: Seq<char>,
    calls: Seq<CollateralCall>,
    denom: Seq<char>,
)
    requires
        ledger_ok(l),
    ensures
        ledger_ok(run_calls(l, user, calls)),
        collateral_of(run_calls(l, user, calls), user, denom) == collateral_of(l, user, denom)
            + net_flow(l, user, calls, denom),
    decreases calls.len(),
{
    if calls.len() > 0 {
        lemma_conservation(l, user, calls.drop_last(), denom);
        lemma_step_flow(run_calls(l, user, calls.drop_last()), user, calls.last());
    }
}

impl Ledger {
    pub open spec fn wf(&self) -> bool {
        ledger_ok(self@)
    }

    pub fn new() -> (r: Ledger)
        ensures
            r@ == Seq::<(Seq<char>, PositionView)>::empty(),
            r.wf(),
    {
        Ledger { positions: Table::new() }
    }

    pub fn position(&self, user: &String) -> (r: Option<&Position>)
        ensures
            match r {
                Some(p) => lookup(self@, user@) == Some(p@),
                None => lookup(self@, user@) is None,
            },
    {
        self.positions.get(user)
    }

    /// Copy of the principal's position, or an empty one.
    fn position_or_empty(&self, user: &String) -> (r: Position)
        requires
            self.wf(),
        ensures
            r@ == or_empty(lookup(self@, user@)),
            position_ok(r@),
    {
        proof {
            crate::table::lemma_find_key(self@, user@);
        }
        match self.positions.get(user) {
            Some(p) => p.clone(),
            None => Position::new(),
        }
    }

    fn store(&mut self, user: &String, p: Position)
        requires
            old(self).wf(),
            position_ok(p@),
        ensures
            final(self).wf(),
            final(self)@ == assign(old(self)@, user@, p@),
    {
        proof {
            lemma_ledger_assign(self@, user@, p@);
        }
        self.positions.insert(user.clone(), p);
    }

    /// Adds `amount` of `denom` to the principal's collateral, opening a position if needed.
    pub fn user_deposit(&mut self, user: &String, amount: u128, denom: &String) -> (r: Result<
        (),
        ContractError,
    >)
        requires
            old(self).wf(),
        ensures
            final(self).wf(),
            r matches Err(e) ==> deposit_outcome(lookup(old(self)@, user@), denom@, amount) == Err::<
                PositionView,
                ContractError,
            >(e),
            r is Ok <==> deposit_outcome(lookup(old(self)@, user@), denom@, amount) is Ok,
            final(self)@ == settle(
                old(self)@,
                user@,
                deposit_outcome(lookup(old(self)@, user@), denom@, amount),
            ),
    {
        let mut p = self.position_or_empty(user);
        let held: u128 = match p.collaterals.get(denom) {
            Some(a) => *a,
            None => 0,
        };
        if held > u128::MAX - amount {
            return Err(ContractError::Overflow);
        }
        proof {
            lemma_assign(p.collaterals@, denom@, (held + amount) as u128);
        }
        p.collaterals.insert(denom.clone(), held + amount);
        self.store(user, p);
        Ok(())
    }

    /// Takes collateral out; without an amount the whole entry goes. Returns the amount taken.
    pub fn user_withdraw(&mut self, user: &String, amount: Option<u128>, denom: &String) -> (r: Result<
        u128,
        ContractError,
    >)
        requires
            old(self).wf(),
        ensures
            final(self).wf(),
            match r {
                Ok(w) => withdraw_outcome(lookup(old(self)@, user@), denom@, amount) matches Ok(o)
                    && o.1 == w && final(self)@ == assign(old(self)@, user@, o.0),
                Err(e) => withdraw_outcome(lookup(old(self)@, user@), denom@, amount) == Err::<
                    (PositionView, u128),
                    ContractError,
                >(e) && final(self)@ == old(self)@,
            },
    {
        proof {
            crate::table::lemma_find_key(self@, user@);
        }
        let mut p = match self.positions.get(user) {
            Some(p) => p.clone(),
            None => {
                return Err(ContractError::UserNotFound);
            },
        };
        let held: u128 = match p.collaterals.get(denom) {
            Some(a) => *a,
            None => {
                return Err(ContractError::CollateralNotFound);
            },
        };
        let taken = match amount {
            Some(a) => {
                if a > held {
                    return Err(ContractError::InsufficientCollateral);
                }
                proof {
                    lemma_assign(p.collaterals@, denom@, (held - a) as u128);
                }
                p.collaterals.insert(denom.clone(), held - a);
                a
            },
            None => {
                proof {
                    lemma_erase(p.collaterals@, denom@);
                }
                p.collaterals.remove(denom);
                held
            },
        };
        self.store(user, p);
        Ok(taken)
    }

    /// Adds to the principal's loan, opening a position if needed.
    pub fn user_increase_loan(&mut self, user: &String, amount: u128) -> (r: Result<(), ContractError>)
        requires
            old(self).wf(),
        ensures
            final(self).wf(),
            r matches Err(e) ==> increase_loan_outcome(lookup(old(self)@, user@), amount) == Err::<
                PositionView,
                ContractError,
            >(e),
            r is Ok <==> increase_loan_outcome(lookup(old(self)@, user@), amount) is Ok,
            final(self)@ == settle(old(self)@, user@, increase_loan_outcome(lookup(old(self)@, user@), amount)),
    {
        let mut p = self.position_or_empty(user);
        if p.loan > u128::MAX - amount {
            return Err(ContractError::Overflow);
        }
        p.loan = p.loan + amount;
        self.store(user, p);
        Ok(())
    }

    /// Repays part of the loan; without an amount, all of it.
    pub fn user_decrease_loan(&mut self, user: &String, amount: Option<u128>) -> (r: Result<
        (),
        ContractError,
    >)
        requires
            old(self).wf(),
        ensures
            final(self).wf(),
            r matches Err(e) ==> decrease_loan_outcome(lookup(old(self)@, user@), amount) == Err::<
                PositionView,
                ContractError,
            >(e),
            r is Ok <==> decrease_loan_outcome(lookup(old(self)@, user@), amount) is Ok,
            final(self)@ == settle(old(self)@, user@, decrease_loan_outcome(lookup(old(self)@, user@), amount)),
    {
        proof {
            crate::table::lemma_find_key(self@, user@);
        }
        let mut p = match self.positions.get(user) {
            Some(p) => p.clone(),
            None => {
                return Err(ContractError::UserNotFound);
            },
        };
        let a = match amount {
            Some(a) => a,
            None => p.loan,
        };
        if a > p.loan {
            return Err(ContractError::RepayExceedsLoan);
        }
        p.loan = p.loan - a;
        self.store(user, p);
        Ok(())
    }

    /// Adds an incoming position to the principal's, opening one if needed; all or nothing.
    pub fn credit(&mut self, user: &String, incoming: &Position) -> (r: Result<(), ContractError>)
        requires
            old(self).wf(),
        ensures
            final(self).wf(),
            r matches Err(e) ==> credit_outcome(lookup(old(self)@, user@), incoming@) == Err::<
                PositionView,
                ContractError,
            >(e),
            r is Ok <==> credit_outcome(lookup(old(self)@, user@), incoming@) is Ok,
            final(self)@ == settle(old(self)@, user@, credit_outcome(lookup(old(self)@, user@), incoming@)),
    {
        let mut p = self.position_or_empty(user);
        if p.loan > u128::MAX - incoming.loan {
            return Err(ContractError::Overflow);
        }
        p.loan = p.loan + incoming.loan;
        let ghost start = p@;
        let ghost colls = incoming.collaterals@;
        assert(colls.take(0) =~= Seq::<(Seq<char>, u128)>::empty());
        let mut i: usize = 0;
        while i < incoming.collaterals.entries.len()
            invariant
                i <= incoming.collaterals.entries.len(),
                colls == incoming.collaterals@,
                colls.len() == incoming.collaterals.entries@.len(),
                start == increase_loan_outcome(lookup(old(self)@, user@), incoming@.loan)->Ok_0,
                increase_loan_outcome(lookup(old(self)@, user@), incoming@.loan) is Ok,
                credit_collaterals(start, colls.take(i as int)) == Ok::<PositionView, ContractError>(p@),
                position_ok(p@),
                self.wf(),
                self@ == old(self)@,
            decreases incoming.collaterals.entries.len() - i,
        {
            let entry = &incoming.collaterals.entries[i];
            assert(colls[i as int] == (entry.0@, entry.1));
            assert(colls.take(i + 1).drop_last() =~= colls.take(i as int));
            assert(colls.take(i + 1).last() == colls[i as int]);
            let held: u128 = match p.collaterals.get(&entry.0) {
                Some(a) => *a,
                None => 0,
            };
            if held > u128::MAX - entry.1 {
                proof {
                    lemma_credit_error_stays(start, colls, i + 1);
                }
                return Err(ContractError::Overflow);
            }
            proof {
                lemma_assign(p.collaterals@, entry.0@, (held + entry.1) as u128);
            }
            p.collaterals.insert(entry.0.clone(), held + entry.1);
            i = i + 1;
        }
        assert(colls.take(colls.len() as int) =~= colls);
        self.store(user, p);
        Ok(())
    }

    /// Takes the principal's position out of the ledger.
    pub fn take(&mut self, user: &String) -> (r: Option<Position>)
        requires
            old(self).wf(),
        ensures
            final(self).wf(),
            final(self)@ == erase(old(self)@, user@),
            match r {
                Some(p) => lookup(old(self)@, user@) == Some(p@) && position_ok(p@),
                None => lookup(old(self)@, user@) is None,
            },
    {
        proof {
            lemma_ledger_erase(self@, user@);
            crate::table::lemma_find_key(self@, user@);
        }
        self.positions.remove(user)
    }
}

} // verus!

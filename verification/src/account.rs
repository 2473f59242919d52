//! A single client's balance state machine: available funds, held funds,
//! and a permanent lock set by a chargeback.

use vstd::prelude::*;

use crate::amount::Amount;

verus! {

/// A basic bank account: the amount available, the amount held under
/// dispute, and whether the account has been locked by a chargeback.
#[derive(Clone, Copy, Debug, PartialEq, Eq, Structural)]
pub struct Account {
    pub available: Amount,
    pub held: Amount,
    pub locked: bool,
}

/// Effect of crediting `v`: `available` grows by `v`, the rest is unchanged.
pub open spec fn spec_credit(a: Account, v: Amount) -> Account
    recommends
        a.available@ + v@ <= u64::MAX,
{
    Account { available: Amount((a.available@ + v@) as u64), ..a }
}

/// Effect of a debit: `available` shrinks by `v` when it covers `v`,
/// otherwise nothing changes.
pub open spec fn spec_debit(a: Account, v: Amount) -> Account {
    if a.available@ >= v@ {
        Account { available: Amount((a.available@ - v@) as u64), ..a }
    } else {
        a
    }
}

/// Effect of opening a dispute: `v` moves from `available` to `held` when
/// `available` covers `v`, otherwise nothing changes.
pub open spec fn spec_dispute(a: Account, v: Amount) -> Account
    recommends
        a.wf(),
{
    if a.available@ >= v@ {
        Account {
            available: Amount((a.available@ - v@) as u64),
            held: Amount((a.held@ + v@) as u64),
            ..a
        }
    } else {
        a
    }
}

/// Effect of resolving a dispute: `v` moves from `held` back to `available`
/// when `held` covers `v`, otherwise nothing changes.
pub open spec fn spec_resolve(a: Account, v: Amount) -> Account
    recommends
        a.wf(),
{
    if a.held@ >= v@ {
        Account {
            available: Amount((a.available@ + v@) as u64),
            held: Amount((a.held@ - v@) as u64),
            ..a
        }
    } else {
        a
    }
}

/// Effect of a chargeback: `v` leaves `held` and the account locks, when
/// `held` covers `v`; otherwise nothing changes.
pub open spec fn spec_chargeback(a: Account, v: Amount) -> Account {
    if a.held@ >= v@ {
        Account { held: Amount((a.held@ - v@) as u64), locked: true, ..a }
    } else {
        a
    }
}

impl Account {
    /// Well-formed: the total balance fits the scaled-integer range, so
    /// `available + held` can always be computed.
    pub open spec fn wf(self) -> bool {
        self.available@ + self.held@ <= u64::MAX
    }

    /// The total balance, `available + held`.
    pub open spec fn spec_total(self) -> int {
        self.available@ + self.held@
    }

    /// A fresh account: nothing available, nothing held, not locked.
    pub fn new() -> (r: Account)
        ensures
            r.available@ == 0,
            r.held@ == 0,
            !r.locked,
            r.wf(),
    {
        Account { available: Amount::new(), held: Amount::new(), locked: false }
    }

    pub fn available(&self) -> (r: Amount)
        ensures
            r == self.available,
    {
        self.available
    }

    pub fn held(&self) -> (r: Amount)
        ensures
            r == self.held,
    {
        self.held
    }

    pub fn total(&self) -> (r: Amount)
        requires
            self.wf(),
        ensures
            r@ == self.spec_total(),
    {
        Amount(self.held.0 + self.available.0)
    }

    pub fn is_locked(&self) -> (r: bool)
        ensures
            r == self.locked,
    {
        self.locked
    }

    /// Add `val` to the available funds. Never fails; the caller must have
    /// checked that the total stays within the representable range.
    pub fn credit(&mut self, val: Amount)
        requires
            old(self).spec_total() + val@ <= u64::MAX,
        ensures
            *final(self) == spec_credit(*old(self), val),
            final(self).wf(),
    {
        self.available = Amount(self.available.0 + val.0);
    }

    /// Take `val` from the available funds. Fails, changing nothing, exactly
    /// when the available funds do not cover `val`.
    pub fn try_debit(&mut self, val: Amount) -> (r: Result<(), ()>)
        ensures
            *final(self) == spec_debit(*old(self), val),
            r is Ok <==> old(self).available@ >= val@,
            old(self).wf() ==> final(self).wf(),
    {
        if self.available.0 >= val.0 {
            self.available = Amount(self.available.0 - val.0);
            return Ok(());
        }
        return Err(());
    }

    /// Move `val` from available to held funds. Fails, changing nothing,
    /// exactly when the available funds do not cover `val`.
    pub fn try_dispute(&mut self, val: Amount) -> (r: Result<(), ()>)
        requires
            old(self).wf(),
        ensures
            *final(self) == spec_dispute(*old(self), val),
            r is Ok <==> old(self).available@ >= val@,
            final(self).wf(),
            final(self).spec_total() == old(self).spec_total(),
    {
        if self.available.0 >= val.0 {
            self.available = Amount(self.available.0 - val.0);
            self.held = Amount(self.held.0 + val.0);
            return Ok(());
        }
        return Err(());
    }

    /// Move `val` from held funds back to available funds. Fails, changing
    /// nothing, exactly when the held funds do not cover `val`.
    pub fn try_resolve(&mut self, val: Amount) -> (r: Result<(), ()>)
        requires
            old(self).wf(),
        ensures
            *final(self) == spec_resolve(*old(self), val),
            r is Ok <==> old(self).held@ >= val@,
            final(self).wf(),
            final(self).spec_total() == old(self).spec_total(),
    {
        if self.held.0 >= val.0 {
            self.held = Amount(self.held.0 - val.0);
            self.available = Amount(self.available.0 + val.0);
            return Ok(());
        }
        return Err(());
    }

    /// Remove `val` from the held funds and lock the account for good.
    /// Fails, changing nothing, exactly when the held funds do not cover
    /// `val`.
    pub fn try_chargeback(&mut self, val: Amount) -> (r: Result<(), ()>)
        ensures
            *final(self) == spec_chargeback(*old(self), val),
            r is Ok <==> old(self).held@ >= val@,
            old(self).wf() ==> final(self).wf(),
    {
        if self.held.0 >= val.0 {
            self.held = Amount(self.held.0 - val.0);
            self.locked = true;
            return Ok(());
        }
        return Err(());
    }
}

/// The sum of a sequence of scaled amounts.
pub open spec fn sum_seq(s: Seq<u64>) -> int
    decreases s.len(),
{
    if s.len() == 0 {
        0
    } else {
        sum_seq(s.drop_last()) + s.last()
    }
}

/// The account reached by crediting the amounts of `s` in order, starting
/// from `a`.
pub open spec fn credit_all(a: Account, s: Seq<u64>) -> Account
    decreases s.len(),
{
    if s.len() == 0 {
        a
    } else {
        spec_credit(credit_all(a, s.drop_last()), Amount(s.last()))
    }
}

/// A sum of scaled amounts is never negative.
pub proof fn lemma_sum_seq_nonneg(s: Seq<u64>)
    ensures
        sum_seq(s) >= 0,
    decreases s.len(),
{
    if s.len() > 0 {
        lemma_sum_seq_nonneg(s.drop_last());
    }
}

/// Crediting a sequence of amounts grows `available` by exactly their sum
/// and touches nothing else.
pub proof fn lemma_credit_all(a: Account, s: Seq<u64>)
    requires
        a.wf(),
        a.spec_total() + sum_seq(s) <= u64::MAX,
    ensures
        credit_all(a, s).available@ == a.available@ + sum_seq(s),
        credit_all(a, s).held == a.held,
        credit_all(a, s).locked == a.locked,
        credit_all(a, s).wf(),
    decreases s.len(),
{
    if s.len() > 0 {
        lemma_sum_seq_nonneg(s.drop_last());
        lemma_credit_all(a, s.drop_last());
    }
}

/// On a fresh account, any sequence of credits leaves `available` equal to
/// the sum of the credited amounts, `held` zero and the account unlocked.
pub proof fn lemma_credits_on_fresh(fresh: Account, s: Seq<u64>)
    requires
        fresh.available@ == 0,
        fresh.held@ == 0,
        !fresh.locked,
        sum_seq(s) <= u64::MAX,
    ensures
        credit_all(fresh, s).available@ == sum_seq(s),
        credit_all(fresh, s).held@ == 0,
        !credit_all(fresh, s).locked,
{
    lemma_sum_seq_nonneg(s);
    lemma_credit_all(fresh, s);
}

/// Round-trip law: a successful dispute followed by a resolve of the same
/// amount restores the account exactly.
pub proof fn lemma_dispute_resolve_restores(a: Account, v: Amount)
    requires
        a.wf(),
        a.available@ >= v@,
    ensures
        spec_resolve(spec_dispute(a, v), v) == a,
{
}

/// A successful dispute followed by a chargeback of the same amount takes
/// `v` back out of the held funds (leaving `held` as it was before the
/// dispute), removes `v` from the pre-dispute available funds, and locks
/// the account.
pub proof fn lemma_dispute_chargeback(a: Account, v: Amount)
    requires
        a.wf(),
        a.available@ >= v@,
    ensures
        spec_chargeback(spec_dispute(a, v), v) == (Account {
            available: Amount((a.available@ - v@) as u64),
            held: a.held,
            locked: true,
        }),
        spec_dispute(a, v).held@ - v@ == a.held@,
{
}

} // verus!

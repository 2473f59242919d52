//! The ledger: every account, the deposit history that disputes refer
//! back to, and the set of disputes currently open. Each incoming record
//! is dispatched to the account transition it names; business-rule
//! failures are absorbed as no-ops.

use std::collections::HashMap;

use vstd::prelude::*;

use crate::account::spec_chargeback;
use crate::account::spec_credit;
use crate::account::spec_debit;
use crate::account::spec_dispute;
use crate::account::spec_resolve;
use crate::account::Account;
use crate::amount::Amount;
use crate::transaction::Kind;
use crate::transaction::Transaction;

verus! {

broadcast use vstd::std_specs::hash::group_hash_axioms;

/// The ledger's state: all accounts, the clients in the order their
/// accounts were created, every deposit seen so far, and the disputes
/// currently open.
#[verifier::ext_equal]
pub ghost struct BankView {
    pub accounts: Map<u16, Account>,
    pub clients: Seq<u16>,
    pub deposits: Map<u32, Transaction>,
    pub disputes: Map<u32, Transaction>,
}

/// An account with nothing available, nothing held, and no lock.
pub open spec fn fresh_account() -> Account {
    Account { available: Amount(0), held: Amount(0), locked: false }
}

impl BankView {
    /// Well-formed: the client list names exactly the accounts that exist,
    /// each once, and every account can compute its total.
    pub open spec fn wf(self) -> bool {
        &&& forall|i: int, j: int|
            0 <= i < j < self.clients.len() ==> self.clients[i] != self.clients[j]
        &&& forall|i: int|
            0 <= i < self.clients.len() ==> self.accounts.contains_key(#[trigger] self.clients[i])
        &&& forall|c: u16| #[trigger] self.accounts.contains_key(c) ==> self.clients.contains(c)
        &&& forall|c: u16| #[trigger] self.accounts.contains_key(c) ==> self.accounts[c].wf()
    }
}

/// Effect of a deposit: credit the client's account, creating it first if
/// need be, and remember the record so the deposit can later be disputed.
/// A record with no amount, or one whose credit would overflow the scaled
/// range, is dropped whole.
pub open spec fn deposit_step(b: BankView, t: Transaction) -> BankView {
    match t.amount {
        Option::None => b,
        Option::Some(v) => {
            if !b.accounts.contains_key(t.client) {
                BankView {
                    accounts: b.accounts.insert(t.client, spec_credit(fresh_account(), v)),
                    clients: b.clients.push(t.client),
                    deposits: b.deposits.insert(t.tx, t),
                    ..b
                }
            } else if b.accounts[t.client].spec_total() + v@ <= u64::MAX {
                BankView {
                    accounts: b.accounts.insert(t.client, spec_credit(b.accounts[t.client], v)),
                    deposits: b.deposits.insert(t.tx, t),
                    ..b
                }
            } else {
                b
            }
        },
    }
}

/// Effect of a withdrawal: debit the client's account; a missing account,
/// a missing amount, or insufficient available funds leaves everything
/// unchanged.
pub open spec fn withdrawal_step(b: BankView, t: Transaction) -> BankView {
    match t.amount {
        Option::None => b,
        Option::Some(v) => {
            if b.accounts.contains_key(t.client) {
                BankView {
                    accounts: b.accounts.insert(t.client, spec_debit(b.accounts[t.client], v)),
                    ..b
                }
            } else {
                b
            }
        },
    }
}

/// Effect of a dispute: find the referenced deposit, hold its amount on
/// the account of the deposit's own client, and open a dispute entry. An
/// unknown transaction id, a missing account, a deposit without an amount,
/// or insufficient available funds leaves everything unchanged.
pub open spec fn dispute_step(b: BankView, t: Transaction) -> BankView {
    if b.deposits.contains_key(t.tx) {
        let orig = b.deposits[t.tx];
        if b.accounts.contains_key(orig.client) {
            match orig.amount {
                Option::Some(v) => {
                    if b.accounts[orig.client].available@ >= v@ {
                        BankView {
                            accounts: b.accounts.insert(
                                orig.client,
                                spec_dispute(b.accounts[orig.client], v),
                            ),
                            disputes: b.disputes.insert(t.tx, orig),
                            ..b
                        }
                    } else {
                        b
                    }
                },
                Option::None => b,
            }
        } else {
            b
        }
    } else {
        b
    }
}

/// Effect of a resolve: close the referenced dispute, if one is open, and
/// release its amount back to the client's available funds; failures after
/// the removal are absorbed.
pub open spec fn resolve_step(b: BankView, t: Transaction) -> BankView {
    if b.disputes.contains_key(t.tx) {
        let d = b.disputes[t.tx];
        let closed = BankView { disputes: b.disputes.remove(t.tx), ..b };
        if b.accounts.contains_key(d.client) {
            match d.amount {
                Option::Some(v) => BankView {
                    accounts: b.accounts.insert(d.client, spec_resolve(b.accounts[d.client], v)),
                    ..closed
                },
                Option::None => closed,
            }
        } else {
            closed
        }
    } else {
        b
    }
}

/// Effect of a chargeback: close the referenced dispute, if one is open,
/// withdraw its held amount and lock the account; failures after the
/// removal are absorbed.
pub open spec fn chargeback_step(b: BankView, t: Transaction) -> BankView {
    if b.disputes.contains_key(t.tx) {
        let d = b.disputes[t.tx];
        let closed = BankView { disputes: b.disputes.remove(t.tx), ..b };
        if b.accounts.contains_key(d.client) {
            match d.amount {
                Option::Some(v) => BankView {
                    accounts: b.accounts.insert(d.client, spec_chargeback(b.accounts[d.client], v)),
                    ..closed
                },
                Option::None => closed,
            }
        } else {
            closed
        }
    } else {
        b
    }
}

/// Effect of one record on the ledger, by its kind.
pub open spec fn bank_step(b: BankView, t: Transaction) -> BankView {
    match t.kind {
        Kind::Deposit => deposit_step(b, t),
        Kind::Withdrawal => withdrawal_step(b, t),
        Kind::Dispute => dispute_step(b, t),
        Kind::Resolve => resolve_step(b, t),
        Kind::Chargeback => chargeback_step(b, t),
    }
}

/// The ledger. Holds the current state of every account, the history of
/// deposits that might later be disputed, and the disputes now open.
pub struct Bank {
    pub accounts: HashMap<u16, Account>,
    pub clients: Vec<u16>,
    pub transactions: HashMap<u32, Transaction>,
    pub disputes: HashMap<u32, Transaction>,
}

impl View for Bank {
    type V = BankView;

    open spec fn view(&self) -> BankView {
        BankView {
            accounts: self.accounts@,
            clients: self.clients@,
            deposits: self.transactions@,
            disputes: self.disputes@,
        }
    }
}

impl Bank {
    /// An empty ledger: no accounts, no history, no open disputes.
    pub fn new() -> (r: Bank)
        ensures
            r@.wf(),
            r@.accounts == Map::<u16, Account>::empty(),
            r@.clients == Seq::<u16>::empty(),
            r@.deposits == Map::<u32, Transaction>::empty(),
            r@.disputes == Map::<u32, Transaction>::empty(),
    {
        let r = Bank {
            accounts: HashMap::new(),
            clients: Vec::new(),
            transactions: HashMap::new(),
            disputes: HashMap::new(),
        };
        r
    }

    /// Consume one record, in arrival order, applying exactly the
    /// transition its kind calls for.
    pub fn process_transaction(&mut self, transaction: Transaction)
        requires
            old(self)@.wf(),
        ensures
            final(self)@.wf(),
            final(self)@ == bank_step(old(self)@, transaction),
    {
        match transaction.kind {
            Kind::Deposit => self.process_deposit(transaction),
            Kind::Withdrawal => self.process_withdrawal(transaction),
            Kind::Dispute => self.process_dispute(transaction),
            Kind::Resolve => self.process_resolve(transaction),
            Kind::Chargeback => self.process_chargeback(transaction),
        }
    }

    fn process_deposit(&mut self, t: Transaction)
        requires
            old(self)@.wf(),
        ensures
            final(self)@.wf(),
            final(self)@ == deposit_step(old(self)@, t),
    {
        let amount = match t.amount {
            Some(a) => a,
            None => {
                return;
            },
        };
        let existing: Option<Account> = match self.accounts.get(&t.client) {
            Some(a) => Some(*a),
            None => None,
        };
        match existing {
            None => {
                let mut acct = Account::new();
                acct.credit(amount);
                proof {
                    if self@.clients.contains(t.client) {
                        let i = choose|i: int|
                            0 <= i < self@.clients.len() && self@.clients[i] == t.client;
                        assert(self@.accounts.contains_key(self@.clients[i]));
                        assert(false);
                    }
                }
                self.accounts.insert(t.client, acct);
                self.clients.push(t.client);
                self.transactions.insert(t.tx, t);
                proof {
                    assert forall|c: u16| #[trigger] self@.accounts.contains_key(c)
                        implies self@.clients.contains(c) by {
                        if c == t.client {
                            assert(self@.clients[self@.clients.len() - 1] == c);
                        } else {
                            assert(old(self)@.accounts.contains_key(c));
                            assert(old(self)@.clients.contains(c));
                            let i = choose|i: int|
                                0 <= i < old(self)@.clients.len() && old(self)@.clients[i] == c;
                            assert(self@.clients == old(self)@.clients.push(t.client));
                            assert(self@.clients[i] == c);
                        }
                    }
                    assert(final(self)@ =~= deposit_step(old(self)@, t));
                }
            },
            Some(acct0) => {
                proof {
                    assert(old(self)@.accounts[t.client].wf());
                }
                let mut acct = acct0;
                if amount.0 <= u64::MAX - (acct.available.0 + acct.held.0) {
                    acct.credit(amount);
                    self.accounts.insert(t.client, acct);
                    self.transactions.insert(t.tx, t);
                    proof {
                        assert forall|c: u16| #[trigger] self@.accounts.contains_key(c)
                            implies self@.clients.contains(c) by {
                            assert(old(self)@.accounts.contains_key(c));
                        }
                        assert(final(self)@ =~= deposit_step(old(self)@, t));
                    }
                }
            },
        }
    }

    fn process_withdrawal(&mut self, t: Transaction)
        requires
            old(self)@.wf(),
        ensures
            final(self)@.wf(),
            final(self)@ == withdrawal_step(old(self)@, t),
    {
        let amount = match t.amount {
            Some(a) => a,
            None => {
                return;
            },
        };
        let existing: Option<Account> = match self.accounts.get(&t.client) {
            Some(a) => Some(*a),
            None => None,
        };
        match existing {
            None => {},
            Some(acct0) => {
                let mut acct = acct0;
                let _ = acct.try_debit(amount);
                self.accounts.insert(t.client, acct);
                proof {
                    assert forall|c: u16| #[trigger] self@.accounts.contains_key(c)
                        implies self@.clients.contains(c) by {
                        assert(old(self)@.accounts.contains_key(c));
                    }
                    assert(final(self)@ =~= withdrawal_step(old(self)@, t));
                }
            },
        }
    }

    fn process_dispute(&mut self, t: Transaction)
        requires
            old(self)@.wf(),
        ensures
            final(self)@.wf(),
            final(self)@ == dispute_step(old(self)@, t),
    {
        let found = self.transactions.get(&t.tx);
        let orig: Transaction = match found {
            Some(tr) => *tr,
            None => {
                return;
            },
        };
        let existing: Option<Account> = match self.accounts.get(&orig.client) {
            Some(a) => Some(*a),
            None => None,
        };
        match existing {
            None => {},
            Some(acct0) => {
                let v = match orig.amount {
                    Some(v) => v,
                    None => {
                        return;
                    },
                };
                proof {
                    assert(old(self)@.accounts[orig.client].wf());
                }
                let mut acct = acct0;
                match acct.try_dispute(v) {
                    Ok(_) => {
                        self.accounts.insert(orig.client, acct);
                        self.disputes.insert(t.tx, orig);
                        proof {
                            assert forall|c: u16| #[trigger] self@.accounts.contains_key(c)
                                implies self@.clients.contains(c) by {
                                assert(old(self)@.accounts.contains_key(c));
                            }
                            assert(final(self)@ =~= dispute_step(old(self)@, t));
                        }
                    },
                    Err(_) => {},
                }
            },
        }
    }

    fn process_resolve(&mut self, t: Transaction)
        requires
            old(self)@.wf(),
        ensures
            final(self)@.wf(),
            final(self)@ == resolve_step(old(self)@, t),
    {
        let removed = self.disputes.remove(&t.tx);
        let d: Transaction = match removed {
            Some(d) => d,
            None => {
                proof {
                    assert(self@.disputes =~= old(self)@.disputes);
                    assert(self@ =~= resolve_step(old(self)@, t));
                }
                return;
            },
        };
        let existing: Option<Account> = match self.accounts.get(&d.client) {
            Some(a) => Some(*a),
            None => None,
        };
        match existing {
            None => {
                proof {
                    assert(final(self)@ =~= resolve_step(old(self)@, t));
                }
            },
            Some(acct0) => {
                let v = match d.amount {
                    Some(v) => v,
                    None => {
                        proof {
                            assert(final(self)@ =~= resolve_step(old(self)@, t));
                        }
                        return;
                    },
                };
                proof {
                    assert(old(self)@.accounts[d.client].wf());
                }
                let mut acct = acct0;
                let _ = acct.try_resolve(v);
                self.accounts.insert(d.client, acct);
                proof {
                    assert forall|c: u16| #[trigger] self@.accounts.contains_key(c)
                        implies self@.clients.contains(c) by {
                        assert(old(self)@.accounts.contains_key(c));
                    }
                    assert(final(self)@ =~= resolve_step(old(self)@, t));
                }
            },
        }
    }

    fn process_chargeback(&mut self, t: Transaction)
        requires
            old(self)@.wf(),
        ensures
            final(self)@.wf(),
            final(self)@ == chargeback_step(old(self)@, t),
    {
        let removed = self.disputes.remove(&t.tx);
        let d: Transaction = match removed {
            Some(d) => d,
            None => {
                proof {
                    assert(self@.disputes =~= old(self)@.disputes);
                    assert(self@ =~= chargeback_step(old(self)@, t));
                }
                return;
            },
        };
        let existing: Option<Account> = match self.accounts.get(&d.client) {
            Some(a) => Some(*a),
            None => None,
        };
        match existing {
            None => {
                proof {
                    assert(final(self)@ =~= chargeback_step(old(self)@, t));
                }
            },
            Some(acct0) => {
                let v = match d.amount {
                    Some(v) => v,
                    None => {
                        proof {
                            assert(final(self)@ =~= chargeback_step(old(self)@, t));
                        }
                        return;
                    },
                };
                let mut acct = acct0;
                let _ = acct.try_chargeback(v);
                proof {
                    assert(old(self)@.accounts[d.client].wf());
                }
                self.accounts.insert(d.client, acct);
                proof {
                    assert forall|c: u16| #[trigger] self@.accounts.contains_key(c)
                        implies self@.clients.contains(c) by {
                        assert(old(self)@.accounts.contains_key(c));
                    }
                    assert(final(self)@ =~= chargeback_step(old(self)@, t));
                }
            },
        }
    }

    /// The state of every account ever created, in creation order: client
    /// id, available, held, total, and whether the account is locked.
    pub fn snapshot(&self) -> (r: Vec<(u16, Amount, Amount, Amount, bool)>)
        requires
            self@.wf(),
        ensures
            r@.len() == self@.clients.len(),
            forall|i: int|
                0 <= i < r@.len() ==> {
                    let c = self@.clients[i];
                    &&& (#[trigger] r@[i]).0 == c
                    &&& self@.accounts.contains_key(c)
                    &&& r@[i].1 == self@.accounts[c].available
                    &&& r@[i].2 == self@.accounts[c].held
                    &&& r@[i].3@ == self@.accounts[c].spec_total()
                    &&& r@[i].4 == self@.accounts[c].locked
                },
    {
        let mut out: Vec<(u16, Amount, Amount, Amount, bool)> = Vec::new();
        let mut i: usize = 0;
        while i < self.clients.len()
            invariant
                self@.wf(),
                0 <= i <= self@.clients.len(),
                out@.len() == i,
                forall|j: int|
                    0 <= j < i ==> {
                        let c = self@.clients[j];
                        &&& (#[trigger] out@[j]).0 == c
                        &&& self@.accounts.contains_key(c)
                        &&& out@[j].1 == self@.accounts[c].available
                        &&& out@[j].2 == self@.accounts[c].held
                        &&& out@[j].3@ == self@.accounts[c].spec_total()
                        &&& out@[j].4 == self@.accounts[c].locked
                    },
            decreases self@.clients.len() - i,
        {
            let c = self.clients[i];
            let acct: Account = match self.accounts.get(&c) {
                Some(a) => *a,
                None => {
                    proof {
                        assert(self@.accounts.contains_key(self@.clients[i as int]));
                    }
                    vstd::pervasive::unreached()
                },
            };
            proof {
                assert(self@.accounts[c].wf());
            }
            out.push((c, acct.available, acct.held, acct.total(), acct.locked));
            i = i + 1;
        }
        out
    }
}

/// A dispute that refers to a transaction id with no recorded deposit
/// changes nothing: no account is created or touched, no dispute opens.
pub proof fn lemma_unknown_dispute_no_op(b: BankView, t: Transaction)
    requires
        t.kind == Kind::Dispute,
        !b.deposits.contains_key(t.tx),
    ensures
        bank_step(b, t) == b,
{
}

/// A resolve or chargeback consumes its dispute record: afterwards no
/// dispute with that transaction id is open, so a following resolve or
/// chargeback naming the same id changes nothing.
pub proof fn lemma_settlement_is_terminal(b: BankView, t: Transaction, t2: Transaction)
    requires
        t.kind == Kind::Resolve || t.kind == Kind::Chargeback,
        t2.kind == Kind::Resolve || t2.kind == Kind::Chargeback,
        t2.tx == t.tx,
    ensures
        !bank_step(b, t).disputes.contains_key(t.tx),
        bank_step(bank_step(b, t), t2) == bank_step(b, t),
{
}

} // verus!

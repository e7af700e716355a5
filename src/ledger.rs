//! The ledger engine: a store of deposits under their lifecycle, a store of
//! client accounts, and the rules that apply one transaction record to both.

use crate::amount::Amount;
use crate::transaction::{legal_transition, LedgerError, Transaction, TransactionType};
use std::collections::HashMap;
use vstd::prelude::*;

verus! {

broadcast use vstd::std_specs::hash::group_hash_axioms;

/// The balances of one client.
#[derive(Clone, Copy, Debug)]
pub struct AccountStatus {
    pub available: Amount,
    pub held: Amount,
    pub total: Amount,
    pub locked: bool,
}

/// A stored deposit: its owner, its amount and its lifecycle state.
#[derive(Clone, Copy, Debug)]
pub struct TransactionInformation {
    pub client: u16,
    pub amount: Amount,
    pub state: TransactionType,
}

/// The total balance is the sum of the available and held balances.
pub open spec fn balanced(a: AccountStatus) -> bool {
    a.total.units() == a.available.units() + a.held.units()
}

/// The three balances of the account are valid amounts.
pub open spec fn account_valid(a: AccountStatus) -> bool {
    a.available.valid() && a.held.valid() && a.total.valid()
}

/// `n` is `o` with `da` added to the available balance, `dh` to the held
/// balance and both to the total, and with lock flag `locked`.
pub open spec fn moved(o: AccountStatus, n: AccountStatus, da: int, dh: int, locked: bool) -> bool {
    &&& n.available.units() == o.available.units() + da
    &&& n.held.units() == o.held.units() + dh
    &&& n.total.units() == o.total.units() + da + dh
    &&& n.locked == locked
}

/// `n` holds the accounts of `o`, with the one of `c` added or replaced.
pub open spec fn only_account_changed(
    o: Map<u16, AccountStatus>,
    n: Map<u16, AccountStatus>,
    c: u16,
) -> bool {
    &&& n.dom() == o.dom().insert(c)
    &&& forall|k: u16| k != c && #[trigger] o.contains_key(k) ==> n[k] == o[k]
}

/// Whether a dispute action moves funds for a deposit of `amt`: a dispute
/// needs `amt` available, a resolve or a charge-back needs `amt` held.
pub open spec fn funds_move(kind: TransactionType, acct: AccountStatus, amt: Amount) -> bool {
    if kind == TransactionType::Dispute {
        acct.available.units() >= amt.units()
    } else {
        acct.held.units() >= amt.units()
    }
}

/// Whether the balances that a dispute action changes stay representable.
pub open spec fn dispute_fits(kind: TransactionType, acct: AccountStatus, amt: Amount) -> bool {
    if kind == TransactionType::Dispute {
        Amount::sub_fits(acct.available, amt) && Amount::add_fits(acct.held, amt)
    } else if kind == TransactionType::Resolve {
        Amount::sub_fits(acct.held, amt) && Amount::add_fits(acct.available, amt)
    } else {
        Amount::sub_fits(acct.held, amt) && Amount::sub_fits(acct.total, amt)
    }
}

pub open spec fn is_dispute_action(kind: TransactionType) -> bool {
    kind == TransactionType::Dispute || kind == TransactionType::Resolve || kind
        == TransactionType::ChargeBack
}

/// Replacing one balanced, valid account keeps all accounts balanced and
/// valid.
proof fn lemma_account_replaced(o: Map<u16, AccountStatus>, n: Map<u16, AccountStatus>, c: u16)
    requires
        forall|k: u16| #[trigger] o.contains_key(k) ==> balanced(o[k]) && account_valid(o[k]),
        n == o.insert(c, n[c]),
        balanced(n[c]),
        account_valid(n[c]),
    ensures
        forall|k: u16| #[trigger] n.contains_key(k) ==> balanced(n[k]) && account_valid(n[k]),
{
    assert forall|k: u16| #[trigger] n.contains_key(k) implies balanced(n[k]) && account_valid(
        n[k],
    ) by {
        if k != c {
            assert(o.contains_key(k));
        }
    }
}

/// Owns the transaction store (deposits by identifier) and the account
/// store (balances by client).
pub struct Ledger {
    transactions: HashMap<u32, TransactionInformation>,
    client_accounts: HashMap<u16, AccountStatus>,
}

impl Ledger {
    pub closed spec fn txs(&self) -> Map<u32, TransactionInformation> {
        self.transactions@
    }

    pub closed spec fn accounts(&self) -> Map<u16, AccountStatus> {
        self.client_accounts@
    }

    /// Every stored amount and every balance is a valid amount.
    pub open spec fn amounts_valid(&self) -> bool {
        &&& forall|c: u16| #[trigger]
            self.accounts().contains_key(c) ==> account_valid(self.accounts()[c])
        &&& forall|id: u32| #[trigger] self.txs().contains_key(id) ==> self.txs()[id].amount.valid()
    }

    /// Every account is balanced, and every amount is valid.
    pub open spec fn wf(&self) -> bool {
        &&& forall|c: u16| #[trigger]
            self.accounts().contains_key(c) ==> balanced(self.accounts()[c])
        &&& self.amounts_valid()
    }

    /// The error with which `t` is rejected in this state, if any.
    pub open spec fn rejection(&self, t: Transaction) -> Option<LedgerError> {
        let c = t.client;
        let accts = self.accounts();
        let txs = self.txs();
        let locked = accts.contains_key(c) && accts[c].locked;
        match t.transaction_type {
            TransactionType::Deposit => match t.amount {
                None => Some(LedgerError::MissingAmount),
                Some(a) => if locked {
                    Some(LedgerError::AccountLocked(c))
                } else if txs.contains_key(t.tx) {
                    Some(LedgerError::DuplicateTransaction(t.tx))
                } else if accts.contains_key(c) && !(Amount::add_fits(accts[c].available, a)
                    && Amount::add_fits(accts[c].total, a)) {
                    Some(LedgerError::AmountOverflow(c))
                } else {
                    None
                },
            },
            TransactionType::Withdrawal => match t.amount {
                None => Some(LedgerError::MissingAmount),
                Some(a) => if txs.contains_key(t.tx) {
                    Some(LedgerError::DuplicateTransaction(t.tx))
                } else if !accts.contains_key(c) {
                    None
                } else if locked {
                    Some(LedgerError::AccountLocked(c))
                } else if accts[c].available.units() < a.units() {
                    Some(LedgerError::InsufficientFunds(c, a, accts[c].available))
                } else if !(Amount::sub_fits(accts[c].available, a) && Amount::sub_fits(
                    accts[c].total,
                    a,
                )) {
                    Some(LedgerError::AmountOverflow(c))
                } else {
                    None
                },
            },
            _ => if locked {
                Some(LedgerError::AccountLocked(c))
            } else if !txs.contains_key(t.tx) {
                Some(LedgerError::UnknownTransaction(t.tx))
            } else if txs[t.tx].client != c {
                Some(LedgerError::ClientMismatch(t.tx, txs[t.tx].client, c))
            } else if !legal_transition(t.transaction_type, txs[t.tx].state) {
                Some(LedgerError::InvalidTransition(txs[t.tx].state, t.transaction_type))
            } else if t.transaction_type != TransactionType::ChargeBack && accts.contains_key(c)
                && funds_move(t.transaction_type, accts[c], txs[t.tx].amount) && !dispute_fits(
                t.transaction_type,
                accts[c],
                txs[t.tx].amount,
            ) {
                Some(LedgerError::AmountOverflow(c))
            } else {
                None
            },
        }
    }

    /// `n` is this state with `t` applied, for a `t` that is not rejected.
    pub open spec fn applied(&self, n: Ledger, t: Transaction) -> bool {
        let c = t.client;
        let o_acc = self.accounts();
        let n_acc = n.accounts();
        match t.transaction_type {
            TransactionType::Deposit => {
                let a = t.amount->Some_0;
                &&& n.txs() == self.txs().insert(
                    t.tx,
                    TransactionInformation { client: c, amount: a, state: TransactionType::Deposit },
                )
                &&& only_account_changed(o_acc, n_acc, c)
                &&& if o_acc.contains_key(c) {
                    moved(o_acc[c], n_acc[c], a.units(), 0, false)
                } else {
                    &&& n_acc[c].available == a
                    &&& n_acc[c].total == a
                    &&& n_acc[c].held.spec_mantissa() == 0
                    &&& n_acc[c].held.spec_scale() == 0
                    &&& !n_acc[c].locked
                }
            },
            TransactionType::Withdrawal => {
                let a = t.amount->Some_0;
                &&& n.txs() == self.txs()
                &&& if o_acc.contains_key(c) {
                    only_account_changed(o_acc, n_acc, c) && moved(
                        o_acc[c],
                        n_acc[c],
                        -a.units(),
                        0,
                        false,
                    )
                } else {
                    n_acc == o_acc
                }
            },
            _ => {
                let info = self.txs()[t.tx];
                let amt = info.amount.units();
                &&& if t.transaction_type == TransactionType::ChargeBack {
                    n.txs() == self.txs().remove(t.tx)
                } else {
                    n.txs() == self.txs().insert(
                        t.tx,
                        TransactionInformation { state: t.transaction_type, ..info },
                    )
                }
                &&& if !o_acc.contains_key(c) {
                    n_acc == o_acc
                } else if t.transaction_type == TransactionType::ChargeBack {
                    &&& only_account_changed(o_acc, n_acc, c)
                    &&& if funds_move(t.transaction_type, o_acc[c], info.amount) && dispute_fits(
                        t.transaction_type,
                        o_acc[c],
                        info.amount,
                    ) {
                        moved(o_acc[c], n_acc[c], 0, -amt, true)
                    } else {
                        n_acc[c] == (AccountStatus { locked: true, ..o_acc[c] })
                    }
                } else if !funds_move(t.transaction_type, o_acc[c], info.amount) {
                    n_acc == o_acc
                } else if t.transaction_type == TransactionType::Dispute {
                    only_account_changed(o_acc, n_acc, c) && moved(
                        o_acc[c],
                        n_acc[c],
                        -amt,
                        amt,
                        o_acc[c].locked,
                    )
                } else {
                    only_account_changed(o_acc, n_acc, c) && moved(
                        o_acc[c],
                        n_acc[c],
                        amt,
                        -amt,
                        o_acc[c].locked,
                    )
                }
            },
        }
    }

    /// Applying `t` to `o` gave result `r` and state `n`: a rejected record
    /// changes nothing.
    pub open spec fn step(o: Ledger, t: Transaction, r: Result<(), LedgerError>, n: Ledger) -> bool {
        match o.rejection(t) {
            Some(e) => r == Err::<(), LedgerError>(e) && n == o,
            None => r is Ok && o.applied(n, t) && n.amounts_valid(),
        }
    }

    /// Fails with `AccountLocked` when the client has a locked account.
    pub fn check_account_is_locked(&self, client_id: u16) -> (r: Result<(), LedgerError>)
        ensures
            r is Err <==> (self.accounts().contains_key(client_id)
                && self.accounts()[client_id].locked),
            r is Err ==> r == Err::<(), LedgerError>(LedgerError::AccountLocked(client_id)),
    {
        match self.client_accounts.get(&client_id) {
            Some(account) => if account.locked {
                Err(LedgerError::AccountLocked(client_id))
            } else {
                Ok(())
            },
            None => Ok(()),
        }
    }

    /// Stores a new deposit under `tx_id`, unless the identifier is taken.
    pub fn store_new_transaction(&mut self, tx_id: u32, amount: Amount, client_id: u16) -> (r:
        Result<(), LedgerError>)
        ensures
            r is Err <==> old(self).txs().contains_key(tx_id),
            r is Err ==> r == Err::<(), LedgerError>(LedgerError::DuplicateTransaction(tx_id))
                && *final(self) == *old(self),
            r is Ok ==> final(self).txs() == old(self).txs().insert(
                tx_id,
                TransactionInformation {
                    client: client_id,
                    amount,
                    state: TransactionType::Deposit,
                },
            ),
            final(self).accounts() == old(self).accounts(),
    {
        if self.transactions.contains_key(&tx_id) {
            return Err(LedgerError::DuplicateTransaction(tx_id));
        }
        self.transactions.insert(
            tx_id,
            TransactionInformation { client: client_id, amount, state: TransactionType::Deposit },
        );
        Ok(())
    }

    /// Checks that deposit `tx_id` exists, belongs to `client_id` and may
    /// move to `new_state`; returns it in its new state.
    fn validate_transition(&self, tx_id: u32, client_id: u16, new_state: TransactionType) -> (r:
        Result<TransactionInformation, LedgerError>)
        ensures
            ({
                let txs = self.txs();
                if !txs.contains_key(tx_id) {
                    r == Err::<TransactionInformation, LedgerError>(
                        LedgerError::UnknownTransaction(tx_id),
                    )
                } else if txs[tx_id].client != client_id {
                    r == Err::<TransactionInformation, LedgerError>(
                        LedgerError::ClientMismatch(tx_id, txs[tx_id].client, client_id),
                    )
                } else if !legal_transition(new_state, txs[tx_id].state) {
                    r == Err::<TransactionInformation, LedgerError>(
                        LedgerError::InvalidTransition(txs[tx_id].state, new_state),
                    )
                } else {
                    r == Ok::<TransactionInformation, LedgerError>(
                        TransactionInformation { state: new_state, ..txs[tx_id] },
                    )
                }
            }),
    {
        let tx = match self.transactions.get(&tx_id) {
            Some(tx) => *tx,
            None => return Err(LedgerError::UnknownTransaction(tx_id)),
        };
        if tx.client != client_id {
            return Err(LedgerError::ClientMismatch(tx_id, tx.client, client_id));
        }
        match new_state.check_state_transition(&tx.state) {
            Ok(()) => {},
            Err(e) => return Err(e),
        }
        Ok(TransactionInformation { state: new_state, ..tx })
    }

    /// Moves deposit `tx_id` of `client_id` to `new_state` when that is a
    /// legal lifecycle move; returns the deposit in its new state.
    pub fn handle_transaction_transition(
        &mut self,
        tx_id: u32,
        client_id: u16,
        new_state: TransactionType,
    ) -> (r: Result<TransactionInformation, LedgerError>)
        ensures
            ({
                let txs = old(self).txs();
                if !txs.contains_key(tx_id) {
                    r == Err::<TransactionInformation, LedgerError>(
                        LedgerError::UnknownTransaction(tx_id),
                    )
                } else if txs[tx_id].client != client_id {
                    r == Err::<TransactionInformation, LedgerError>(
                        LedgerError::ClientMismatch(tx_id, txs[tx_id].client, client_id),
                    )
                } else if !legal_transition(new_state, txs[tx_id].state) {
                    r == Err::<TransactionInformation, LedgerError>(
                        LedgerError::InvalidTransition(txs[tx_id].state, new_state),
                    )
                } else {
                    r == Ok::<TransactionInformation, LedgerError>(
                        TransactionInformation { state: new_state, ..txs[tx_id] },
                    )
                }
            }),
            r is Err ==> *final(self) == *old(self),
            r matches Ok(info) ==> final(self).txs() == old(self).txs().insert(tx_id, info),
            final(self).accounts() == old(self).accounts(),
    {
        let info = self.validate_transition(tx_id, client_id, new_state)?;
        self.transactions.insert(tx_id, info);
        Ok(info)
    }

    fn apply_deposit(&mut self, t: &Transaction) -> (r: Result<(), LedgerError>)
        requires
            old(self).wf(),
            t.transaction_type == TransactionType::Deposit,
        ensures
            Ledger::step(*old(self), *t, r, *final(self)),
            final(self).wf(),
    {
        let amount = match t.amount {
            Some(a) => a,
            None => return Err(LedgerError::MissingAmount),
        };
        proof {
            use_type_invariant(&amount);
        }
        let c = t.client;
        let existing = match self.client_accounts.get(&c) {
            Some(a) => Some(*a),
            None => None,
        };
        let account = match existing {
            Some(acct) => {
                if acct.locked {
                    return Err(LedgerError::AccountLocked(c));
                }
                if self.transactions.contains_key(&t.tx) {
                    return Err(LedgerError::DuplicateTransaction(t.tx));
                }
                let available = match acct.available.checked_add(&amount) {
                    Some(v) => v,
                    None => return Err(LedgerError::AmountOverflow(c)),
                };
                let total = match acct.total.checked_add(&amount) {
                    Some(v) => v,
                    None => return Err(LedgerError::AmountOverflow(c)),
                };
                AccountStatus { available, held: acct.held, total, locked: false }
            },
            None => {
                if self.transactions.contains_key(&t.tx) {
                    return Err(LedgerError::DuplicateTransaction(t.tx));
                }
                AccountStatus { available: amount, held: Amount::zero(), total: amount, locked: false }
            },
        };
        match self.store_new_transaction(t.tx, amount, c) {
            Ok(()) => {},
            Err(e) => return Err(e),
        }
        self.client_accounts.insert(c, account);
        proof {
            lemma_account_replaced(old(self).accounts(), final(self).accounts(), c);
            assert forall|id: u32| #[trigger] final(self).txs().contains_key(id)
                implies final(self).txs()[id].amount.valid() by {
                if id != t.tx {
                    assert(old(self).txs().contains_key(id));
                }
            }
        }
        Ok(())
    }

    fn apply_withdrawal(&mut self, t: &Transaction) -> (r: Result<(), LedgerError>)
        requires
            old(self).wf(),
            t.transaction_type == TransactionType::Withdrawal,
        ensures
            Ledger::step(*old(self), *t, r, *final(self)),
            final(self).wf(),
    {
        let amount = match t.amount {
            Some(a) => a,
            None => return Err(LedgerError::MissingAmount),
        };
        let c = t.client;
        if self.transactions.contains_key(&t.tx) {
            return Err(LedgerError::DuplicateTransaction(t.tx));
        }
        let acct = match self.client_accounts.get(&c) {
            Some(a) => *a,
            None => return Ok(()),
        };
        if acct.locked {
            return Err(LedgerError::AccountLocked(c));
        }
        if !acct.available.at_least(&amount) {
            return Err(LedgerError::InsufficientFunds(c, amount, acct.available));
        }
        let available = match acct.available.checked_sub(&amount) {
            Some(v) => v,
            None => return Err(LedgerError::AmountOverflow(c)),
        };
        let total = match acct.total.checked_sub(&amount) {
            Some(v) => v,
            None => return Err(LedgerError::AmountOverflow(c)),
        };
        let account = AccountStatus { available, held: acct.held, total, locked: false };
        self.client_accounts.insert(c, account);
        proof {
            assert(old(self).accounts().contains_key(c));
            lemma_account_replaced(old(self).accounts(), final(self).accounts(), c);
        }
        Ok(())
    }

    fn apply_dispute_action(&mut self, t: &Transaction) -> (r: Result<(), LedgerError>)
        requires
            old(self).wf(),
            is_dispute_action(t.transaction_type),
        ensures
            Ledger::step(*old(self), *t, r, *final(self)),
            final(self).wf(),
    {
        let c = t.client;
        let kind = t.transaction_type;
        match self.check_account_is_locked(c) {
            Ok(()) => {},
            Err(e) => return Err(e),
        }
        let info = match self.validate_transition(t.tx, c, kind) {
            Ok(info) => info,
            Err(e) => return Err(e),
        };
        let amt = info.amount;
        let existing = match self.client_accounts.get(&c) {
            Some(a) => Some(*a),
            None => None,
        };
        let updated = match existing {
            None => None,
            Some(acct) => match kind {
                TransactionType::Dispute => if acct.available.at_least(&amt) {
                    let available = match acct.available.checked_sub(&amt) {
                        Some(v) => v,
                        None => return Err(LedgerError::AmountOverflow(c)),
                    };
                    let held = match acct.held.checked_add(&amt) {
                        Some(v) => v,
                        None => return Err(LedgerError::AmountOverflow(c)),
                    };
                    Some(AccountStatus { available, held, total: acct.total, locked: acct.locked })
                } else {
                    None
                },
                TransactionType::Resolve => if acct.held.at_least(&amt) {
                    let held = match acct.held.checked_sub(&amt) {
                        Some(v) => v,
                        None => return Err(LedgerError::AmountOverflow(c)),
                    };
                    let available = match acct.available.checked_add(&amt) {
                        Some(v) => v,
                        None => return Err(LedgerError::AmountOverflow(c)),
                    };
                    Some(AccountStatus { available, held, total: acct.total, locked: acct.locked })
                } else {
                    None
                },
                _ => if acct.held.at_least(&amt) {
                    // The charge-back locks the account even where the
                    // balances cannot be updated exactly.
                    match (acct.held.checked_sub(&amt), acct.total.checked_sub(&amt)) {
                        (Some(held), Some(total)) => Some(
                            AccountStatus { available: acct.available, held, total, locked: true },
                        ),
                        _ => Some(
                            AccountStatus {
                                available: acct.available,
                                held: acct.held,
                                total: acct.total,
                                locked: true,
                            },
                        ),
                    }
                } else {
                    Some(
                        AccountStatus {
                            available: acct.available,
                            held: acct.held,
                            total: acct.total,
                            locked: true,
                        },
                    )
                },
            },
        };
        if kind == TransactionType::ChargeBack {
            // A charged-back deposit is final and is not kept.
            self.transactions.remove(&t.tx);
        } else {
            self.transactions.insert(t.tx, info);
        }
        match updated {
            Some(account) => {
                self.client_accounts.insert(c, account);
                proof {
                    lemma_account_replaced(old(self).accounts(), final(self).accounts(), c);
                }
            },
            None => {},
        }
        Ok(())
    }

    /// Applies one transaction record. A rejected record leaves the ledger
    /// unchanged: in particular a deposit whose identifier is taken changes
    /// no balance, since uniqueness is checked before any update.
    pub fn handle_new_transaction(&mut self, transaction: &Transaction) -> (r: Result<(), LedgerError>)
        requires
            old(self).wf(),
        ensures
            Ledger::step(*old(self), *transaction, r, *final(self)),
            final(self).wf(),
    {
        match transaction.transaction_type {
            TransactionType::Deposit => self.apply_deposit(transaction),
            TransactionType::Withdrawal => self.apply_withdrawal(transaction),
            _ => self.apply_dispute_action(transaction),
        }
    }

    /// An empty ledger.
    pub fn new() -> (r: Ledger)
        ensures
            r.txs().is_empty(),
            r.accounts().is_empty(),
            r.wf(),
    {
        Ledger { transactions: HashMap::new(), client_accounts: HashMap::new() }
    }

    /// The balances of every client seen so far.
    pub fn client_accounts(&self) -> (r: &HashMap<u16, AccountStatus>)
        ensures
            r@ == self.accounts(),
    {
        &self.client_accounts
    }
    /// The stored deposit with identifier `tx_id`, if any.
    pub fn transaction(&self, tx_id: u32) -> (r: Option<TransactionInformation>)
        ensures
            r is Some <==> self.txs().contains_key(tx_id),
            r matches Some(info) ==> info == self.txs()[tx_id],
    {
        match self.transactions.get(&tx_id) {
            Some(info) => Some(*info),
            None => None,
        }
    }
}

/// Every account of a well-formed ledger is balanced: its total is its
/// available plus its held balance.
pub proof fn lemma_account_balanced(l: Ledger, c: u16)
    requires
        l.wf(),
        l.accounts().contains_key(c),
    ensures
        balanced(l.accounts()[c]),
{
}

/// Applying any transaction record, accepted or rejected, keeps every
/// account balanced.
pub proof fn lemma_step_keeps_balance(o: Ledger, t: Transaction, r: Result<(), LedgerError>, n: Ledger)
    requires
        o.wf(),
        Ledger::step(o, t, r, n),
    ensures
        n.wf(),
{
    if o.rejection(t) is None {
        let c = t.client;
        assert forall|k: u16| #[trigger] n.accounts().contains_key(k) implies balanced(
            n.accounts()[k],
        ) by {
            if k != c {
                assert(o.accounts().contains_key(k));
            } else if !o.accounts().contains_key(c) {
                if t.transaction_type == TransactionType::Deposit {
                    assert(n.accounts()[c].total.units() == t.amount->Some_0.units());
                }
            } else {
                assert(balanced(o.accounts()[c]));
            }
        }
    }
}

/// A withdrawal larger than the available balance is rejected and changes
/// nothing; an accepted withdrawal leaves the available balance
/// non-negative.
pub proof fn lemma_withdrawal_never_overdraws(
    o: Ledger,
    t: Transaction,
    r: Result<(), LedgerError>,
    n: Ledger,
)
    requires
        Ledger::step(o, t, r, n),
        t.transaction_type == TransactionType::Withdrawal,
        o.accounts().contains_key(t.client),
    ensures
        t.amount matches Some(a) && o.accounts()[t.client].available.units() < a.units() ==> r
            is Err && n == o,
        r is Ok ==> n.accounts()[t.client].available.units() >= 0,
{
}

/// A deposit whose identifier is already stored is rejected, and neither
/// the transaction store nor any balance changes.
pub proof fn lemma_deposit_id_not_reused(
    o: Ledger,
    t: Transaction,
    r: Result<(), LedgerError>,
    n: Ledger,
)
    requires
        Ledger::step(o, t, r, n),
        t.transaction_type == TransactionType::Deposit,
        o.txs().contains_key(t.tx),
    ensures
        r is Err,
        n == o,
{
}

/// A dispute, resolve or charge-back naming an identifier that is not
/// stored, or a deposit of another client, is rejected and changes nothing.
pub proof fn lemma_foreign_or_unknown_rejected(
    o: Ledger,
    t: Transaction,
    r: Result<(), LedgerError>,
    n: Ledger,
)
    requires
        Ledger::step(o, t, r, n),
        is_dispute_action(t.transaction_type),
        !o.txs().contains_key(t.tx) || o.txs()[t.tx].client != t.client,
    ensures
        r is Err,
        n == o,
{
}

/// A charge-back of a disputed deposit of the client, on an unlocked
/// account, is accepted: it locks the account, whether or not the held
/// balance covered the amount, and removes the deposit from the store.
pub proof fn lemma_chargeback_locks(o: Ledger, t: Transaction, r: Result<(), LedgerError>, n: Ledger)
    requires
        Ledger::step(o, t, r, n),
        t.transaction_type == TransactionType::ChargeBack,
        o.accounts().contains_key(t.client),
        !o.accounts()[t.client].locked,
        o.txs().contains_key(t.tx),
        o.txs()[t.tx].client == t.client,
        o.txs()[t.tx].state == TransactionType::Dispute,
    ensures
        r is Ok,
        n.accounts().contains_key(t.client),
        n.accounts()[t.client].locked,
        !n.txs().contains_key(t.tx),
{
}

/// No available or held balance, and no stored amount, is negative.
pub open spec fn nonnegative(l: Ledger) -> bool {
    &&& forall|c: u16| #[trigger]
        l.accounts().contains_key(c) ==> l.accounts()[c].available.units() >= 0
            && l.accounts()[c].held.units() >= 0
    &&& forall|id: u32| #[trigger] l.txs().contains_key(id) ==> l.txs()[id].amount.units() >= 0
}

/// Where every amount ever given is non-negative, available and held
/// balances (and so totals) stay non-negative.
pub proof fn lemma_step_keeps_nonnegative(
    o: Ledger,
    t: Transaction,
    r: Result<(), LedgerError>,
    n: Ledger,
)
    requires
        o.wf(),
        nonnegative(o),
        t.amount matches Some(a) ==> a.units() >= 0,
        Ledger::step(o, t, r, n),
    ensures
        nonnegative(n),
{
    if o.rejection(t) is None {
        let c = t.client;
        assert forall|k: u16| #[trigger] n.accounts().contains_key(k) implies n.accounts()[k].available.units()
            >= 0 && n.accounts()[k].held.units() >= 0 by {
            if k != c {
                assert(o.accounts().contains_key(k));
            } else if o.accounts().contains_key(c) {
                if is_dispute_action(t.transaction_type) {
                    assert(o.txs().contains_key(t.tx));
                }
            }
        }
        assert forall|id: u32| #[trigger] n.txs().contains_key(id) implies n.txs()[id].amount.units()
            >= 0 by {
            if id != t.tx {
                assert(o.txs().contains_key(id));
            } else if is_dispute_action(t.transaction_type) {
                assert(o.txs().contains_key(t.tx));
            }
        }
    }
}

/// A locked account stays locked, whatever record is applied next.
pub proof fn lemma_lock_is_permanent(
    o: Ledger,
    t: Transaction,
    r: Result<(), LedgerError>,
    n: Ledger,
    c: u16,
)
    requires
        Ledger::step(o, t, r, n),
        o.accounts().contains_key(c),
        o.accounts()[c].locked,
    ensures
        n.accounts().contains_key(c),
        n.accounts()[c].locked,
{
}

} // verus!

//! Transaction records, the lifecycle states of stored transactions, and the
//! rules for moving between them.

use crate::amount::Amount;
use vstd::prelude::*;
use vstd::string::StringExecFns;

verus! {

/// The kind of a transaction record; reused as the lifecycle state of a
/// stored deposit (`Deposit`: active, `Dispute`: under dispute, `Resolve`:
/// dispute settled, `ChargeBack`: reversed).
#[derive(Clone, Copy, Debug, PartialEq, Eq, Structural)]
pub enum TransactionType {
    Deposit,
    Withdrawal,
    Dispute,
    Resolve,
    ChargeBack,
}

/// The three legal lifecycle moves: a deposit may be disputed, and a
/// dispute may be resolved or charged back.
pub open spec fn legal_transition(to: TransactionType, from: TransactionType) -> bool {
    ||| (to == TransactionType::Dispute && from == TransactionType::Deposit)
    ||| (to == TransactionType::Resolve && from == TransactionType::Dispute)
    ||| (to == TransactionType::ChargeBack && from == TransactionType::Dispute)
}

pub open spec fn spec_name(t: TransactionType) -> Seq<char> {
    match t {
        TransactionType::Deposit => "deposit"@,
        TransactionType::Withdrawal => "withdrawal"@,
        TransactionType::Dispute => "dispute"@,
        TransactionType::Resolve => "resolve"@,
        TransactionType::ChargeBack => "chargeback"@,
    }
}

impl TransactionType {
    /// The lower-case name of the kind, as written in input records.
    pub fn name(&self) -> (r: &'static str)
        ensures
            r@ == spec_name(*self),
    {
        match self {
            TransactionType::Deposit => "deposit",
            TransactionType::Withdrawal => "withdrawal",
            TransactionType::Dispute => "dispute",
            TransactionType::Resolve => "resolve",
            TransactionType::ChargeBack => "chargeback",
        }
    }

    /// Decides whether a stored transaction in state `previous_state` may
    /// move to state `self`.
    pub fn check_state_transition(&self, previous_state: &TransactionType) -> (r: Result<
        (),
        LedgerError,
    >)
        ensures
            r is Ok <==> legal_transition(*self, *previous_state),
            r is Err ==> r == Err::<(), LedgerError>(
                LedgerError::InvalidTransition(*previous_state, *self),
            ),
    {
        match (self, previous_state) {
            (TransactionType::Dispute, TransactionType::Deposit) => Ok(()),
            (TransactionType::ChargeBack, TransactionType::Dispute) => Ok(()),
            (TransactionType::Resolve, TransactionType::Dispute) => Ok(()),
            _ => Err(LedgerError::InvalidTransition(*previous_state, *self)),
        }
    }
}

/// Why a transaction record was rejected.
#[derive(Clone, Copy, Debug)]
pub enum LedgerError {
    /// A deposit or withdrawal without an amount.
    MissingAmount,
    /// The transaction identifier is already taken by a stored deposit.
    DuplicateTransaction(u32),
    /// No stored deposit has this identifier.
    UnknownTransaction(u32),
    /// The stored deposit belongs to another client: (transaction, owner,
    /// requesting client).
    ClientMismatch(u32, u16, u16),
    /// The lifecycle move is not allowed: (from, to).
    InvalidTransition(TransactionType, TransactionType),
    /// The client's account is locked.
    AccountLocked(u16),
    /// A withdrawal exceeds the available funds: (client, requested,
    /// available).
    InsufficientFunds(u16, Amount, Amount),
    /// A balance of the client would leave the representable range.
    AmountOverflow(u16),
}

/// The description of each error.
pub open spec fn error_text(e: LedgerError) -> Seq<char> {
    match e {
        LedgerError::MissingAmount => "Deposits and withdrawals must have an amount"@,
        LedgerError::DuplicateTransaction(_) => "Cannot process a transaction with a duplicated transaction id"@,
        LedgerError::UnknownTransaction(_) => "Transaction with this id does not exist"@,
        LedgerError::ClientMismatch(_, _, _) => "Transaction does not correspond to client"@,
        LedgerError::InvalidTransition(from, to) => "Invalid state transition from '"@ + spec_name(
            from,
        ) + "' to '"@ + spec_name(to) + "'"@,
        LedgerError::AccountLocked(_) => "Account of client is locked"@,
        LedgerError::InsufficientFunds(_, _, _) => "Unable to process the withdrawal: insufficient available funds"@,
        LedgerError::AmountOverflow(_) => "The resulting balance exceeds the representable range"@,
    }
}

impl LedgerError {
    /// A human-readable description of the error.
    pub fn message(&self) -> (r: String)
        ensures
            r@ == error_text(*self),
    {
        match self {
            LedgerError::MissingAmount => String::from_str(
                "Deposits and withdrawals must have an amount",
            ),
            LedgerError::DuplicateTransaction(_) => String::from_str(
                "Cannot process a transaction with a duplicated transaction id",
            ),
            LedgerError::UnknownTransaction(_) => String::from_str(
                "Transaction with this id does not exist",
            ),
            LedgerError::ClientMismatch(_, _, _) => String::from_str(
                "Transaction does not correspond to client",
            ),
            LedgerError::InvalidTransition(from, to) => {
                let mut s = String::from_str("Invalid state transition from '");
                s.append(from.name());
                s.append("' to '");
                s.append(to.name());
                s.append("'");
                s
            },
            LedgerError::AccountLocked(_) => String::from_str("Account of client is locked"),
            LedgerError::InsufficientFunds(_, _, _) => String::from_str(
                "Unable to process the withdrawal: insufficient available funds",
            ),
            LedgerError::AmountOverflow(_) => String::from_str(
                "The resulting balance exceeds the representable range",
            ),
        }
    }
}

/// One input record: its kind, client, transaction identifier and optional
/// amount.
#[derive(Clone, Copy, Debug)]
pub struct Transaction {
    pub transaction_type: TransactionType,
    pub client: u16,
    pub tx: u32,
    pub amount: Option<Amount>,
}

impl Transaction {
    pub fn new(transaction_type: TransactionType, client: u16, tx: u32, amount: Option<Amount>) -> (r:
        Transaction)
        ensures
            r == (Transaction { transaction_type, client, tx, amount }),
    {
        Transaction { transaction_type, client, tx, amount }
    }
}

} // verus!

//! Transactions, their kinds and the errors that stop a run.

use vstd::prelude::*;

verus! {

/// What a transaction asks for.
#[derive(Clone, Copy, Debug, PartialEq, Eq, Structural)]
pub enum TransactionKind {
    Deposit,
    Withdrawal,
    Dispute,
    Resolve,
    Chargeback,
}

/// One transaction. `amount` counts ten-thousandths of a currency unit; for a
/// dispute, a resolve or a chargeback it is carried along but never read from
/// the incoming record: the ledger supplies the amount of the transaction
/// that `tx_id` refers to.
#[derive(Clone, Copy, Debug, PartialEq, Eq, Structural)]
pub struct Transaction {
    pub kind: TransactionKind,
    pub client_id: u16,
    pub tx_id: u32,
    pub amount: i64,
}

/// Why a record stops the run.
#[derive(Clone, Copy, Debug, PartialEq, Eq, Structural)]
pub enum PaymentError {
    /// The record's type is none of the five known names.
    UnknownKind,
    /// A deposit or withdrawal record carries no amount.
    MissingAmount { tx_id: u32 },
    /// A deposit or withdrawal reuses an identifier that the ledger holds.
    DuplicateTransaction { tx_id: u32 },
    /// A withdrawal asks for at least as much as is available.
    InsufficientFunds { client_id: u16, available: i64 },
    /// A balance would leave the range of a signed 64-bit count.
    BalanceOverflow { client_id: u16 },
}

/// The kind that a record's type name stands for, if any. Names are
/// case-sensitive.
pub open spec fn kind_of_name(name: Seq<char>) -> Option<TransactionKind> {
    if name == "deposit"@ {
        Some(TransactionKind::Deposit)
    } else if name == "withdrawal"@ {
        Some(TransactionKind::Withdrawal)
    } else if name == "dispute"@ {
        Some(TransactionKind::Dispute)
    } else if name == "resolve"@ {
        Some(TransactionKind::Resolve)
    } else if name == "chargeback"@ {
        Some(TransactionKind::Chargeback)
    } else {
        None
    }
}

impl TransactionKind {
    /// Reads a record's type name.
    pub fn from_name(name: &str) -> (kind: Option<TransactionKind>)
        ensures
            kind == kind_of_name(name@),
    {
        let owned = name.to_owned();
        if owned == "deposit".to_owned() {
            Some(TransactionKind::Deposit)
        } else if owned == "withdrawal".to_owned() {
            Some(TransactionKind::Withdrawal)
        } else if owned == "dispute".to_owned() {
            Some(TransactionKind::Dispute)
        } else if owned == "resolve".to_owned() {
            Some(TransactionKind::Resolve)
        } else if owned == "chargeback".to_owned() {
            Some(TransactionKind::Chargeback)
        } else {
            None
        }
    }

    /// Whether transactions of this kind enter the ledger under an
    /// identifier of their own (as opposed to referring to an earlier one).
    pub open spec fn spec_opens_entry(self) -> bool {
        self == TransactionKind::Deposit || self == TransactionKind::Withdrawal
    }

    #[verifier::when_used_as_spec(spec_opens_entry)]
    pub fn opens_entry(self) -> (b: bool)
        ensures
            b == self.spec_opens_entry(),
    {
        match self {
            TransactionKind::Deposit => true,
            TransactionKind::Withdrawal => true,
            _ => false,
        }
    }
}

/// The transaction that the fields of an incoming record stand for. The type
/// name must be known. A deposit or withdrawal must carry an amount; for the
/// other kinds the amount is optional and counts as zero where it is absent.
pub open spec fn decoded(kind_name: Seq<char>, client_id: u16, tx_id: u32, amount: Option<i64>) -> Result<
    Transaction,
    PaymentError,
> {
    match kind_of_name(kind_name) {
        None => Err(PaymentError::UnknownKind),
        Some(kind) => match amount {
            Some(amount) => Ok(Transaction { kind, client_id, tx_id, amount }),
            None => if kind.opens_entry() {
                Err(PaymentError::MissingAmount { tx_id })
            } else {
                Ok(Transaction { kind, client_id, tx_id, amount: 0 })
            },
        },
    }
}

impl Transaction {
    /// Builds a transaction from the fields of an incoming record.
    pub fn decode(kind_name: &str, client_id: u16, tx_id: u32, amount: Option<i64>) -> (r: Result<
        Transaction,
        PaymentError,
    >)
        ensures
            r == decoded(kind_name@, client_id, tx_id, amount),
    {
        match TransactionKind::from_name(kind_name) {
            None => Err(PaymentError::UnknownKind),
            Some(kind) => match amount {
                Some(amount) => Ok(Transaction { kind, client_id, tx_id, amount }),
                None => {
                    if kind.opens_entry() {
                        Err(PaymentError::MissingAmount { tx_id })
                    } else {
                        Ok(Transaction { kind, client_id, tx_id, amount: 0 })
                    }
                },
            },
        }
    }
}

} // verus!

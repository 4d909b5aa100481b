//! Records of the input table and the transactions they stand for.

use vstd::prelude::*;
use vstd::string::StringExecFns;
use crate::amount::{lemma_round_fits_i64, on_grid, round_spec};
pub use crate::amount::round;

verus! {

/// One record of the input table before its kind has been recognised.
/// `amount` counts millionths and has not been rounded yet.
#[derive(Debug)]
pub struct RawTransaction {
    pub transaction_type: String,
    pub client: u32,
    pub tx: u32,
    pub amount: i64,
}

/// A recognised transaction. Amounts count millionths of a currency unit.
#[derive(Clone, Copy, Debug, PartialEq, Eq, Structural)]
pub enum Transaction {
    Deposit { client: u32, tx: u32, amount: i64 },
    Withdrawal { client: u32, tx: u32, amount: i64 },
    Dispute { client: u32, tx: u32 },
    Resolve { client: u32, tx: u32 },
    Chargeback { client: u32, tx: u32 },
}

/// Where a transaction stands in its lifecycle.
#[derive(Clone, Copy, Debug, PartialEq, Eq, Structural)]
pub enum TransactionStatus {
    Withdrew,
    Deposited,
    FailedDeposit,
    FailedWithdrawal,
    OnDispute,
    Resolved,
    Chargeback,
}

impl Transaction {
    /// The customer a transaction belongs to.
    pub open spec fn client_spec(&self) -> u32 {
        match *self {
            Transaction::Deposit { client, .. } => client,
            Transaction::Withdrawal { client, .. } => client,
            Transaction::Dispute { client, .. } => client,
            Transaction::Resolve { client, .. } => client,
            Transaction::Chargeback { client, .. } => client,
        }
    }

    /// The customer a transaction belongs to.
    #[verifier::when_used_as_spec(client_spec)]
    pub fn get_client(&self) -> (c: u32)
        ensures
            c == self.client_spec(),
    {
        match self {
            Transaction::Deposit { client, .. } => *client,
            Transaction::Withdrawal { client, .. } => *client,
            Transaction::Dispute { client, .. } => *client,
            Transaction::Resolve { client, .. } => *client,
            Transaction::Chargeback { client, .. } => *client,
        }
    }

    /// The id that a transaction carries or refers to.
    pub open spec fn tx_spec(self) -> u32 {
        match self {
            Transaction::Deposit { tx, .. } => tx,
            Transaction::Withdrawal { tx, .. } => tx,
            Transaction::Dispute { tx, .. } => tx,
            Transaction::Resolve { tx, .. } => tx,
            Transaction::Chargeback { tx, .. } => tx,
        }
    }

    /// The transaction moves no new money: it is a dispute, a resolve or a
    /// chargeback.
    pub open spec fn is_claim(self) -> bool {
        self is Dispute || self is Resolve || self is Chargeback
    }

    /// The amount of a deposit or withdrawal lies on the four-digit grid.
    pub open spec fn amount_on_grid(self) -> bool {
        match self {
            Transaction::Deposit { amount, .. } => on_grid(amount as int),
            Transaction::Withdrawal { amount, .. } => on_grid(amount as int),
            _ => true,
        }
    }
}

/// Why a record could not be turned into a transaction.
#[derive(Debug, PartialEq, Eq)]
pub enum TransactionParseError {
    InvalidTransactionType(String),
}

impl TransactionParseError {
    /// The error in words.
    pub open spec fn message(&self) -> Seq<char> {
        match *self {
            TransactionParseError::InvalidTransactionType(kind) => "Transaction type "@ + kind@
                + " is invalid"@,
        }
    }

    /// One line that says what is wrong with the record.
    pub fn to_string(&self) -> (text: String)
        ensures
            text@ == self.message(),
    {
        match self {
            TransactionParseError::InvalidTransactionType(kind) => {
                let mut text = String::from_str("Transaction type ");
                text.append(kind.as_str());
                text.append(" is invalid");
                text
            },
        }
    }
}

impl TransactionStatus {
    /// The name of the status.
    pub open spec fn name(self) -> Seq<char> {
        match self {
            TransactionStatus::Withdrew => "Withdrew"@,
            TransactionStatus::Deposited => "Deposited"@,
            TransactionStatus::FailedDeposit => "FailedDeposit"@,
            TransactionStatus::FailedWithdrawal => "FailedWithdrawal"@,
            TransactionStatus::OnDispute => "OnDispute"@,
            TransactionStatus::Resolved => "Resolved"@,
            TransactionStatus::Chargeback => "Chargeback"@,
        }
    }

    /// The name of the status as a string.
    pub fn as_str(&self) -> (s: &'static str)
        ensures
            s@ == self.name(),
    {
        match self {
            TransactionStatus::Withdrew => "Withdrew",
            TransactionStatus::Deposited => "Deposited",
            TransactionStatus::FailedDeposit => "FailedDeposit",
            TransactionStatus::FailedWithdrawal => "FailedWithdrawal",
            TransactionStatus::OnDispute => "OnDispute",
            TransactionStatus::Resolved => "Resolved",
            TransactionStatus::Chargeback => "Chargeback",
        }
    }
}

/// The rounded form of a raw amount.
pub open spec fn rounded(amount: i64) -> i64 {
    round_spec(amount as int) as i64
}

impl RawTransaction {
    /// The transaction that a record stands for: its kind is read from
    /// `transaction_type`, and the amount of a deposit or withdrawal is
    /// rounded to four fractional digits. `None` where the kind is unknown.
    pub open spec fn parsed(&self) -> Option<Transaction> {
        let kind = self.transaction_type@;
        if kind == "deposit"@ {
            Some(
                Transaction::Deposit {
                    client: self.client,
                    tx: self.tx,
                    amount: rounded(self.amount),
                },
            )
        } else if kind == "withdrawal"@ {
            Some(
                Transaction::Withdrawal {
                    client: self.client,
                    tx: self.tx,
                    amount: rounded(self.amount),
                },
            )
        } else if kind == "dispute"@ {
            Some(Transaction::Dispute { client: self.client, tx: self.tx })
        } else if kind == "resolve"@ {
            Some(Transaction::Resolve { client: self.client, tx: self.tx })
        } else if kind == "chargeback"@ {
            Some(Transaction::Chargeback { client: self.client, tx: self.tx })
        } else {
            None
        }
    }

    /// Recognises the kind of a record. An unknown kind is handed back in
    /// the error.
    pub fn try_into(self) -> (r: Result<Transaction, TransactionParseError>)
        ensures
            match r {
                Ok(t) => self.parsed() == Some(t),
                Err(TransactionParseError::InvalidTransactionType(kind)) => {
                    &&& self.parsed() is None
                    &&& kind@ == self.transaction_type@
                },
            },
    {
        let RawTransaction { transaction_type, client, tx, amount } = self;
        if is_kind(&transaction_type, "deposit") {
            Ok(Transaction::Deposit { client, tx, amount: round_amount(amount) })
        } else if is_kind(&transaction_type, "withdrawal") {
            Ok(Transaction::Withdrawal { client, tx, amount: round_amount(amount) })
        } else if is_kind(&transaction_type, "dispute") {
            Ok(Transaction::Dispute { client, tx })
        } else if is_kind(&transaction_type, "resolve") {
            Ok(Transaction::Resolve { client, tx })
        } else if is_kind(&transaction_type, "chargeback") {
            Ok(Transaction::Chargeback { client, tx })
        } else {
            Err(TransactionParseError::InvalidTransactionType(transaction_type))
        }
    }
}

/// Rounds the amount of a record; the result is again a 64-bit amount.
fn round_amount(amount: i64) -> (r: i64)
    ensures
        r == rounded(amount),
        r == round_spec(amount as int),
{
    proof {
        lemma_round_fits_i64(amount);
    }
    round(amount as i128) as i64
}

/// Whether the kind of a record is written `kind`.
fn is_kind(s: &String, kind: &str) -> (b: bool)
    ensures
        b == (s@ == kind@),
{
    let k = String::from_str(kind);
    *s == k
}

} // verus!

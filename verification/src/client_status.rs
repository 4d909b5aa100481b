//! What is reported of a customer, the errors that a ledger reports, and the
//! replay of one customer's transactions.

use vstd::prelude::*;
use vstd::string::StringExecFns;
use crate::amount::{amount_text, number_text, write_amount, write_number};
use crate::ledger::{Ledger, LedgerState};
use crate::transaction::{Transaction, TransactionStatus};

verus! {

/// What is reported of one customer when its transactions have all been
/// replayed. As a ledger reports them, the three amounts lie on the
/// four-digit grid.
#[derive(Clone, Copy, Debug, PartialEq, Eq, Structural)]
pub struct ClientStatus {
    pub id: u32,
    pub available: i128,
    pub held: i128,
    pub total: i128,
    pub locked: bool,
}

/// A transaction that broke a rule of the ledger.
#[derive(Clone, Copy, Debug, PartialEq, Eq, Structural)]
pub enum ClientStatusError {
    WrongClientId(u32, u32),
    DuplicatedTransaction(u32),
    NegativeAmount(i64, u32),
    InsufficientFounds(i64, u32, i128),
    CustomerFrozen(u32, u32),
    NonExistingTransaction(u32),
    InvalidStatusToStartDispute(u32, TransactionStatus),
    InvalidStatusToResolve(u32, TransactionStatus),
    InvalidStatusToChargeback(u32, TransactionStatus),
}

impl ClientStatus {
    /// The status as a row of a table: the customer, the three amounts in
    /// currency units, and the frozen flag.
    pub open spec fn record(self) -> Seq<Seq<char>> {
        seq![
            number_text(self.id as nat),
            amount_text(self.available as int),
            amount_text(self.held as int),
            amount_text(self.total as int),
            if self.locked {
                "true"@
            } else {
                "false"@
            },
        ]
    }

    /// The fields of the status as text, in the order customer, available,
    /// held, total, locked.
    pub fn to_record(&self) -> (fields: Vec<String>)
        ensures
            fields@.len() == 5,
            forall|i: int| 0 <= i < 5 ==> (#[trigger] fields@[i])@ == self.record()[i],
    {
        let mut id = String::new();
        write_number(&mut id, self.id as u128);
        let mut available = String::new();
        write_amount(&mut available, self.available);
        let mut held = String::new();
        write_amount(&mut held, self.held);
        let mut total = String::new();
        write_amount(&mut total, self.total);
        let locked = if self.locked {
            String::from_str("true")
        } else {
            String::from_str("false")
        };
        proof {
            assert(id@ =~= number_text(self.id as nat));
            assert(available@ =~= amount_text(self.available as int));
            assert(held@ =~= amount_text(self.held as int));
            assert(total@ =~= amount_text(self.total as int));
        }
        let mut fields: Vec<String> = Vec::new();
        fields.push(id);
        fields.push(available);
        fields.push(held);
        fields.push(total);
        fields.push(locked);
        fields
    }
}

impl ClientStatusError {
    /// The error in words.
    pub open spec fn message(self) -> Seq<char> {
        match self {
            ClientStatusError::WrongClientId(expected, got) => {
                "Builder expected transactions for client "@ + number_text(expected as nat)
                    + ", but got one for client "@ + number_text(got as nat)
            },
            ClientStatusError::DuplicatedTransaction(tx) => {
                "Transaction ID "@ + number_text(tx as nat) + " not unique"@
            },
            ClientStatusError::NegativeAmount(amount, tx) => {
                "Negative amount "@ + amount_text(amount as int) + " in transaction "@
                    + number_text(tx as nat)
            },
            ClientStatusError::InsufficientFounds(amount, tx, available) => {
                "Not enough founds to withdraw "@ + amount_text(amount as int)
                    + " during transaction "@ + number_text(tx as nat)
                    + ", with available founds "@ + amount_text(available as int)
            },
            ClientStatusError::CustomerFrozen(client, tx) => {
                "Customer "@ + number_text(client as nat)
                    + " is frozen and cannot perform withdraw transaction "@ + number_text(
                    tx as nat,
                )
            },
            ClientStatusError::NonExistingTransaction(tx) => {
                "Transaction "@ + number_text(tx as nat) + " could not complete"@
            },
            ClientStatusError::InvalidStatusToStartDispute(tx, status) => {
                "Cannot start a dispute on transaction "@ + number_text(tx as nat)
                    + " while being on status "@ + status.name()
            },
            ClientStatusError::InvalidStatusToResolve(tx, status) => {
                "Cannot resolve a dispute on transaction "@ + number_text(tx as nat)
                    + " while being on status "@ + status.name()
            },
            ClientStatusError::InvalidStatusToChargeback(tx, status) => {
                "Cannot chargeback a dispute on transaction "@ + number_text(tx as nat)
                    + " while being on status "@ + status.name()
            },
        }
    }

    /// One line that says which rule was broken, and by what.
    pub fn to_string(&self) -> (text: String)
        ensures
            text@ == self.message(),
    {
        match *self {
            ClientStatusError::WrongClientId(expected, got) => {
                let mut text = String::from_str("Builder expected transactions for client ");
                write_number(&mut text, expected as u128);
                text.append(", but got one for client ");
                write_number(&mut text, got as u128);
                text
            },
            ClientStatusError::DuplicatedTransaction(tx) => {
                let mut text = String::from_str("Transaction ID ");
                write_number(&mut text, tx as u128);
                text.append(" not unique");
                text
            },
            ClientStatusError::NegativeAmount(amount, tx) => {
                let mut text = String::from_str("Negative amount ");
                write_amount(&mut text, amount as i128);
                text.append(" in transaction ");
                write_number(&mut text, tx as u128);
                text
            },
            ClientStatusError::InsufficientFounds(amount, tx, available) => {
                let mut text = String::from_str("Not enough founds to withdraw ");
                write_amount(&mut text, amount as i128);
                text.append(" during transaction ");
                write_number(&mut text, tx as u128);
                text.append(", with available founds ");
                write_amount(&mut text, available);
                text
            },
            ClientStatusError::CustomerFrozen(client, tx) => {
                let mut text = String::from_str("Customer ");
                write_number(&mut text, client as u128);
                text.append(" is frozen and cannot perform withdraw transaction ");
                write_number(&mut text, tx as u128);
                text
            },
            ClientStatusError::NonExistingTransaction(tx) => {
                let mut text = String::from_str("Transaction ");
                write_number(&mut text, tx as u128);
                text.append(" could not complete");
                text
            },
            ClientStatusError::InvalidStatusToStartDispute(tx, status) => {
                let mut text = String::from_str("Cannot start a dispute on transaction ");
                write_number(&mut text, tx as u128);
                text.append(" while being on status ");
                text.append(status.as_str());
                text
            },
            ClientStatusError::InvalidStatusToResolve(tx, status) => {
                let mut text = String::from_str("Cannot resolve a dispute on transaction ");
                write_number(&mut text, tx as u128);
                text.append(" while being on status ");
                text.append(status.as_str());
                text
            },
            ClientStatusError::InvalidStatusToChargeback(tx, status) => {
                let mut text = String::from_str("Cannot chargeback a dispute on transaction ");
                write_number(&mut text, tx as u128);
                text.append(" while being on status ");
                text.append(status.as_str());
                text
            },
        }
    }
}

/// Replays the transactions of customer `id` in order on a fresh ledger.
/// Returns what is reported of the customer at the end, and the rules that
/// were broken on the way, in the order in which they were broken.
pub fn build(id: u32, transactions: &[Transaction]) -> (r: (ClientStatus, Vec<ClientStatusError>))
    ensures
        r.0 == LedgerState::initial(id).replay(transactions@).snapshot(),
        r.1@ == LedgerState::initial(id).violations(transactions@),
{
    let mut ledger = Ledger::new(id);
    let mut errors: Vec<ClientStatusError> = Vec::new();
    let mut i: usize = 0;
    while i < transactions.len()
        invariant
            i <= transactions.len(),
            ledger@ == LedgerState::initial(id).replay(transactions@.take(i as int)),
            errors@ == LedgerState::initial(id).violations(transactions@.take(i as int)),
        decreases transactions.len() - i,
    {
        proof {
            let next = transactions@.take(i + 1);
            assert(next.drop_last() =~= transactions@.take(i as int));
            assert(next.last() == transactions@[i as int]);
        }
        let (after, broken) = ledger.apply(transactions[i]);
        ledger = after;
        if let Some(e) = broken {
            errors.push(e);
        }
        i += 1;
    }
    proof {
        assert(transactions@.take(i as int) =~= transactions@);
    }
    (ledger.snapshot(), errors)
}

} // verus!

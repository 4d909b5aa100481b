//! A payments engine: replays a batch of customer transactions (deposits,
//! withdrawals, disputes, resolves and chargebacks) on one ledger per
//! customer, and reports every customer's balances together with the
//! transactions that broke a rule.
//!
//! Amounts are integers that count millionths of a currency unit. Balances
//! are reported on a grid of four fractional digits, that is in multiples of
//! a hundred millionths.
//!
//! The functions of this module replay a whole batch on the calling thread.
//! A program that wants one worker per customer drives a
//! [`dispatch::Dispatcher`] and one [`ledger::Ledger`] per queue itself; what
//! these decide is the same, whoever runs them.

use vstd::prelude::*;

pub mod amount;
pub mod client_status;
pub mod dispatch;
pub mod invariants;
pub mod ledger;
pub mod transaction;

use crate::amount::{lemma_round_fits_i64, lemma_round_nearest, round_spec};
use crate::client_status::{build, ClientStatus, ClientStatusError};
use crate::dispatch::{
    client_set, customers, dispatch, lemma_one_queue_per_customer, lemma_queue_from_batch,
    queue_of, routed, ClientQueue,
};
use crate::invariants::{
    lemma_replay_balanced, lemma_replay_keeps_id, lemma_replay_on_grid,
    lemma_snapshot_total_on_grid,
};
use crate::ledger::{lemma_fresh_ledger, LedgerState};
use crate::transaction::{rounded, RawTransaction, Transaction, TransactionParseError};

verus! {

/// Anything that went wrong with one record of a batch.
#[derive(Debug, PartialEq, Eq)]
pub enum BatchError {
    /// The record is no transaction.
    Parse(TransactionParseError),
    /// The transaction broke a rule of its customer's ledger.
    Ledger(ClientStatusError),
}

/// A batch error with its text as a sequence of characters.
pub enum BatchErrorView {
    Parse(Seq<char>),
    Ledger(ClientStatusError),
}

impl View for BatchError {
    type V = BatchErrorView;

    open spec fn view(&self) -> BatchErrorView {
        match *self {
            BatchError::Parse(TransactionParseError::InvalidTransactionType(kind)) => {
                BatchErrorView::Parse(kind@)
            },
            BatchError::Ledger(e) => BatchErrorView::Ledger(e),
        }
    }
}

impl BatchError {
    /// The error in words.
    pub open spec fn message(&self) -> Seq<char> {
        match *self {
            BatchError::Parse(e) => e.message(),
            BatchError::Ledger(e) => e.message(),
        }
    }

    /// One line that says what went wrong.
    pub fn to_string(&self) -> (text: String)
        ensures
            text@ == self.message(),
    {
        match self {
            BatchError::Parse(e) => e.to_string(),
            BatchError::Ledger(e) => e.to_string(),
        }
    }
}

/// The errors in their mathematical form.
pub open spec fn views(errors: Seq<BatchError>) -> Seq<BatchErrorView> {
    errors.map_values(|e: BatchError| e@)
}

/// The records that are transactions, in order.
pub open spec fn accepted(records: Seq<RawTransaction>) -> Seq<Transaction>
    decreases records.len(),
{
    if records.len() == 0 {
        Seq::empty()
    } else {
        let before = accepted(records.drop_last());
        match records.last().parsed() {
            Some(t) => before.push(t),
            None => before,
        }
    }
}

/// The records that are no transactions, in order, each as the error that
/// names its kind.
pub open spec fn rejected(records: Seq<RawTransaction>) -> Seq<BatchErrorView>
    decreases records.len(),
{
    if records.len() == 0 {
        Seq::empty()
    } else {
        let before = rejected(records.drop_last());
        match records.last().parsed() {
            Some(_) => before,
            None => before.push(BatchErrorView::Parse(records.last().transaction_type@)),
        }
    }
}

/// What is reported of customer `client` after the batch `txs`.
pub open spec fn status_of(txs: Seq<Transaction>, client: u32) -> ClientStatus {
    LedgerState::initial(client).replay(queue_of(txs, client)).snapshot()
}

/// What is reported of the customers of `txs`, in the order in which the
/// customers are first mentioned.
pub open spec fn reported(txs: Seq<Transaction>) -> Seq<ClientStatus> {
    customers(txs).map_values(|client: u32| status_of(txs, client))
}

/// The rules broken on the ledgers of the customers `clients`, customer by
/// customer, and for each customer in the order of its transactions.
pub open spec fn violations_of(txs: Seq<Transaction>, clients: Seq<u32>) -> Seq<ClientStatusError>
    decreases clients.len(),
{
    if clients.len() == 0 {
        Seq::empty()
    } else {
        violations_of(txs, clients.drop_last()) + LedgerState::initial(clients.last()).violations(
            queue_of(txs, clients.last()),
        )
    }
}

/// Ledger violations as batch errors.
pub open spec fn as_batch_errors(violations: Seq<ClientStatusError>) -> Seq<BatchErrorView> {
    violations.map_values(|e: ClientStatusError| BatchErrorView::Ledger(e))
}

/// Sorts the records into transactions and kinds that are none.
fn parse_records(records: Vec<RawTransaction>) -> (r: (Vec<Transaction>, Vec<BatchError>))
    ensures
        r.0@ == accepted(records@),
        views(r.1@) == rejected(records@),
{
    let mut transactions: Vec<Transaction> = Vec::new();
    let mut errors: Vec<BatchError> = Vec::new();
    for record in it: records
        invariant
            it.seq() == records@,
            transactions@ == accepted(records@.take(it.index() as int)),
            views(errors@) == rejected(records@.take(it.index() as int)),
    {
        proof {
            let next = records@.take(it.index() + 1);
            assert(next.drop_last() =~= records@.take(it.index() as int));
            assert(next.last() == record);
        }
        let ghost reported = errors@;
        match record.try_into() {
            Ok(t) => transactions.push(t),
            Err(e) => {
                errors.push(BatchError::Parse(e));
                assert(views(errors@) =~= views(reported).push(errors@.last()@));
            },
        }
    }
    proof {
        assert(records@.take(records@.len() as int) =~= records@);
    }
    (transactions, errors)
}

/// Reads the records of a batch and fans the transactions among them out
/// to one queue per customer. Returns the queues, in the order in which
/// the customers are first mentioned, and an error for each record that is
/// no transaction.
pub fn process_transactions(records: Vec<RawTransaction>) -> (r: (Vec<ClientQueue>, Vec<BatchError>))
    ensures
        routed(r.0@, accepted(records@)),
        views(r.1@) == rejected(records@),
{
    let (transactions, errors) = parse_records(records);
    (dispatch(&transactions), errors)
}

/// Adds the violations found on one ledger to the errors of the batch.
fn report(errors: &mut Vec<BatchError>, found: &Vec<ClientStatusError>)
    ensures
        views(final(errors)@) == views(old(errors)@) + as_batch_errors(found@),
{
    let mut k: usize = 0;
    while k < found.len()
        invariant
            k <= found.len(),
            views(errors@) == views(old(errors)@) + as_batch_errors(found@.take(k as int)),
        decreases found.len() - k,
    {
        let ghost so_far = errors@;
        errors.push(BatchError::Ledger(found[k]));
        proof {
            assert(views(errors@) =~= views(so_far).push(BatchErrorView::Ledger(found@[k as int])));
            assert(as_batch_errors(found@.take(k + 1)) =~= as_batch_errors(
                found@.take(k as int),
            ).push(BatchErrorView::Ledger(found@[k as int])));
        }
        k += 1;
    }
    proof {
        assert(found@.take(k as int) =~= found@);
    }
}

/// Replays a batch: every customer's transactions on that customer's own
/// ledger, in the order in which they stand in the batch.
///
/// Returns one status per customer that a transaction mentions, in the
/// order in which the customers are first mentioned, and every error of the
/// batch: first those of the records that are no transactions, then the
/// ledger violations, customer by customer.
pub fn execute_transactions(records: Vec<RawTransaction>) -> (r: (Vec<ClientStatus>, Vec<BatchError>))
    ensures
        r.0@ == reported(accepted(records@)),
        r.0@.len() == client_set(accepted(records@)).len(),
        forall|i: int|
            0 <= i < r.0@.len() ==> (#[trigger] r.0@[i]).total == r.0@[i].available + r.0@[i].held,
        views(r.1@) == rejected(records@) + as_batch_errors(
            violations_of(accepted(records@), customers(accepted(records@))),
        ),
{
    let ghost txs = accepted(records@);
    proof {
        lemma_one_queue_per_customer(txs);
        assert forall|i: int| 0 <= i < reported(txs).len() implies (#[trigger] reported(
            txs,
        )[i]).total == reported(txs)[i].available + reported(txs)[i].held by {
            lemma_batch_totals(records@, customers(txs)[i]);
        }
    }
    let (queues, mut errors) = process_transactions(records);
    let mut statuses: Vec<ClientStatus> = Vec::new();
    let mut k: usize = 0;
    while k < queues.len()
        invariant
            k <= queues.len(),
            routed(queues@, txs),
            statuses@ == reported(txs).take(k as int),
            views(errors@) == rejected(records@) + as_batch_errors(
                violations_of(txs, customers(txs).take(k as int)),
            ),
        decreases queues.len() - k,
    {
        let queue = &queues[k];
        let (status, found) = build(queue.client, queue.transactions.as_slice());
        proof {
            let done = customers(txs).take(k as int);
            let next = customers(txs).take(k + 1);
            assert(next.drop_last() =~= done);
            assert(next.last() == queue.client);
            assert(reported(txs).take(k + 1) =~= reported(txs).take(k as int).push(status));
            assert(as_batch_errors(violations_of(txs, next)) =~= as_batch_errors(
                violations_of(txs, done),
            ) + as_batch_errors(found@));
        }
        statuses.push(status);
        report(&mut errors, &found);
        k += 1;
    }
    proof {
        assert(customers(txs).take(k as int) =~= customers(txs));
        assert(reported(txs).take(k as int) =~= reported(txs));
    }
    (statuses, errors)
}

/// A ledger is not moved by the transactions of other customers: replaying
/// a whole batch on the ledger of one customer leaves it where replaying
/// that customer's queue alone leaves it.
pub proof fn lemma_replay_ignores_strangers(txs: Seq<Transaction>, client: u32)
    ensures
        LedgerState::initial(client).replay(txs) == LedgerState::initial(client).replay(
            queue_of(txs, client),
        ),
        LedgerState::initial(client).replay(txs).snapshot() == status_of(txs, client),
    decreases txs.len(),
{
    if txs.len() > 0 {
        lemma_replay_ignores_strangers(txs.drop_last(), client);
        lemma_replay_keeps_id(LedgerState::initial(client), txs.drop_last());
        let queue = queue_of(txs.drop_last(), client);
        if txs.last().client_spec() == client {
            assert(queue.push(txs.last()).drop_last() =~= queue);
        }
    }
}

/// The amounts of the transactions read from records lie on the grid.
pub proof fn lemma_accepted_on_grid(records: Seq<RawTransaction>)
    ensures
        forall|i: int|
            0 <= i < accepted(records).len() ==> (#[trigger] accepted(records)[i]).amount_on_grid(),
    decreases records.len(),
{
    if records.len() > 0 {
        let head = accepted(records.drop_last());
        lemma_accepted_on_grid(records.drop_last());
        let amount = records.last().amount;
        lemma_round_fits_i64(amount);
        lemma_round_nearest(amount as int);
        assert(rounded(amount) == round_spec(amount as int));
        assert forall|i: int| 0 <= i < accepted(records).len() implies (#[trigger] accepted(
            records,
        )[i]).amount_on_grid() by {
            if i < head.len() {
                assert(accepted(records)[i] == head[i]);
            }
        }
    }
}

/// For a batch read from records, the total reported of a customer is the
/// sum of the available and the held amount reported, so it lies within
/// half a step of the rounding of that sum.
pub proof fn lemma_batch_totals(records: Seq<RawTransaction>, client: u32)
    ensures
        ({
            let status = status_of(accepted(records), client);
            &&& status.total == status.available + status.held
            &&& -50 <= status.total - round_spec(status.available + status.held) <= 50
        }),
{
    let txs = accepted(records);
    let queue = queue_of(txs, client);
    let start = LedgerState::initial(client);
    lemma_accepted_on_grid(records);
    assert forall|k: int| 0 <= k < queue.len() implies (#[trigger] queue[k]).amount_on_grid() by {
        lemma_queue_from_batch(txs, client, k);
    }
    lemma_fresh_ledger(client);
    lemma_replay_balanced(start, queue);
    lemma_replay_on_grid(start, queue);
    lemma_snapshot_total_on_grid(start.replay(queue));
}

} // verus!

//! What holds of every ledger, proved from the rules of
//! [`LedgerState::step`](crate::ledger::LedgerState).

use vstd::prelude::*;
use crate::amount::{
    is_non_negative, lemma_grid_arithmetic, lemma_round_nearest, on_grid, round_spec,
};
use crate::client_status::ClientStatusError;
use crate::ledger::{lemma_balanced_bounds, lemma_fresh_ledger, lemma_step_balanced, LedgerState};
use crate::transaction::{Transaction, TransactionStatus};

verus! {

/// Replaying transactions on a ledger whose balances add up from its
/// recorded transactions gives such a ledger again.
pub proof fn lemma_replay_balanced(s: LedgerState, txs: Seq<Transaction>)
    requires
        s.balanced(),
    ensures
        s.replay(txs).balanced(),
    decreases txs.len(),
{
    if txs.len() > 0 {
        lemma_replay_balanced(s, txs.drop_last());
        lemma_step_balanced(s.replay(txs.drop_last()), txs.last());
    }
}

/// Replaying transactions never changes whose ledger it is.
pub proof fn lemma_replay_keeps_id(s: LedgerState, txs: Seq<Transaction>)
    ensures
        s.replay(txs).id == s.id,
    decreases txs.len(),
{
    if txs.len() > 0 {
        lemma_replay_keeps_id(s, txs.drop_last());
    }
}

/// The reported amounts lie on the grid, each within half a step of the
/// balance it reports, and the reported total is the rounded sum of the two
/// running balances. It differs from the sum of the two reported balances by
/// one step at most; it lies within half a step of the rounding of that sum
/// exactly where rounding the balances one by one and rounding their sum
/// come to the same, and then it is that sum.
pub proof fn lemma_snapshot_total(s: LedgerState)
    requires
        s.balanced(),
    ensures
        s.snapshot().total == round_spec(s.available + s.held),
        s.snapshot().available == round_spec(s.available),
        s.snapshot().held == round_spec(s.held),
        on_grid(s.snapshot().total as int),
        on_grid(s.snapshot().available as int),
        on_grid(s.snapshot().held as int),
        -100 <= s.snapshot().total - (s.snapshot().available + s.snapshot().held) <= 100,
        (-50 <= s.snapshot().total - round_spec(s.snapshot().available + s.snapshot().held) <= 50)
            <==> round_spec(s.available + s.held) == round_spec(s.available) + round_spec(s.held),
{
    let a = round_spec(s.available);
    let h = round_spec(s.held);
    let t = round_spec(s.available + s.held);
    lemma_balanced_bounds(s);
    lemma_round_nearest(s.available);
    lemma_round_nearest(s.held);
    lemma_round_nearest(s.available + s.held);
    lemma_grid_points_near_sum(s.available, s.held, a, h, t);
    lemma_grid_arithmetic(a, h);
    lemma_round_nearest(a + h);
    lemma_grid_arithmetic(t, a + h);
    lemma_grid_point_near_zero(t - (a + h));
}

/// The only grid point less than a step from zero is zero.
proof fn lemma_grid_point_near_zero(d: int)
    requires
        on_grid(d),
    ensures
        -100 < d < 100 ==> d == 0,
{
    reveal(on_grid);
}

/// Grid points within half a step of two amounts and of their sum: the
/// third differs from the sum of the first two by one step at most.
proof fn lemma_grid_points_near_sum(x: int, y: int, a: int, h: int, t: int)
    requires
        on_grid(a),
        on_grid(h),
        on_grid(t),
        -50 <= a - x <= 50,
        -50 <= h - y <= 50,
        -50 <= t - (x + y) <= 50,
    ensures
        -100 <= t - (a + h) <= 100,
{
    lemma_grid_arithmetic(a, h);
    lemma_grid_arithmetic(t, a + h);
    let d = t - (a + h);
    assert(d == 100 * (d / 100)) by {
        reveal(on_grid);
    }
}

/// Where the balances lie on the grid, the reported total is the sum of the
/// reported balances, and so within half a step of its rounding.
pub proof fn lemma_snapshot_total_on_grid(s: LedgerState)
    requires
        s.balanced(),
        s.on_grid(),
    ensures
        s.snapshot().available == s.available,
        s.snapshot().held == s.held,
        s.snapshot().total == s.snapshot().available + s.snapshot().held,
        -50 <= s.snapshot().total - round_spec(s.snapshot().available + s.snapshot().held) <= 50,
{
    lemma_snapshot_total(s);
    lemma_grid_arithmetic(s.available, s.held);
    lemma_round_nearest(s.available);
    lemma_round_nearest(s.held);
    lemma_round_nearest(s.available + s.held);
}

/// What is reported of a customer after any transactions names that
/// customer, lies on the grid, and has a total within one step of the sum
/// of the available and the held amount. Where the amounts of the
/// transactions lie on the grid, the total is that sum.
pub proof fn lemma_replayed_status(id: u32, txs: Seq<Transaction>)
    ensures
        ({
            let status = LedgerState::initial(id).replay(txs).snapshot();
            &&& status.id == id
            &&& on_grid(status.available as int)
            &&& on_grid(status.held as int)
            &&& on_grid(status.total as int)
            &&& -100 <= status.total - (status.available + status.held) <= 100
            &&& (forall|i: int| 0 <= i < txs.len() ==> (#[trigger] txs[i]).amount_on_grid())
                ==> status.total == status.available + status.held
        }),
{
    let start = LedgerState::initial(id);
    lemma_fresh_ledger(id);
    lemma_replay_keeps_id(start, txs);
    lemma_replay_balanced(start, txs);
    lemma_snapshot_total(start.replay(txs));
    if forall|i: int| 0 <= i < txs.len() ==> (#[trigger] txs[i]).amount_on_grid() {
        lemma_replay_on_grid(start, txs);
        lemma_snapshot_total_on_grid(start.replay(txs));
    }
}

/// A transaction with its amount on the grid keeps a ledger on the grid.
pub proof fn lemma_step_on_grid(s: LedgerState, t: Transaction)
    requires
        s.on_grid(),
        t.amount_on_grid(),
    ensures
        s.step(t).on_grid(),
{
    let r = s.step(t);
    let tx = t.tx_spec();
    lemma_grid_arithmetic(s.available, s.held);
    if r != s {
        let moved = r.statuses[tx].1;
        assert(r.statuses == s.statuses.insert(tx, r.statuses[tx]));
        assert(on_grid(moved)) by {
            match t {
                Transaction::Deposit { amount, .. } => {},
                Transaction::Withdrawal { amount, .. } => {
                    lemma_grid_arithmetic(amount as int, 0);
                },
                _ => {
                    assert(s.statuses.contains_key(tx));
                },
            }
        }
        match t {
            Transaction::Deposit { amount, .. } => {
                lemma_grid_arithmetic(s.available, amount as int);
            },
            Transaction::Withdrawal { amount, .. } => {
                lemma_grid_arithmetic(s.available, amount as int);
            },
            _ => {
                lemma_grid_arithmetic(s.available, moved);
                lemma_grid_arithmetic(s.held, moved);
            },
        }
        assert forall|other: u32| #[trigger] r.statuses.contains_key(other) implies on_grid(
            r.statuses[other].1,
        ) by {
            if other != tx {
                assert(s.statuses.contains_key(other));
            }
        }
    }
}

/// Transactions with amounts on the grid keep a ledger on the grid.
pub proof fn lemma_replay_on_grid(s: LedgerState, txs: Seq<Transaction>)
    requires
        s.on_grid(),
        forall|i: int| 0 <= i < txs.len() ==> (#[trigger] txs[i]).amount_on_grid(),
    ensures
        s.replay(txs).on_grid(),
    decreases txs.len(),
{
    if txs.len() > 0 {
        lemma_replay_on_grid(s, txs.drop_last());
        assert(txs.last().amount_on_grid());
        lemma_step_on_grid(s.replay(txs.drop_last()), txs.last());
    }
}

/// The status of a transaction only moves along the lifecycle: a new
/// transaction starts as deposited, withdrawn or failed; a deposit may go on
/// dispute; a dispute ends resolved or charged back; a resolved deposit may
/// go on dispute again. Nothing else changes a status, and a recorded
/// transaction is never forgotten.
pub proof fn lemma_status_moves_along_lifecycle(s: LedgerState, t: Transaction, tx: u32)
    ensures
        s.statuses.contains_key(tx) ==> s.step(t).statuses.contains_key(tx),
        s.statuses.contains_key(tx) && s.step(t).statuses[tx] != s.statuses[tx] ==> {
            let before = s.statuses[tx].0;
            let after = s.step(t).statuses[tx].0;
            &&& t.tx_spec() == tx
            &&& s.step(t).statuses[tx].1 == s.statuses[tx].1
            &&& match before {
                TransactionStatus::Deposited => after == TransactionStatus::OnDispute,
                TransactionStatus::Resolved => after == TransactionStatus::OnDispute,
                TransactionStatus::OnDispute => after == TransactionStatus::Resolved || after
                    == TransactionStatus::Chargeback,
                _ => false,
            }
        },
        !s.statuses.contains_key(tx) && s.step(t).statuses.contains_key(tx) ==> {
            let after = s.step(t).statuses[tx].0;
            &&& t.tx_spec() == tx
            &&& after == TransactionStatus::Deposited || after == TransactionStatus::Withdrew
                || after == TransactionStatus::FailedDeposit || after
                == TransactionStatus::FailedWithdrawal
        },
{
}

/// A transaction that has been charged back is closed: a further dispute,
/// resolve or chargeback that names it is an error and changes nothing.
pub proof fn lemma_chargeback_is_final(s: LedgerState, t: Transaction)
    requires
        t.is_claim(),
        s.statuses.contains_key(t.tx_spec()),
        s.statuses[t.tx_spec()].0 == TransactionStatus::Chargeback,
    ensures
        s.step(t) == s,
        s.violation(t) is Some,
{
}

/// Any number of disputes, resolves and chargebacks that name charged-back
/// transactions leave the ledger as it was, and each of them is an error.
pub proof fn lemma_closed_transactions_stay_closed(s: LedgerState, claims: Seq<Transaction>)
    requires
        forall|i: int|
            0 <= i < claims.len() ==> {
                &&& (#[trigger] claims[i]).is_claim()
                &&& s.statuses.contains_key(claims[i].tx_spec())
                &&& s.statuses[claims[i].tx_spec()].0 == TransactionStatus::Chargeback
            },
    ensures
        s.replay(claims) == s,
        s.violations(claims).len() == claims.len(),
    decreases claims.len(),
{
    if claims.len() > 0 {
        lemma_closed_transactions_stay_closed(s, claims.drop_last());
        lemma_chargeback_is_final(s, claims.last());
    }
}

/// A frozen ledger stays frozen.
pub proof fn lemma_locked_stays_locked(s: LedgerState, txs: Seq<Transaction>)
    requires
        s.locked,
    ensures
        s.replay(txs).locked,
    decreases txs.len(),
{
    if txs.len() > 0 {
        lemma_locked_stays_locked(s, txs.drop_last());
    }
}

/// A frozen ledger takes a new deposit of its customer as an open one does,
/// and turns down every new withdrawal: the withdrawal is recorded as
/// failed, the balances stay, and the customer is reported as frozen.
pub proof fn lemma_locked_ledger(s: LedgerState, t: Transaction)
    requires
        s.locked,
        t.client_spec() == s.id,
        !s.statuses.contains_key(t.tx_spec()),
    ensures
        t matches Transaction::Deposit { tx, amount, .. } ==> {
            &&& s.step(t) == LedgerState { locked: false, ..s }.step(t).lock()
            &&& s.violation(t) == LedgerState { locked: false, ..s }.violation(t)
            &&& is_non_negative(amount as int) ==> {
                &&& s.violation(t) is None
                &&& s.step(t).available == s.available + amount
                &&& s.step(t).statuses[tx] == (TransactionStatus::Deposited, amount as int)
            }
        },
        t matches Transaction::Withdrawal { client, tx, .. } ==> {
            &&& s.violation(t) == Some(ClientStatusError::CustomerFrozen(client, tx))
            &&& s.step(t) == s.record(tx, TransactionStatus::FailedWithdrawal, 0)
        },
        s.step(t).locked,
{
}

/// Each transaction that breaks a rule is reported once, at the place that
/// its turn gives it: the report of the transaction at index `i` stands
/// behind the reports of the transactions before it, and a transaction
/// that breaks no rule adds no report.
pub proof fn lemma_violation_reported_once(s: LedgerState, txs: Seq<Transaction>, i: int)
    requires
        0 <= i < txs.len(),
    ensures
        s.violations(txs.take(i)).len() <= i,
        s.violations(txs.take(i)) == s.violations(txs).take(
            s.violations(txs.take(i)).len() as int,
        ),
        match s.replay(txs.take(i)).violation(txs[i]) {
            Some(e) => s.violations(txs.take(i + 1)) == s.violations(txs.take(i)).push(e),
            None => s.violations(txs.take(i + 1)) == s.violations(txs.take(i)),
        },
{
    assert(txs.take(i + 1).drop_last() =~= txs.take(i));
    lemma_violations_prefix(s, txs, i);
}

proof fn lemma_violations_prefix(s: LedgerState, txs: Seq<Transaction>, i: int)
    requires
        0 <= i <= txs.len(),
    ensures
        s.violations(txs.take(i)).len() <= i,
        s.violations(txs.take(i)).len() <= s.violations(txs).len(),
        s.violations(txs.take(i)) == s.violations(txs).take(
            s.violations(txs.take(i)).len() as int,
        ),
    decreases txs.len(),
{
    let part = s.violations(txs.take(i));
    let whole = s.violations(txs);
    lemma_violations_length(s, txs.take(i));
    if i == txs.len() {
        assert(txs.take(i) =~= txs);
        assert(whole.take(whole.len() as int) =~= whole);
    } else {
        let head = txs.drop_last();
        lemma_violations_prefix(s, head, i);
        assert(head.take(i) =~= txs.take(i));
        let shorter = s.violations(head);
        assert(shorter =~= whole.take(shorter.len() as int));
        assert(part =~= whole.take(part.len() as int));
    }
}

proof fn lemma_violations_length(s: LedgerState, txs: Seq<Transaction>)
    ensures
        s.violations(txs).len() <= txs.len(),
    decreases txs.len(),
{
    if txs.len() > 0 {
        lemma_violations_length(s, txs.drop_last());
    }
}

} // verus!

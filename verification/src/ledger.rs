//! One customer's ledger: a state machine over balances, a frozen flag and
//! the status of every transaction seen. [`LedgerState`] is its mathematical
//! form, with the rules of each kind of transaction; [`Ledger`] is the value
//! that a program holds.

use vstd::prelude::*;
use std::collections::HashMap;
use crate::amount::{is_covered, is_non_negative, lemma_multiple_on_grid, on_grid, round, round_spec};
use crate::client_status::{ClientStatus, ClientStatusError};
use crate::transaction::{Transaction, TransactionStatus};

verus! {

/// The mathematical state of one customer's ledger: the running balances,
/// the frozen flag, and for each transaction seen its status together with
/// the signed amount it stands for.
pub struct LedgerState {
    pub id: u32,
    pub available: int,
    pub held: int,
    pub locked: bool,
    pub statuses: Map<u32, (TransactionStatus, int)>,
}

impl LedgerState {
    /// The ledger of a customer nothing has happened to yet.
    pub open spec fn initial(id: u32) -> LedgerState {
        LedgerState { id, available: 0, held: 0, locked: false, statuses: Map::empty() }
    }

    /// The same ledger with `tx` recorded as `status` for `amount`.
    pub open spec fn record(self, tx: u32, status: TransactionStatus, amount: int) -> LedgerState {
        LedgerState { statuses: self.statuses.insert(tx, (status, amount)), ..self }
    }

    /// The ledger after one transaction.
    pub open spec fn step(self, t: Transaction) -> LedgerState {
        if t.client_spec() != self.id {
            self
        } else {
            match t {
                Transaction::Deposit { tx, amount, .. } => {
                    if self.statuses.contains_key(tx) {
                        self
                    } else if is_non_negative(amount as int) {
                        LedgerState { available: self.available + amount, ..self }.record(
                            tx,
                            TransactionStatus::Deposited,
                            amount as int,
                        )
                    } else {
                        self.record(tx, TransactionStatus::FailedDeposit, 0)
                    }
                },
                Transaction::Withdrawal { tx, amount, .. } => {
                    if self.statuses.contains_key(tx) {
                        self
                    } else if !self.locked && is_covered(amount as int, self.available)
                        && is_non_negative(amount as int) {
                        LedgerState { available: self.available - amount, ..self }.record(
                            tx,
                            TransactionStatus::Withdrew,
                            -amount,
                        )
                    } else {
                        self.record(tx, TransactionStatus::FailedWithdrawal, 0)
                    }
                },
                Transaction::Dispute { tx, .. } => {
                    if self.statuses.contains_key(tx) && (self.statuses[tx].0
                        == TransactionStatus::Deposited || self.statuses[tx].0
                        == TransactionStatus::Resolved) {
                        let v = self.statuses[tx].1;
                        LedgerState {
                            available: self.available - v,
                            held: self.held + v,
                            ..self
                        }.record(tx, TransactionStatus::OnDispute, v)
                    } else {
                        self
                    }
                },
                Transaction::Resolve { tx, .. } => {
                    if self.statuses.contains_key(tx) && self.statuses[tx].0
                        == TransactionStatus::OnDispute {
                        let v = self.statuses[tx].1;
                        LedgerState {
                            available: self.available + v,
                            held: self.held - v,
                            ..self
                        }.record(tx, TransactionStatus::Resolved, v)
                    } else {
                        self
                    }
                },
                Transaction::Chargeback { tx, .. } => {
                    if self.statuses.contains_key(tx) && self.statuses[tx].0
                        == TransactionStatus::OnDispute {
                        let v = self.statuses[tx].1;
                        LedgerState { held: self.held - v, locked: true, ..self }.record(
                            tx,
                            TransactionStatus::Chargeback,
                            v,
                        )
                    } else {
                        self
                    }
                },
            }
        }
    }

    /// The rule that one transaction breaks on this ledger, if it breaks one.
    /// The available balance that an error carries is a 128-bit integer; the
    /// balance of a ledger whose balances add up always fits one.
    pub open spec fn violation(self, t: Transaction) -> Option<ClientStatusError> {
        if t.client_spec() != self.id {
            Some(ClientStatusError::WrongClientId(self.id, t.client_spec()))
        } else {
            match t {
                Transaction::Deposit { tx, amount, .. } => {
                    if self.statuses.contains_key(tx) {
                        Some(ClientStatusError::DuplicatedTransaction(tx))
                    } else if is_non_negative(amount as int) {
                        None
                    } else {
                        Some(ClientStatusError::NegativeAmount(amount, tx))
                    }
                },
                Transaction::Withdrawal { client, tx, amount } => {
                    if self.statuses.contains_key(tx) {
                        Some(ClientStatusError::DuplicatedTransaction(tx))
                    } else if self.locked {
                        Some(ClientStatusError::CustomerFrozen(client, tx))
                    } else if is_covered(amount as int, self.available) && is_non_negative(
                        amount as int,
                    ) {
                        None
                    } else if amount < 0 {
                        Some(ClientStatusError::NegativeAmount(amount, tx))
                    } else {
                        Some(
                            ClientStatusError::InsufficientFounds(
                                amount,
                                tx,
                                self.available as i128,
                            ),
                        )
                    }
                },
                Transaction::Dispute { tx, .. } => {
                    if !self.statuses.contains_key(tx) {
                        Some(ClientStatusError::NonExistingTransaction(tx))
                    } else if self.statuses[tx].0 == TransactionStatus::Deposited
                        || self.statuses[tx].0 == TransactionStatus::Resolved {
                        None
                    } else {
                        Some(
                            ClientStatusError::InvalidStatusToStartDispute(
                                tx,
                                self.statuses[tx].0,
                            ),
                        )
                    }
                },
                Transaction::Resolve { tx, .. } => {
                    if !self.statuses.contains_key(tx) {
                        Some(ClientStatusError::NonExistingTransaction(tx))
                    } else if self.statuses[tx].0 == TransactionStatus::OnDispute {
                        None
                    } else {
                        Some(ClientStatusError::InvalidStatusToResolve(tx, self.statuses[tx].0))
                    }
                },
                Transaction::Chargeback { tx, .. } => {
                    if !self.statuses.contains_key(tx) {
                        Some(ClientStatusError::NonExistingTransaction(tx))
                    } else if self.statuses[tx].0 == TransactionStatus::OnDispute {
                        None
                    } else {
                        Some(
                            ClientStatusError::InvalidStatusToChargeback(tx, self.statuses[tx].0),
                        )
                    }
                },
            }
        }
    }

    /// The ledger after a sequence of transactions, first to last.
    pub open spec fn replay(self, txs: Seq<Transaction>) -> LedgerState
        decreases txs.len(),
    {
        if txs.len() == 0 {
            self
        } else {
            self.replay(txs.drop_last()).step(txs.last())
        }
    }

    /// The violations met while replaying a sequence, in the order met.
    pub open spec fn violations(self, txs: Seq<Transaction>) -> Seq<ClientStatusError>
        decreases txs.len(),
    {
        if txs.len() == 0 {
            Seq::empty()
        } else {
            let before = self.violations(txs.drop_last());
            match self.replay(txs.drop_last()).violation(txs.last()) {
                Some(e) => before.push(e),
                None => before,
            }
        }
    }

    /// What is reported of the ledger: each balance rounded on its own, and
    /// the total rounded from the sum of the unrounded balances.
    pub open spec fn snapshot(self) -> ClientStatus {
        ClientStatus {
            id: self.id,
            available: round_spec(self.available) as i128,
            held: round_spec(self.held) as i128,
            total: round_spec(self.available + self.held) as i128,
            locked: self.locked,
        }
    }

    /// Every recorded amount fits a signed 64-bit integer.
    pub open spec fn recorded_amounts_fit(self) -> bool {
        forall|tx: u32| #[trigger]
            self.statuses.contains_key(tx) ==> i64::MIN <= self.statuses[tx].1 <= i64::MAX
    }

    /// The balances are what the recorded transactions add up to.
    pub open spec fn balanced(self) -> bool {
        &&& self.recorded_amounts_fit()
        &&& self.available == sum_below(self.statuses, false, id_space())
        &&& self.held == sum_below(self.statuses, true, id_space())
    }

    /// The balances and every recorded amount lie on the four-digit grid.
    pub open spec fn on_grid(self) -> bool {
        &&& on_grid(self.available)
        &&& on_grid(self.held)
        &&& forall|tx: u32| #[trigger] self.statuses.contains_key(tx) ==> on_grid(self.statuses[tx].1)
    }

    /// The same ledger, frozen.
    pub open spec fn lock(self) -> LedgerState {
        LedgerState { locked: true, ..self }
    }
}

/// What a recorded transaction contributes to the available balance.
pub open spec fn available_part(e: (TransactionStatus, int)) -> int {
    match e.0 {
        TransactionStatus::Deposited => e.1,
        TransactionStatus::Resolved => e.1,
        TransactionStatus::Withdrew => e.1,
        _ => 0,
    }
}

/// What a recorded transaction contributes to the held balance.
pub open spec fn held_part(e: (TransactionStatus, int)) -> int {
    match e.0 {
        TransactionStatus::OnDispute => e.1,
        _ => 0,
    }
}

/// The contribution of transaction `tx` to one of the two balances; zero
/// when the transaction is not recorded.
pub open spec fn share(statuses: Map<u32, (TransactionStatus, int)>, tx: u32, held: bool) -> int {
    if !statuses.contains_key(tx) {
        0
    } else if held {
        held_part(statuses[tx])
    } else {
        available_part(statuses[tx])
    }
}

/// The contributions of the transactions with an id below `n`, added up.
pub open spec fn sum_below(
    statuses: Map<u32, (TransactionStatus, int)>,
    held: bool,
    n: nat,
) -> int
    decreases n,
{
    if n == 0 {
        0
    } else {
        sum_below(statuses, held, (n - 1) as nat) + share(statuses, (n - 1) as u32, held)
    }
}

/// One more than the largest transaction id.
pub open spec fn id_space() -> nat {
    0x1_0000_0000
}

/// The recorded transactions with their amounts as mathematical integers.
spec fn widened(statuses: Map<u32, (TransactionStatus, i64)>) -> Map<
    u32,
    (TransactionStatus, int),
> {
    statuses.map_values(|e: (TransactionStatus, i64)| (e.0, e.1 as int))
}

/// One customer's ledger: the state machine that the transactions of that
/// customer are replayed on.
pub struct Ledger {
    id: u32,
    available: i128,
    held: i128,
    locked: bool,
    statuses: HashMap<u32, (TransactionStatus, i64)>,
}

impl View for Ledger {
    type V = LedgerState;

    closed spec fn view(&self) -> LedgerState {
        LedgerState {
            id: self.id,
            available: self.available as int,
            held: self.held as int,
            locked: self.locked,
            statuses: widened(self.statuses@),
        }
    }
}

impl Ledger {
    #[verifier::type_invariant]
    spec fn well_formed(self) -> bool {
        self@.balanced()
    }

    /// A ledger for customer `id` with nothing on it.
    pub fn new(id: u32) -> (ledger: Ledger)
        ensures
            ledger@ == LedgerState::initial(id),
    {
        let statuses: HashMap<u32, (TransactionStatus, i64)> = HashMap::new();
        proof {
            assert(widened(statuses@) =~= Map::<u32, (TransactionStatus, int)>::empty());
            lemma_fresh_ledger(id);
        }
        Ledger { id, available: 0, held: 0, locked: false, statuses }
    }

    /// Replays one transaction: the ledger afterwards, and the rule that the
    /// transaction broke, if it broke one.
    pub fn apply(self, t: Transaction) -> (r: (Ledger, Option<ClientStatusError>))
        ensures
            r.0@ == self@.step(t),
            r.1 == self@.violation(t),
    {
        broadcast use vstd::std_specs::hash::group_hash_axioms;

        proof {
            use_type_invariant(&self);
            lemma_balanced_bounds(self@);
            lemma_step_balanced(self@, t);
        }
        if t.get_client() != self.id {
            let e = ClientStatusError::WrongClientId(self.id, t.get_client());
            return (self, Some(e));
        }
        let Ledger { id, available, held, locked, statuses } = self;
        let mut statuses = statuses;
        let ghost recorded = statuses@;
        match t {
            Transaction::Deposit { tx, amount, .. } => {
                if statuses.contains_key(&tx) {
                    (
                        Ledger { id, available, held, locked, statuses },
                        Some(ClientStatusError::DuplicatedTransaction(tx)),
                    )
                } else if amount > -50 {
                    statuses.insert(tx, (TransactionStatus::Deposited, amount));
                    proof {
                        lemma_widened_insert(recorded, tx, TransactionStatus::Deposited, amount);
                    }
                    (
                        Ledger { id, available: available + amount as i128, held, locked, statuses },
                        None,
                    )
                } else {
                    statuses.insert(tx, (TransactionStatus::FailedDeposit, 0));
                    proof {
                        lemma_widened_insert(recorded, tx, TransactionStatus::FailedDeposit, 0);
                    }
                    (
                        Ledger { id, available, held, locked, statuses },
                        Some(ClientStatusError::NegativeAmount(amount, tx)),
                    )
                }
            },
            Transaction::Withdrawal { tx, amount, client } => {
                if statuses.contains_key(&tx) {
                    (
                        Ledger { id, available, held, locked, statuses },
                        Some(ClientStatusError::DuplicatedTransaction(tx)),
                    )
                } else if !locked && amount as i128 - available < 50 && amount > -50 {
                    statuses.insert(tx, (TransactionStatus::Withdrew, -amount));
                    proof {
                        lemma_widened_insert(
                            recorded,
                            tx,
                            TransactionStatus::Withdrew,
                            (-amount) as i64,
                        );
                    }
                    (
                        Ledger { id, available: available - amount as i128, held, locked, statuses },
                        None,
                    )
                } else {
                    statuses.insert(tx, (TransactionStatus::FailedWithdrawal, 0));
                    proof {
                        lemma_widened_insert(recorded, tx, TransactionStatus::FailedWithdrawal, 0);
                    }
                    let e = if locked {
                        ClientStatusError::CustomerFrozen(client, tx)
                    } else if amount < 0 {
                        ClientStatusError::NegativeAmount(amount, tx)
                    } else {
                        ClientStatusError::InsufficientFounds(amount, tx, available)
                    };
                    (Ledger { id, available, held, locked, statuses }, Some(e))
                }
            },
            Transaction::Dispute { tx, .. } => {
                let found = lookup(&statuses, tx);
                match found {
                    Some((TransactionStatus::Deposited, v)) | Some((TransactionStatus::Resolved, v)) => {
                        statuses.insert(tx, (TransactionStatus::OnDispute, v));
                        proof {
                            lemma_widened_insert(recorded, tx, TransactionStatus::OnDispute, v);
                        }
                        (
                            Ledger {
                                id,
                                available: available - v as i128,
                                held: held + v as i128,
                                locked,
                                statuses,
                            },
                            None,
                        )
                    },
                    Some((status, _)) => (
                        Ledger { id, available, held, locked, statuses },
                        Some(ClientStatusError::InvalidStatusToStartDispute(tx, status)),
                    ),
                    None => (
                        Ledger { id, available, held, locked, statuses },
                        Some(ClientStatusError::NonExistingTransaction(tx)),
                    ),
                }
            },
            Transaction::Resolve { tx, .. } => {
                let found = lookup(&statuses, tx);
                match found {
                    Some((TransactionStatus::OnDispute, v)) => {
                        statuses.insert(tx, (TransactionStatus::Resolved, v));
                        proof {
                            lemma_widened_insert(recorded, tx, TransactionStatus::Resolved, v);
                        }
                        (
                            Ledger {
                                id,
                                available: available + v as i128,
                                held: held - v as i128,
                                locked,
                                statuses,
                            },
                            None,
                        )
                    },
                    Some((status, _)) => (
                        Ledger { id, available, held, locked, statuses },
                        Some(ClientStatusError::InvalidStatusToResolve(tx, status)),
                    ),
                    None => (
                        Ledger { id, available, held, locked, statuses },
                        Some(ClientStatusError::NonExistingTransaction(tx)),
                    ),
                }
            },
            Transaction::Chargeback { tx, .. } => {
                let found = lookup(&statuses, tx);
                match found {
                    Some((TransactionStatus::OnDispute, v)) => {
                        statuses.insert(tx, (TransactionStatus::Chargeback, v));
                        proof {
                            lemma_widened_insert(recorded, tx, TransactionStatus::Chargeback, v);
                        }
                        (
                            Ledger { id, available, held: held - v as i128, locked: true, statuses },
                            None,
                        )
                    },
                    Some((status, _)) => (
                        Ledger { id, available, held, locked, statuses },
                        Some(ClientStatusError::InvalidStatusToChargeback(tx, status)),
                    ),
                    None => (
                        Ledger { id, available, held, locked, statuses },
                        Some(ClientStatusError::NonExistingTransaction(tx)),
                    ),
                }
            },
        }
    }

    /// What is reported of the ledger as it stands.
    pub fn snapshot(&self) -> (status: ClientStatus)
        ensures
            status == self@.snapshot(),
    {
        proof {
            use_type_invariant(self);
            lemma_balanced_bounds(self@);
        }
        ClientStatus {
            id: self.id,
            available: round(self.available),
            held: round(self.held),
            total: round(self.available + self.held),
            locked: self.locked,
        }
    }
}

/// The status and amount recorded for `tx`, if it is recorded.
fn lookup(statuses: &HashMap<u32, (TransactionStatus, i64)>, tx: u32) -> (found: Option<
    (TransactionStatus, i64),
>)
    ensures
        found == if statuses@.contains_key(tx) {
            Some(statuses@[tx])
        } else {
            None
        },
{
    broadcast use vstd::std_specs::hash::group_hash_axioms;

    match statuses.get(&tx) {
        Some(e) => Some(*e),
        None => None,
    }
}

/// On a fresh ledger the balances add up from the recorded transactions,
/// there being none, and everything lies on the grid.
pub proof fn lemma_fresh_ledger(id: u32)
    ensures
        LedgerState::initial(id).balanced(),
        LedgerState::initial(id).on_grid(),
{
    lemma_sum_empty(false, id_space());
    lemma_sum_empty(true, id_space());
    lemma_multiple_on_grid(0);
}

/// One transaction keeps the balances equal to what the recorded
/// transactions add up to.
pub proof fn lemma_step_balanced(s: LedgerState, t: Transaction)
    requires
        s.balanced(),
    ensures
        s.step(t).balanced(),
{
    let r = s.step(t);
    if r != s {
        let tx = t.tx_spec();
        assert(r.statuses == s.statuses.insert(tx, r.statuses[tx]));
        lemma_sum_insert(s.statuses, tx, r.statuses[tx], false, id_space());
        lemma_sum_insert(s.statuses, tx, r.statuses[tx], true, id_space());
        assert(s.statuses.contains_key(tx) ==> i64::MIN <= s.statuses[tx].1 <= i64::MAX);
    }
}

/// Balances that add up from recorded transactions stay far inside the
/// range of a signed 128-bit integer: below 2^95 in magnitude.
pub proof fn lemma_balanced_bounds(s: LedgerState)
    requires
        s.balanced(),
    ensures
        -0x8000_0000_0000_0000_0000_0000 <= s.available <= 0x8000_0000_0000_0000_0000_0000,
        -0x8000_0000_0000_0000_0000_0000 <= s.held <= 0x8000_0000_0000_0000_0000_0000,
{
    lemma_sum_bound(s.statuses, false, id_space());
    lemma_sum_bound(s.statuses, true, id_space());
}

proof fn lemma_sum_insert(
    statuses: Map<u32, (TransactionStatus, int)>,
    tx: u32,
    e: (TransactionStatus, int),
    held: bool,
    n: nat,
)
    requires
        n <= id_space(),
    ensures
        sum_below(statuses.insert(tx, e), held, n) == sum_below(statuses, held, n) + if tx < n {
            share(statuses.insert(tx, e), tx, held) - share(statuses, tx, held)
        } else {
            0
        },
    decreases n,
{
    if n > 0 {
        lemma_sum_insert(statuses, tx, e, held, (n - 1) as nat);
    }
}

proof fn lemma_sum_bound(statuses: Map<u32, (TransactionStatus, int)>, held: bool, n: nat)
    requires
        n <= id_space(),
        forall|tx: u32| #[trigger]
            statuses.contains_key(tx) ==> i64::MIN <= statuses[tx].1 <= i64::MAX,
    ensures
        -(n * 0x8000_0000_0000_0000) <= sum_below(statuses, held, n) <= n * 0x8000_0000_0000_0000,
    decreases n,
{
    if n > 0 {
        lemma_sum_bound(statuses, held, (n - 1) as nat);
    }
}

proof fn lemma_sum_empty(held: bool, n: nat)
    ensures
        sum_below(Map::empty(), held, n) == 0,
    decreases n,
{
    if n > 0 {
        lemma_sum_empty(held, (n - 1) as nat);
    }
}

proof fn lemma_widened_insert(
    statuses: Map<u32, (TransactionStatus, i64)>,
    tx: u32,
    status: TransactionStatus,
    amount: i64,
)
    ensures
        widened(statuses.insert(tx, (status, amount))) == widened(statuses).insert(
            tx,
            (status, amount as int),
        ),
{
    assert(widened(statuses.insert(tx, (status, amount))) =~= widened(statuses).insert(
        tx,
        (status, amount as int),
    ));
}

} // verus!

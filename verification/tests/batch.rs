use payments_engine::client_status::{ClientStatus, ClientStatusError};
use payments_engine::transaction::{RawTransaction, Transaction, TransactionParseError};
use payments_engine::dispatch::{dispatch, Delivery, Dispatcher};
use payments_engine::{execute_transactions, process_transactions, BatchError};

fn units(amount: f32) -> i64 {
    (amount as f64 * 1_000_000.0).round() as i64
}

fn balance(amount: f32) -> i128 {
    units(amount) as i128
}

fn records(table: &str) -> Vec<RawTransaction> {
    let mut reader = csv::ReaderBuilder::new()
        .has_headers(true)
        .trim(csv::Trim::All)
        .from_reader(table.as_bytes());
    let mut records = vec![];
    for row in reader.records() {
        let row = row.unwrap();
        records.push(RawTransaction {
            transaction_type: row[0].to_owned(),
            client: row[1].parse().unwrap(),
            tx: row[2].parse().unwrap(),
            amount: units(row[3].parse().unwrap()),
        });
    }
    records
}

fn test_result(transactions: &str, expected_results: Vec<ClientStatus>, expected_errors: Vec<BatchError>) {
    let (mut result, errors) = execute_transactions(records(transactions));
    result.sort_by(|a, b| a.id.cmp(&b.id));
    assert_eq!(expected_results, result);
    assert_eq!(expected_errors.len(), errors.len());
    for (e1, e2) in expected_errors.iter().zip(&errors) {
        assert_eq!(e1.to_string(), e2.to_string())
    }
}

#[test]
fn test_process_transactions() {
    test_result(
        "type, client,tx,amount\ndeposit, 1,1,1.0\ndeposit,2,2,2.0\ndeposit,1,3,2.0\nwithdrawal,1,4,1.5\nwithdrawal,2,5,3.0",
        vec![
            ClientStatus { id: 1, available: balance(1.5), held: balance(0.0), total: balance(1.5), locked: false },
            ClientStatus { id: 2, available: balance(2.0), held: balance(0.0), total: balance(2.0), locked: false }
        ],
        vec![BatchError::Ledger(ClientStatusError::InsufficientFounds(units(3f32), 5, balance(2f32)))]
    );
}

#[test]
fn test_process_transaction_with_wrong_transaction_types() {
    test_result(
        "type, client,tx,amount\ndeposit, 1,1,1.0\ndeposit,2,2,2.0\ndeposit,1,3,2.0\nwithdrawal,1,4,1.5\nwithdrawal42,2,5,3.0",
        vec![
            ClientStatus { id: 1, available: balance(1.5), held: balance(0.0), total: balance(1.5), locked: false },
            ClientStatus { id: 2, available: balance(2.0), held: balance(0.0), total: balance(2.0), locked: false }
        ],
        vec![BatchError::Parse(TransactionParseError::InvalidTransactionType("withdrawal42".to_string()))]
    );
}

fn record(kind: &str, client: u32, tx: u32, amount: i64) -> RawTransaction {
    RawTransaction { transaction_type: kind.to_owned(), client, tx, amount }
}

#[test]
fn queues_keep_the_order_of_the_batch() {
    let (queues, errors) = process_transactions(vec![
        record("deposit", 2, 1, 1_000_000),
        record("deposit", 1, 2, 2_000_000),
        record("bogus", 9, 3, 0),
        record("withdrawal", 2, 4, 500_049),
        record("dispute", 1, 2, 0),
        record("deposit", 3, 5, 7_000_050),
        record("resolve", 2, 1, 0),
    ]);
    assert_eq!(errors, vec![BatchError::Parse(TransactionParseError::InvalidTransactionType("bogus".to_owned()))]);
    assert_eq!(queues.len(), 3);
    assert_eq!(queues[0].client, 2);
    assert_eq!(queues[0].transactions, vec![
        Transaction::Deposit { client: 2, tx: 1, amount: 1_000_000 },
        Transaction::Withdrawal { client: 2, tx: 4, amount: 500_000 },
        Transaction::Resolve { client: 2, tx: 1 },
    ]);
    assert_eq!(queues[1].client, 1);
    assert_eq!(queues[1].transactions, vec![
        Transaction::Deposit { client: 1, tx: 2, amount: 2_000_000 },
        Transaction::Dispute { client: 1, tx: 2 },
    ]);
    assert_eq!(queues[2].client, 3);
    assert_eq!(queues[2].transactions, vec![Transaction::Deposit { client: 3, tx: 5, amount: 7_000_100 }]);
}

#[test]
fn one_status_per_customer() {
    let (statuses, errors) = execute_transactions(vec![
        record("deposit", 5, 1, 1_000_000),
        record("deposit", 3, 2, 1_000_000),
        record("deposit", 5, 3, 1_000_000),
        record("dispute", 8, 3, 0),
        record("deposit", 3, 4, 1_000_000),
        record("nothing", 11, 4, 1_000_000),
    ]);
    let ids: Vec<u32> = statuses.iter().map(|s| s.id).collect();
    assert_eq!(ids, vec![5, 3, 8]);
    assert_eq!(statuses[2], ClientStatus { id: 8, available: 0, held: 0, total: 0, locked: false });
    assert_eq!(errors, vec![
        BatchError::Parse(TransactionParseError::InvalidTransactionType("nothing".to_owned())),
        BatchError::Ledger(ClientStatusError::NonExistingTransaction(3)),
    ]);
}

#[test]
fn empty_batch() {
    let (statuses, errors) = execute_transactions(vec![]);
    assert!(statuses.is_empty());
    assert!(errors.is_empty());
}

#[test]
fn errors_come_customer_by_customer() {
    let (statuses, errors) = execute_transactions(vec![
        record("withdrawal", 1, 1, 1_000_000),
        record("withdrawal", 2, 2, 2_000_000),
        record("deposit", 1, 1, 3_000_000),
        record("chargeback", 2, 7, 0),
    ]);
    assert_eq!(statuses.len(), 2);
    assert_eq!(errors, vec![
        BatchError::Ledger(ClientStatusError::InsufficientFounds(1_000_000, 1, 0)),
        BatchError::Ledger(ClientStatusError::DuplicatedTransaction(1)),
        BatchError::Ledger(ClientStatusError::InsufficientFounds(2_000_000, 2, 0)),
        BatchError::Ledger(ClientStatusError::NonExistingTransaction(7)),
    ]);
    assert_eq!(errors[3].to_string(), "Transaction 7 could not complete");
}

#[test]
fn totals_add_up_for_parsed_batches() {
    let (statuses, _) = execute_transactions(vec![
        record("deposit", 1, 1, 40),
        record("deposit", 1, 2, 1_000_060),
        record("dispute", 1, 2, 0),
        record("deposit", 2, 3, 149),
    ]);
    assert_eq!(statuses, vec![
        ClientStatus { id: 1, available: 0, held: 1_000_100, total: 1_000_100, locked: false },
        ClientStatus { id: 2, available: 100, held: 0, total: 100, locked: false },
    ]);
    for s in statuses {
        assert_eq!(s.total, s.available + s.held);
    }
}

#[test]
fn dispute_then_chargeback_freezes() {
    let table = "type,client,tx,amount\ndeposit,1,1,1.0\ndeposit,1,3,2.0\nwithdrawal,1,4,1.5\ndispute,1,1,0\nchargeback,1,1,0\nwithdrawal,1,5,0.5\ndeposit,1,6,2.0";
    test_result(
        table,
        vec![ClientStatus { id: 1, available: balance(2.5), held: 0, total: balance(2.5), locked: true }],
        vec![BatchError::Ledger(ClientStatusError::CustomerFrozen(1, 5))],
    );
}

#[test]
fn dispatcher_routes_by_customer() {
    let dispatcher = Dispatcher::new();
    let (dispatcher, first) = dispatcher.route(7);
    assert_eq!(first, Delivery { queue: 0, opened: true });
    let (dispatcher, second) = dispatcher.route(3);
    assert_eq!(second, Delivery { queue: 1, opened: true });
    let (dispatcher, again) = dispatcher.route(7);
    assert_eq!(again, Delivery { queue: 0, opened: false });
    let (dispatcher, third) = dispatcher.route(0);
    assert_eq!(third, Delivery { queue: 2, opened: true });
    let (_, last) = dispatcher.route(3);
    assert_eq!(last, Delivery { queue: 1, opened: false });
}

#[test]
fn dispatch_sorts_by_customer() {
    let a = Transaction::Deposit { client: 9, tx: 1, amount: 100 };
    let b = Transaction::Dispute { client: 4, tx: 2 };
    let c = Transaction::Withdrawal { client: 9, tx: 3, amount: 100 };
    let queues = dispatch(&vec![a, b, c]);
    assert_eq!(queues.len(), 2);
    assert_eq!((queues[0].client, &queues[0].transactions), (9, &vec![a, c]));
    assert_eq!((queues[1].client, &queues[1].transactions), (4, &vec![b]));
    assert!(dispatch(&vec![]).is_empty());
}

#[test]
fn batch_agrees_with_replaying_each_customer_alone() {
    let batch = vec![
        record("deposit", 1, 1, 10_000_000),
        record("deposit", 2, 2, 5_000_000),
        record("withdrawal", 1, 3, 2_500_000),
        record("dispute", 2, 2, 0),
        record("withdrawal", 2, 4, 1_000_000),
        record("deposit", 3, 5, 1_230_000),
        record("chargeback", 2, 2, 0),
        record("dispute", 1, 1, 0),
        record("resolve", 1, 1, 0),
        record("withdrawal", 3, 5, 1_000_000),
    ];
    let mut transactions = vec![];
    for r in &batch {
        let copy = record(&r.transaction_type, r.client, r.tx, r.amount);
        transactions.push(copy.try_into().unwrap());
    }
    let (statuses, errors) = execute_transactions(batch);
    assert_eq!(statuses.len(), 3);
    let mut ledger_errors = vec![];
    for status in &statuses {
        // the whole batch on one ledger: what is not the customer's is refused
        let (alone, all) = payments_engine::client_status::build(status.id, &transactions);
        assert_eq!(&alone, status);
        for e in all {
            if !matches!(e, ClientStatusError::WrongClientId(_, _)) {
                ledger_errors.push(BatchError::Ledger(e));
            }
        }
    }
    assert_eq!(errors, ledger_errors);
    assert_eq!(statuses[0], ClientStatus { id: 1, available: 7_500_000, held: 0, total: 7_500_000, locked: false });
    assert_eq!(statuses[1], ClientStatus { id: 2, available: 0, held: 0, total: 0, locked: true });
    assert_eq!(statuses[2], ClientStatus { id: 3, available: 1_230_000, held: 0, total: 1_230_000, locked: false });
}

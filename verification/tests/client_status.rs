use payments_engine::client_status::{build, ClientStatus, ClientStatusError};
use payments_engine::ledger::Ledger;
use payments_engine::transaction::{Transaction, TransactionStatus};

fn units(amount: f32) -> i64 {
    (amount as f64 * 1_000_000.0).round() as i64
}

fn balance(amount: f32) -> i128 {
    units(amount) as i128
}

fn test_successful_transaction(
    client_id: u32,
    transactions: Vec<Transaction>,
    client_status: ClientStatus,
) {
    let (result, errors) = build(client_id, &transactions);
    assert!(errors.is_empty());
    assert_eq!(result, client_status);
}

fn test_transaction_with_errors(
    client_id: u32,
    transactions: Vec<Transaction>,
    client_status: ClientStatus,
    expected_errors: Vec<ClientStatusError>,
) {
    let (result, errors) = build(client_id, &transactions);
    assert_eq!(result, client_status);
    assert_eq!(errors.len(), expected_errors.len());
    for (e1, e2) in errors.iter().zip(expected_errors.iter()) {
        assert_eq!(e1.to_string(), e2.to_string());
        assert_eq!(e1, e2);
    }
}

#[test]
fn four_point_precision() {
    let transactions = vec![
        Transaction::Deposit { client: 1, tx: 1, amount: units(1.123123f32) },
        Transaction::Deposit { client: 1, tx: 3, amount: units(2.111111f32) },
        Transaction::Withdrawal { client: 1, tx: 4, amount: units(1.222222f32) },
    ];
    test_successful_transaction(1, transactions, ClientStatus {
        id: 1,
        available: balance(2.012f32),
        held: balance(0f32),
        total: balance(2.012f32),
        locked: false,
    });
}

#[test]
fn test_deposit_and_withdrawal_without_failed_withdrawal() {
    let transactions = vec![
        Transaction::Deposit { client: 1, tx: 1, amount: units(1f32) },
        Transaction::Deposit { client: 1, tx: 3, amount: units(2f32) },
        Transaction::Withdrawal { client: 1, tx: 4, amount: units(1.5f32) },
    ];
    test_successful_transaction(1, transactions, ClientStatus {
        id: 1,
        available: balance(1.5f32),
        held: balance(0f32),
        total: balance(1.5f32),
        locked: false,
    });
}

#[test]
fn test_deposit_and_withdrawal_with_failed_withdrawal() {
    let transactions = vec![
        Transaction::Deposit { client: 2, tx: 2, amount: units(2f32) },
        Transaction::Withdrawal { client: 2, tx: 5, amount: units(3f32) },
    ];
    test_transaction_with_errors(2, transactions, ClientStatus {
        id: 2,
        available: balance(2f32),
        held: balance(0f32),
        total: balance(2f32),
        locked: false,
    }, vec![ClientStatusError::InsufficientFounds(units(3f32), 5, balance(2f32))]);
}

#[test]
fn test_negative_deposit() {
    let transactions = vec![
        Transaction::Deposit { client: 2, tx: 2, amount: units(2f32) },
        Transaction::Deposit { client: 2, tx: 5, amount: units(-3f32) },
    ];
    test_transaction_with_errors(2, transactions, ClientStatus {
        id: 2,
        available: balance(2f32),
        held: balance(0f32),
        total: balance(2f32),
        locked: false,
    }, vec![ClientStatusError::NegativeAmount(units(-3f32), 5)]);
}

#[test]
fn test_negative_withdrawal() {
    let transactions = vec![
        Transaction::Deposit { client: 2, tx: 2, amount: units(2f32) },
        Transaction::Withdrawal { client: 2, tx: 5, amount: units(-3f32) },
    ];
    test_transaction_with_errors(2, transactions, ClientStatus {
        id: 2,
        available: balance(2f32),
        held: balance(0f32),
        total: balance(2f32),
        locked: false,
    }, vec![ClientStatusError::NegativeAmount(units(-3f32), 5)]);
}

#[test]
fn test_it_only_process_relevant_client() {
    let transactions = vec![
        Transaction::Deposit { client: 2, tx: 2, amount: units(2f32) },
        Transaction::Withdrawal { client: 2, tx: 5, amount: units(3f32) },
    ];
    test_transaction_with_errors(1, transactions, ClientStatus {
        id: 1,
        available: balance(0.0),
        held: balance(0.0),
        total: balance(0.0),
        locked: false
    }, vec![ClientStatusError::WrongClientId(1, 2), ClientStatusError::WrongClientId(1, 2)]);
}

#[test]
fn test_transactions_are_unique() {
    let transactions = vec![
        Transaction::Deposit { client: 2, tx: 2, amount: units(2f32) },
        Transaction::Withdrawal { client: 2, tx: 5, amount: units(1f32) },
        Transaction::Deposit { client: 2, tx: 2, amount: units(2f32) },
        Transaction::Withdrawal { client: 2, tx: 5, amount: units(3f32) },
    ];
    test_transaction_with_errors(2, transactions, ClientStatus {
        id: 2,
        available: balance(1.0),
        held: balance(0.0),
        total: balance(1.0),
        locked: false
    }, vec![ClientStatusError::DuplicatedTransaction(2), ClientStatusError::DuplicatedTransaction(5)]);
}

#[test]
fn test_dispute_puts_funds_on_hold() {
    let transactions = vec![
        Transaction::Deposit { client: 1, tx: 1, amount: units(1f32) },
        Transaction::Deposit { client: 1, tx: 3, amount: units(2f32) },
        Transaction::Withdrawal { client: 1, tx: 4, amount: units(1.5f32) },
        Transaction::Dispute { client: 1, tx: 1, },
    ];
    test_successful_transaction(1, transactions, ClientStatus {
        id: 1,
        available: balance(0.5f32),
        held: balance(1f32),
        total: balance(1.5f32),
        locked: false,
    });
}

#[test]
fn test_dispute_resolve_and_chargeback_on_non_dispute_tx_do_nothing() {
    let transactions = vec![
        Transaction::Deposit { client: 1, tx: 1, amount: units(1f32) },
        Transaction::Deposit { client: 1, tx: 3, amount: units(2f32) },
        Transaction::Withdrawal { client: 1, tx: 4, amount: units(1.5f32) },
        Transaction::Chargeback { client: 1, tx: 1, },
        Transaction::Resolve { client: 1, tx: 1, },
    ];
    test_transaction_with_errors(1, transactions, ClientStatus {
        id: 1,
        available: balance(1.5f32),
        held: balance(0f32),
        total: balance(1.5f32),
        locked: false,
    }, vec![ClientStatusError::InvalidStatusToChargeback(1, TransactionStatus::Deposited), ClientStatusError::InvalidStatusToResolve(1, TransactionStatus::Deposited)]);
}

#[test]
fn test_dispute_resolve_makes_funds_available() {
    let transactions = vec![
        Transaction::Deposit { client: 1, tx: 1, amount: units(1f32) },
        Transaction::Deposit { client: 1, tx: 3, amount: units(2f32) },
        Transaction::Withdrawal { client: 1, tx: 4, amount: units(1.5f32) },
        Transaction::Dispute { client: 1, tx: 1, },
        Transaction::Resolve { client: 1, tx: 1, },
    ];
    test_successful_transaction(1, transactions, ClientStatus {
        id: 1,
        available: balance(1.5f32),
        held: balance(0f32),
        total: balance(1.5f32),
        locked: false,
    });
}

#[test]
fn test_dispute_resolve_makes_funds_available_with_duplicate_resolves() {
    let transactions = vec![
        Transaction::Deposit { client: 1, tx: 1, amount: units(1f32) },
        Transaction::Deposit { client: 1, tx: 3, amount: units(2f32) },
        Transaction::Withdrawal { client: 1, tx: 4, amount: units(1.5f32) },
        Transaction::Dispute { client: 1, tx: 1, },
        Transaction::Resolve { client: 1, tx: 1, },
        Transaction::Dispute { client: 1, tx: 1, },
        Transaction::Resolve { client: 1, tx: 1, },
    ];
    test_successful_transaction(1, transactions, ClientStatus {
        id: 1,
        available: balance(1.5f32),
        held: balance(0f32),
        total: balance(1.5f32),
        locked: false,
    });
}

#[test]
fn test_dispute_chargeback_freezes_and_removes_funds() {
    let transactions = vec![
        Transaction::Deposit { client: 1, tx: 1, amount: units(1f32) },
        Transaction::Deposit { client: 1, tx: 3, amount: units(2f32) },
        Transaction::Withdrawal { client: 1, tx: 4, amount: units(1.5f32) },
        Transaction::Dispute { client: 1, tx: 1, },
        Transaction::Chargeback { client: 1, tx: 1, },
    ];
    test_successful_transaction(1, transactions, ClientStatus {
        id: 1,
        available: balance(0.5f32),
        held: balance(0f32),
        total: balance(0.5f32),
        locked: true,
    });
}

#[test]
fn test_frozen_account_can_deposit_and_not_withdraw() {
    let transactions = vec![
        Transaction::Deposit { client: 1, tx: 1, amount: units(1f32) },
        Transaction::Deposit { client: 1, tx: 3, amount: units(2f32) },
        Transaction::Withdrawal { client: 1, tx: 4, amount: units(1.5f32) },
        Transaction::Dispute { client: 1, tx: 1, },
        Transaction::Chargeback { client: 1, tx: 1, },
        Transaction::Withdrawal { client: 1, tx: 5, amount: units(0.5f32) },
        Transaction::Deposit { client: 1, tx: 6, amount: units(2f32) },
    ];
    test_transaction_with_errors(1, transactions, ClientStatus {
        id: 1,
        available: balance(2.5f32),
        held: balance(0f32),
        total: balance(2.5f32),
        locked: true,
    }, vec![ClientStatusError::CustomerFrozen(1, 5)]);
}

#[test]
fn dispute_on_withdrawal_is_invalid() {
    let transactions = vec![
        Transaction::Deposit { client: 1, tx: 1, amount: 5_000_000 },
        Transaction::Withdrawal { client: 1, tx: 2, amount: 2_000_000 },
        Transaction::Dispute { client: 1, tx: 2 },
    ];
    test_transaction_with_errors(1, transactions, ClientStatus {
        id: 1,
        available: 3_000_000,
        held: 0,
        total: 3_000_000,
        locked: false,
    }, vec![ClientStatusError::InvalidStatusToStartDispute(2, TransactionStatus::Withdrew)]);
}

#[test]
fn claims_on_unknown_transactions_are_reported() {
    let transactions = vec![
        Transaction::Dispute { client: 1, tx: 9 },
        Transaction::Resolve { client: 1, tx: 9 },
        Transaction::Chargeback { client: 1, tx: 9 },
    ];
    test_transaction_with_errors(1, transactions, ClientStatus {
        id: 1,
        available: 0,
        held: 0,
        total: 0,
        locked: false,
    }, vec![
        ClientStatusError::NonExistingTransaction(9),
        ClientStatusError::NonExistingTransaction(9),
        ClientStatusError::NonExistingTransaction(9),
    ]);
}

#[test]
fn charged_back_transaction_is_closed() {
    let opening = vec![
        Transaction::Deposit { client: 1, tx: 1, amount: 1_000_000 },
        Transaction::Deposit { client: 1, tx: 2, amount: 4_000_000 },
        Transaction::Dispute { client: 1, tx: 1 },
        Transaction::Chargeback { client: 1, tx: 1 },
    ];
    let (closed, none) = build(1, &opening);
    assert!(none.is_empty());
    let mut longer = opening.clone();
    longer.push(Transaction::Dispute { client: 1, tx: 1 });
    longer.push(Transaction::Resolve { client: 1, tx: 1 });
    longer.push(Transaction::Chargeback { client: 1, tx: 1 });
    let (after, errors) = build(1, &longer);
    assert_eq!(after, closed);
    assert_eq!(after, ClientStatus { id: 1, available: 4_000_000, held: 0, total: 4_000_000, locked: true });
    assert_eq!(errors, vec![
        ClientStatusError::InvalidStatusToStartDispute(1, TransactionStatus::Chargeback),
        ClientStatusError::InvalidStatusToResolve(1, TransactionStatus::Chargeback),
        ClientStatusError::InvalidStatusToChargeback(1, TransactionStatus::Chargeback),
    ]);
}

#[test]
fn disputed_deposit_that_was_spent_makes_available_negative() {
    let transactions = vec![
        Transaction::Deposit { client: 1, tx: 1, amount: 3_000_000 },
        Transaction::Withdrawal { client: 1, tx: 2, amount: 2_000_000 },
        Transaction::Dispute { client: 1, tx: 1 },
    ];
    test_successful_transaction(1, transactions, ClientStatus {
        id: 1,
        available: -2_000_000,
        held: 3_000_000,
        total: 1_000_000,
        locked: false,
    });
}

#[test]
fn amounts_within_half_a_step_count_as_equal() {
    // a deposit of minus 49 millionths counts as a deposit of zero
    let (status, errors) = build(1, &[Transaction::Deposit { client: 1, tx: 1, amount: -49 }]);
    assert!(errors.is_empty());
    assert_eq!(status, ClientStatus { id: 1, available: 0, held: 0, total: 0, locked: false });
    // one of minus 50 millionths is negative
    let (_, errors) = build(1, &[Transaction::Deposit { client: 1, tx: 1, amount: -50 }]);
    assert_eq!(errors, vec![ClientStatusError::NegativeAmount(-50, 1)]);
    // a withdrawal may exceed the balance by less than half a step
    let (status, errors) = build(1, &[
        Transaction::Deposit { client: 1, tx: 1, amount: 1_000_000 },
        Transaction::Withdrawal { client: 1, tx: 2, amount: 1_000_049 },
    ]);
    assert!(errors.is_empty());
    assert_eq!(status, ClientStatus { id: 1, available: 0, held: 0, total: 0, locked: false });
    let (status, errors) = build(1, &[
        Transaction::Deposit { client: 1, tx: 1, amount: 1_000_000 },
        Transaction::Withdrawal { client: 1, tx: 2, amount: 1_000_050 },
    ]);
    assert_eq!(errors, vec![ClientStatusError::InsufficientFounds(1_000_050, 2, 1_000_000)]);
    assert_eq!(status.available, 1_000_000);
}

#[test]
fn total_is_rounded_from_the_unrounded_sum() {
    // 40 millionths available and 40 held: each rounds to zero, their sum to one step
    let (status, errors) = build(1, &[
        Transaction::Deposit { client: 1, tx: 1, amount: 40 },
        Transaction::Deposit { client: 1, tx: 2, amount: 40 },
        Transaction::Dispute { client: 1, tx: 1 },
    ]);
    assert!(errors.is_empty());
    assert_eq!(status, ClientStatus { id: 1, available: 0, held: 0, total: 100, locked: false });
}

#[test]
fn ledger_step_by_step() {
    let ledger = Ledger::new(7);
    assert_eq!(ledger.snapshot(), ClientStatus { id: 7, available: 0, held: 0, total: 0, locked: false });
    let (ledger, e) = ledger.apply(Transaction::Deposit { client: 7, tx: 1, amount: 2_500_000 });
    assert_eq!(e, None);
    let (ledger, e) = ledger.apply(Transaction::Deposit { client: 8, tx: 2, amount: 2_500_000 });
    assert_eq!(e, Some(ClientStatusError::WrongClientId(7, 8)));
    let (ledger, e) = ledger.apply(Transaction::Dispute { client: 7, tx: 1 });
    assert_eq!(e, None);
    assert_eq!(ledger.snapshot(), ClientStatus { id: 7, available: 0, held: 2_500_000, total: 2_500_000, locked: false });
    let (ledger, e) = ledger.apply(Transaction::Resolve { client: 7, tx: 1 });
    assert_eq!(e, None);
    let (ledger, e) = ledger.apply(Transaction::Resolve { client: 7, tx: 1 });
    assert_eq!(e, Some(ClientStatusError::InvalidStatusToResolve(1, TransactionStatus::Resolved)));
    assert_eq!(ledger.snapshot(), ClientStatus { id: 7, available: 2_500_000, held: 0, total: 2_500_000, locked: false });
}

#[test]
fn errors_in_words() {
    assert_eq!(
        ClientStatusError::WrongClientId(1, 2).to_string(),
        "Builder expected transactions for client 1, but got one for client 2"
    );
    assert_eq!(ClientStatusError::DuplicatedTransaction(42).to_string(), "Transaction ID 42 not unique");
    assert_eq!(
        ClientStatusError::NegativeAmount(-3_000_000, 5).to_string(),
        "Negative amount -3 in transaction 5"
    );
    assert_eq!(
        ClientStatusError::InsufficientFounds(3_000_000, 5, 2_500_000).to_string(),
        "Not enough founds to withdraw 3 during transaction 5, with available founds 2.5"
    );
    assert_eq!(
        ClientStatusError::CustomerFrozen(1, 5).to_string(),
        "Customer 1 is frozen and cannot perform withdraw transaction 5"
    );
    assert_eq!(
        ClientStatusError::NonExistingTransaction(4294967295).to_string(),
        "Transaction 4294967295 could not complete"
    );
    assert_eq!(
        ClientStatusError::InvalidStatusToStartDispute(2, TransactionStatus::Withdrew).to_string(),
        "Cannot start a dispute on transaction 2 while being on status Withdrew"
    );
    assert_eq!(
        ClientStatusError::InvalidStatusToResolve(2, TransactionStatus::Deposited).to_string(),
        "Cannot resolve a dispute on transaction 2 while being on status Deposited"
    );
    assert_eq!(
        ClientStatusError::InvalidStatusToChargeback(2, TransactionStatus::Resolved).to_string(),
        "Cannot chargeback a dispute on transaction 2 while being on status Resolved"
    );
}

#[test]
fn status_as_record() {
    let status = ClientStatus { id: 1, available: 2_012_000, held: 0, total: 2_012_000, locked: false };
    assert_eq!(status.to_record(), vec!["1", "2.012", "0", "2.012", "false"]);
    let status = ClientStatus { id: 20, available: -500_000, held: 1_500_000, total: 1_000_000, locked: true };
    assert_eq!(status.to_record(), vec!["20", "-0.5", "1.5", "1", "true"]);
}

use payment_engine::amount::Amount;
use payment_engine::engine::PaymentEngine;
use payment_engine::error::PaymentEngineError;
use payment_engine::models::{Transaction, TransactionType};
use std::collections::HashMap;

fn dec(mantissa: i64, scale: u32) -> Amount {
    Amount::new(mantissa, scale)
}

fn create_deposit(client: u16, tx: u32, amount: Amount) -> Transaction {
    Transaction { transaction_type: TransactionType::Deposit, client, tx, amount: Some(amount) }
}

fn create_withdrawal(client: u16, tx: u32, amount: Amount) -> Transaction {
    Transaction { transaction_type: TransactionType::Withdrawal, client, tx, amount: Some(amount) }
}

fn create_dispute(client: u16, tx: u32) -> Transaction {
    Transaction { transaction_type: TransactionType::Dispute, client, tx, amount: None }
}

fn create_resolve(client: u16, tx: u32) -> Transaction {
    Transaction { transaction_type: TransactionType::Resolve, client, tx, amount: None }
}

fn create_chargeback(client: u16, tx: u32) -> Transaction {
    Transaction { transaction_type: TransactionType::Chargeback, client, tx, amount: None }
}

#[test]
fn test_deposit() {
    let mut engine = PaymentEngine::new();

    let tx = create_deposit(1, 1, dec(100, 0));
    engine.process_transaction(tx).unwrap();

    let accounts = engine.get_accounts();
    assert_eq!(accounts.len(), 1);
    assert_eq!(accounts[0].client, 1);
    assert_eq!(accounts[0].available, dec(100, 0));
    assert_eq!(accounts[0].total, dec(100, 0));
}

#[test]
fn test_withdrawal() {
    let mut engine = PaymentEngine::new();
    engine.process_transaction(create_deposit(1, 1, dec(100, 0))).unwrap();
    engine.process_transaction(create_withdrawal(1, 2, dec(30, 0))).unwrap();

    let accounts = engine.get_accounts();
    assert_eq!(accounts.len(), 1);
    assert_eq!(accounts[0].available, dec(70, 0));
    assert_eq!(accounts[0].total, dec(70, 0));
}

#[test]
fn test_insufficient_funds_withdrawal() {
    let mut engine = PaymentEngine::new();
    engine.process_transaction(create_deposit(1, 1, dec(50, 0))).unwrap();
    engine.process_transaction(create_withdrawal(1, 2, dec(75, 0))).unwrap();

    let accounts = engine.get_accounts();
    assert_eq!(accounts.len(), 1);
    assert_eq!(accounts[0].available, dec(50, 0));
    assert_eq!(accounts[0].total, dec(50, 0));
}

#[test]
fn test_dispute() {
    let mut engine = PaymentEngine::new();
    engine.process_transaction(create_deposit(1, 1, dec(100, 0))).unwrap();
    engine.process_transaction(create_dispute(1, 1)).unwrap();

    let accounts = engine.get_accounts();
    assert_eq!(accounts.len(), 1);
    assert_eq!(accounts[0].available, dec(0, 0));
    assert_eq!(accounts[0].held, dec(100, 0));
    assert_eq!(accounts[0].total, dec(100, 0));
}

#[test]
fn test_resolve() {
    let mut engine = PaymentEngine::new();
    engine.process_transaction(create_deposit(1, 1, dec(100, 0))).unwrap();
    engine.process_transaction(create_dispute(1, 1)).unwrap();
    engine.process_transaction(create_resolve(1, 1)).unwrap();

    let accounts = engine.get_accounts();
    assert_eq!(accounts.len(), 1);
    assert_eq!(accounts[0].available, dec(100, 0));
    assert_eq!(accounts[0].held, dec(0, 0));
    assert_eq!(accounts[0].total, dec(100, 0));
}

#[test]
fn test_chargeback() {
    let mut engine = PaymentEngine::new();
    engine.process_transaction(create_deposit(1, 1, dec(100, 0))).unwrap();
    engine.process_transaction(create_dispute(1, 1)).unwrap();
    engine.process_transaction(create_chargeback(1, 1)).unwrap();

    let accounts = engine.get_accounts();
    assert_eq!(accounts.len(), 1);
    assert_eq!(accounts[0].available, dec(0, 0));
    assert_eq!(accounts[0].held, dec(0, 0));
    assert_eq!(accounts[0].total, dec(0, 0));
    assert!(accounts[0].locked);
}

#[test]
fn test_locked_account() {
    let mut engine = PaymentEngine::new();
    engine.process_transaction(create_deposit(1, 1, dec(100, 0))).unwrap();
    engine.process_transaction(create_dispute(1, 1)).unwrap();
    engine.process_transaction(create_chargeback(1, 1)).unwrap();

    engine.process_transaction(create_deposit(1, 2, dec(50, 0))).unwrap();

    let accounts = engine.get_accounts();
    assert_eq!(accounts.len(), 1);
    assert_eq!(accounts[0].available, dec(0, 0));
    assert_eq!(accounts[0].total, dec(0, 0));
    assert!(accounts[0].locked);
}

#[test]
fn test_multiple_clients() {
    let mut engine = PaymentEngine::new();
    engine.process_transaction(create_deposit(1, 1, dec(100, 0))).unwrap();
    engine.process_transaction(create_withdrawal(1, 2, dec(20, 0))).unwrap();
    engine.process_transaction(create_deposit(2, 3, dec(200, 0))).unwrap();
    engine.process_transaction(create_withdrawal(2, 4, dec(50, 0))).unwrap();

    let accounts = engine.get_accounts();
    assert_eq!(accounts.len(), 2);

    let mut client_balances = HashMap::new();
    for account in accounts {
        client_balances.insert(account.client, (account.available, account.total));
    }

    assert_eq!(client_balances.get(&1), Some(&(dec(80, 0), dec(80, 0))));
    assert_eq!(client_balances.get(&2), Some(&(dec(150, 0), dec(150, 0))));
}

#[test]
fn test_dispute_non_existent_tx() {
    let mut engine = PaymentEngine::new();
    engine.process_transaction(create_deposit(1, 1, dec(100, 0))).unwrap();
    engine.process_transaction(create_dispute(1, 999)).unwrap();

    let accounts = engine.get_accounts();
    assert_eq!(accounts.len(), 1);
    assert_eq!(accounts[0].available, dec(100, 0));
    assert_eq!(accounts[0].held, dec(0, 0));
    assert_eq!(accounts[0].total, dec(100, 0));
}

#[test]
fn test_resolve_without_dispute() {
    let mut engine = PaymentEngine::new();
    engine.process_transaction(create_deposit(1, 1, dec(100, 0))).unwrap();
    engine.process_transaction(create_resolve(1, 1)).unwrap();

    let accounts = engine.get_accounts();
    assert_eq!(accounts.len(), 1);
    assert_eq!(accounts[0].available, dec(100, 0));
    assert_eq!(accounts[0].held, dec(0, 0));
    assert_eq!(accounts[0].total, dec(100, 0));
}

#[test]
fn test_client_mismatch() {
    let mut engine = PaymentEngine::new();
    engine.process_transaction(create_deposit(1, 1, dec(100, 0))).unwrap();
    engine.process_transaction(create_dispute(2, 1)).unwrap();

    let accounts = engine.get_accounts();
    let client1_account = accounts.iter().find(|a| a.client == 1).unwrap();
    assert_eq!(client1_account.available, dec(100, 0));
    assert_eq!(client1_account.held, dec(0, 0));
    assert_eq!(client1_account.total, dec(100, 0));
}

#[test]
fn missing_amount_on_deposit_is_reported() {
    let mut engine = PaymentEngine::new();
    let record = Transaction { transaction_type: TransactionType::Deposit, client: 4, tx: 77, amount: None };
    assert_eq!(engine.process_transaction(record), Err(PaymentEngineError::MissingAmount(77)));
    let accounts = engine.get_accounts();
    assert_eq!(accounts.len(), 1);
    assert_eq!(accounts[0].client, 4);
    assert_eq!(accounts[0].total, dec(0, 0));
}

#[test]
fn missing_amount_on_withdrawal_is_reported() {
    let mut engine = PaymentEngine::new();
    let record = Transaction { transaction_type: TransactionType::Withdrawal, client: 4, tx: 78, amount: None };
    assert_eq!(engine.process_transaction(record), Err(PaymentEngineError::MissingAmount(78)));
}

#[test]
fn negative_deposit_is_turned_down() {
    let mut engine = PaymentEngine::new();
    engine.process_transaction(create_deposit(1, 1, dec(-5, 0))).unwrap();
    let accounts = engine.get_accounts();
    assert_eq!(accounts[0].available, dec(0, 0));
    engine.process_transaction(create_dispute(1, 1)).unwrap();
    assert_eq!(engine.get_accounts()[0].held, dec(0, 0));
}

#[test]
fn withdrawal_cannot_be_disputed() {
    let mut engine = PaymentEngine::new();
    engine.process_transaction(create_deposit(1, 1, dec(100, 0))).unwrap();
    engine.process_transaction(create_withdrawal(1, 2, dec(40, 0))).unwrap();
    engine.process_transaction(create_dispute(1, 2)).unwrap();
    let a = engine.get_accounts()[0];
    assert_eq!(a.available, dec(60, 0));
    assert_eq!(a.held, dec(0, 0));
    assert_eq!(a.total, dec(60, 0));
}

#[test]
fn second_dispute_of_same_deposit_is_turned_down() {
    let mut engine = PaymentEngine::new();
    engine.process_transaction(create_deposit(1, 1, dec(100, 0))).unwrap();
    engine.process_transaction(create_deposit(1, 2, dec(100, 0))).unwrap();
    engine.process_transaction(create_dispute(1, 1)).unwrap();
    engine.process_transaction(create_dispute(1, 1)).unwrap();
    let a = engine.get_accounts()[0];
    assert_eq!(a.available, dec(100, 0));
    assert_eq!(a.held, dec(100, 0));
    assert_eq!(a.total, dec(200, 0));
}

#[test]
fn dispute_after_funds_left_fails_and_rolls_back() {
    let mut engine = PaymentEngine::new();
    engine.process_transaction(create_deposit(1, 1, dec(100, 0))).unwrap();
    engine.process_transaction(create_withdrawal(1, 2, dec(80, 0))).unwrap();
    engine.process_transaction(create_dispute(1, 1)).unwrap();
    let a = engine.get_accounts()[0];
    assert_eq!(a.available, dec(20, 0));
    assert_eq!(a.held, dec(0, 0));
    engine.process_transaction(create_resolve(1, 1)).unwrap();
    engine.process_transaction(create_chargeback(1, 1)).unwrap();
    let a = engine.get_accounts()[0];
    assert_eq!(a.available, dec(20, 0));
    assert_eq!(a.total, dec(20, 0));
    assert!(!a.locked);
}

#[test]
fn chargeback_without_dispute_is_turned_down() {
    let mut engine = PaymentEngine::new();
    engine.process_transaction(create_deposit(1, 1, dec(100, 0))).unwrap();
    engine.process_transaction(create_chargeback(1, 1)).unwrap();
    let a = engine.get_accounts()[0];
    assert_eq!(a.available, dec(100, 0));
    assert_eq!(a.total, dec(100, 0));
    assert!(!a.locked);
}

#[test]
fn locked_account_refuses_every_kind() {
    let mut engine = PaymentEngine::new();
    engine.process_transaction(create_deposit(1, 1, dec(100, 0))).unwrap();
    engine.process_transaction(create_deposit(1, 2, dec(30, 0))).unwrap();
    engine.process_transaction(create_dispute(1, 1)).unwrap();
    engine.process_transaction(create_chargeback(1, 1)).unwrap();
    let frozen = engine.get_accounts()[0];
    assert!(frozen.locked);
    assert_eq!(frozen.available, dec(30, 0));
    engine.process_transaction(create_withdrawal(1, 3, dec(10, 0))).unwrap();
    engine.process_transaction(create_dispute(1, 2)).unwrap();
    engine.process_transaction(create_resolve(1, 2)).unwrap();
    engine.process_transaction(create_chargeback(1, 2)).unwrap();
    engine.process_transaction(create_deposit(1, 4, dec(10, 0))).unwrap();
    let after = engine.get_accounts()[0];
    assert!(after.locked);
    assert_eq!(after.available, dec(30, 0));
    assert_eq!(after.held, dec(0, 0));
    assert_eq!(after.total, dec(30, 0));
}

#[test]
fn other_clients_are_untouched() {
    let mut engine = PaymentEngine::new();
    engine.process_transaction(create_deposit(2, 10, dec(500, 0))).unwrap();
    let before = engine.get_accounts()[0];
    engine.process_transaction(create_deposit(1, 1, dec(100, 0))).unwrap();
    engine.process_transaction(create_dispute(1, 1)).unwrap();
    engine.process_transaction(create_chargeback(1, 1)).unwrap();
    engine.process_transaction(create_withdrawal(1, 2, dec(5, 0))).unwrap();
    let accounts = engine.get_accounts();
    let b = accounts.iter().find(|a| a.client == 2).unwrap();
    assert_eq!(b.available, before.available);
    assert_eq!(b.held, before.held);
    assert_eq!(b.total, before.total);
    assert!(!b.locked);
}

#[test]
fn invariant_holds_after_every_record() {
    let records = vec![
        create_deposit(1, 1, dec(1005, 1)),
        create_deposit(2, 2, dec(30, 0)),
        create_withdrawal(1, 3, dec(25, 2)),
        create_dispute(1, 1),
        create_withdrawal(1, 4, dec(1, 0)),
        create_resolve(1, 1),
        create_dispute(2, 2),
        create_chargeback(2, 2),
        create_deposit(2, 5, dec(1, 0)),
    ];
    let mut engine = PaymentEngine::new();
    for r in records {
        let _ = engine.process_transaction(r);
        for a in engine.get_accounts() {
            let sum = a.available.checked_add(a.held).unwrap();
            assert_eq!(a.total, sum);
            assert!(!a.available.is_negative());
            assert!(!a.held.is_negative());
            assert!(!a.total.is_negative());
        }
    }
}

#[test]
fn batch_is_drained_and_applied_in_order() {
    let mut engine = PaymentEngine::new();
    let mut batch = vec![
        create_deposit(1, 1, dec(10, 0)),
        create_withdrawal(1, 2, dec(10, 0)),
        create_withdrawal(1, 3, dec(1, 0)),
        Transaction { transaction_type: TransactionType::Deposit, client: 1, tx: 4, amount: None },
        create_deposit(1, 5, dec(3, 0)),
    ];
    assert!(engine.process_transaction_batch(&mut batch).is_ok());
    assert!(batch.is_empty());
    let a = engine.get_accounts()[0];
    assert_eq!(a.available, dec(3, 0));
    assert_eq!(a.total, dec(3, 0));
}

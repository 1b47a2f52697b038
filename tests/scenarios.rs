use payment_engine::amount::Amount;
use payment_engine::engine::PaymentEngine;
use payment_engine::models::{Transaction, TransactionType};

fn dec(mantissa: i64, scale: u32) -> Amount {
    Amount::new(mantissa, scale)
}

fn record(kind: TransactionType, client: u16, tx: u32, amount: Option<Amount>) -> Transaction {
    Transaction { transaction_type: kind, client, tx, amount }
}

#[test]
fn dispute_then_resolve_restores_the_account() {
    let mut engine = PaymentEngine::new();
    engine.process_transaction(record(TransactionType::Deposit, 1, 1, Some(dec(100, 0)))).unwrap();
    let before = engine.get_accounts()[0];
    engine.process_transaction(record(TransactionType::Dispute, 1, 1, None)).unwrap();
    engine.process_transaction(record(TransactionType::Resolve, 1, 1, None)).unwrap();
    let after = engine.get_accounts()[0];
    assert_eq!(after.available, dec(100, 0));
    assert_eq!(after.held, dec(0, 0));
    assert_eq!(after.total, dec(100, 0));
    assert!(!after.locked);
    assert_eq!(after.available, before.available);
    assert_eq!(after.total, before.total);
}

#[test]
fn dispute_then_chargeback_empties_and_locks() {
    let mut engine = PaymentEngine::new();
    engine.process_transaction(record(TransactionType::Deposit, 1, 1, Some(dec(100, 0)))).unwrap();
    engine.process_transaction(record(TransactionType::Dispute, 1, 1, None)).unwrap();
    engine.process_transaction(record(TransactionType::Chargeback, 1, 1, None)).unwrap();
    let a = engine.get_accounts()[0];
    assert_eq!(a.available, dec(0, 0));
    assert_eq!(a.held, dec(0, 0));
    assert_eq!(a.total, dec(0, 0));
    assert!(a.locked);
}

#[test]
fn same_records_same_order_same_result() {
    let records = vec![
        record(TransactionType::Deposit, 1, 1, Some(dec(100, 0))),
        record(TransactionType::Withdrawal, 1, 2, Some(dec(90, 0))),
        record(TransactionType::Dispute, 1, 1, None),
    ];
    let mut first = PaymentEngine::new();
    let mut second = PaymentEngine::new();
    for r in &records {
        let _ = first.process_transaction(*r);
        let _ = second.process_transaction(*r);
    }
    let a = first.get_accounts()[0];
    let b = second.get_accounts()[0];
    assert_eq!(a.available, b.available);
    assert_eq!(a.held, b.held);
    assert_eq!(a.total, b.total);
    assert_eq!(a.available, dec(10, 0));
    assert_eq!(a.held, dec(0, 0));
}

#[test]
fn order_of_records_matters() {
    let deposit = record(TransactionType::Deposit, 1, 1, Some(dec(100, 0)));
    let withdrawal = record(TransactionType::Withdrawal, 1, 2, Some(dec(90, 0)));
    let dispute = record(TransactionType::Dispute, 1, 1, None);

    let mut drained_first = PaymentEngine::new();
    for r in [deposit, withdrawal, dispute] {
        let _ = drained_first.process_transaction(r);
    }
    let mut disputed_first = PaymentEngine::new();
    for r in [deposit, dispute, withdrawal] {
        let _ = disputed_first.process_transaction(r);
    }
    let a = drained_first.get_accounts()[0];
    let b = disputed_first.get_accounts()[0];
    assert_eq!(a.held, dec(0, 0));
    assert_eq!(a.available, dec(10, 0));
    assert_eq!(b.held, dec(100, 0));
    assert_eq!(b.available, dec(0, 0));
}

#[test]
fn amount_arithmetic_goes_through_decimals() {
    let a = dec(15, 1);
    let b = dec(250, 2);
    let sum = a.checked_add(b).unwrap();
    assert_eq!(sum.mantissa, 400);
    assert_eq!(sum.scale, 2);
    let diff = a.checked_sub(b).unwrap();
    assert_eq!(diff.mantissa, -100);
    assert_eq!(diff.scale, 2);
    let zero_plus = dec(0, 5).checked_add(a).unwrap();
    assert_eq!(zero_plus.mantissa, 15);
    assert_eq!(zero_plus.scale, 1);
    assert!(a.ge(&dec(150, 2)));
    assert!(!a.ge(&dec(151, 2)));
    assert_eq!(dec(15, 1), dec(1500, 3));
    assert_ne!(dec(15, 1), dec(1501, 3));
}

#[test]
fn amount_overflow_is_refused() {
    let max = Amount { mantissa: 79_228_162_514_264_337_593_543_950_335, scale: 0 };
    assert!(max.checked_add(dec(1, 0)).is_none());
    assert!(max.checked_add(dec(0, 0)).is_some());
    let min = Amount { mantissa: -79_228_162_514_264_337_593_543_950_335, scale: 0 };
    assert!(min.checked_sub(dec(1, 0)).is_none());
    assert!(dec(1, 0).checked_add(dec(1, 28)).is_some());
    assert!(max.checked_add(dec(1, 1)).is_none());
}

#[test]
fn rounding_for_output_is_half_to_even() {
    assert_eq!(dec(123456, 5).round_dp(4).mantissa, 12346);
    assert_eq!(dec(123465, 5).round_dp(4).mantissa, 12346);
    assert_eq!(dec(123475, 5).round_dp(4).mantissa, 12348);
    assert_eq!(dec(-123475, 5).round_dp(4).mantissa, -12348);
    assert_eq!(dec(-123475, 5).round_dp(4).scale, 4);
    let kept = dec(105, 1).round_dp(4);
    assert_eq!(kept.mantissa, 105);
    assert_eq!(kept.scale, 1);
    let zero = dec(0, 9).round_dp(4);
    assert_eq!(zero.mantissa, 0);
    assert_eq!(zero.scale, 4);
}

#[test]
fn rounded_account_keeps_client_and_lock() {
    let mut account = payment_engine::models::Account::new(8);
    assert!(account.deposit(dec(1234567, 6)));
    let shown = account.round_dp(4);
    assert_eq!(shown.client, 8);
    assert!(!shown.locked);
    assert_eq!(shown.available.mantissa, 12346);
    assert_eq!(shown.total.scale, 4);
    assert_eq!(shown.held.mantissa, 0);
}

use ledger::account::{Account, Transaction, TransactionType};
use ledger::codec::parse_amount;

// Test Transaction validation
#[test]
fn test_valid_transactions() {
    let transaction = Transaction {
        kind: TransactionType::Deposit,
        client: 1,
        tx: 1,
        amount: Some(449900),
    };
    assert!(transaction.validate().is_some());
    let transaction = Transaction {
        kind: TransactionType::Withdrawal,
        client: 1,
        tx: 1,
        amount: Some(449900),
    };
    assert!(transaction.validate().is_some());
    let transaction = Transaction {
        kind: TransactionType::Dispute,
        client: 1,
        tx: 1,
        amount: None,
    };
    assert!(transaction.validate().is_some());
    let transaction = Transaction {
        kind: TransactionType::Resolve,
        client: 1,
        tx: 1,
        amount: None,
    };
    assert!(transaction.validate().is_some());
    let transaction = Transaction {
        kind: TransactionType::Chargeback,
        client: 1,
        tx: 1,
        amount: None,
    };
    assert!(transaction.validate().is_some());
}

#[test]
fn test_invalid_transaction_amounts() {
    let transaction = Transaction {
        kind: TransactionType::Deposit,
        client: 1,
        tx: 1,
        amount: Some(-449900),
    };
    assert!(transaction.validate().is_none());
    let transaction = Transaction {
        kind: TransactionType::Withdrawal,
        client: 1,
        tx: 1,
        amount: Some(-449900),
    };
    assert!(transaction.validate().is_none());
    let transaction = Transaction {
        kind: TransactionType::Deposit,
        client: 1,
        tx: 1,
        amount: Some(0),
    };
    assert!(transaction.validate().is_none());
    // An infinite amount has no fixed-point representation: the amount
    // field comes out of parsing as absent.
    let infinite = parse_amount(b"inf").expect("inf reads as an amount field");
    assert!(infinite.is_none());
    let transaction = Transaction {
        kind: TransactionType::Withdrawal,
        client: 1,
        tx: 1,
        amount: infinite,
    };
    assert!(transaction.validate().is_none());
    let transaction = Transaction {
        kind: TransactionType::Deposit,
        client: 1,
        tx: 1,
        amount: None,
    };
    assert!(transaction.validate().is_none());
}

// Test Account
#[test]
fn test_deposit() {
    let mut account = Account::new(1);
    let trans1 = Transaction {
        kind: TransactionType::Deposit,
        client: 1,
        tx: 1,
        amount: Some(1_000_000),
    };
    account.deposit(trans1);
    assert_eq!(account.get_available_amount(), 1_000_000);
    assert_eq!(account.get_total_amount(), 1_000_000i128);
}

#[test]
fn test_withdrawal() {
    let mut account = Account::new(1);
    let trans1 = Transaction {
        kind: TransactionType::Deposit,
        client: 1,
        tx: 1,
        amount: Some(1_000_000),
    };
    let trans2 = Transaction {
        kind: TransactionType::Withdrawal,
        client: 1,
        tx: 2,
        amount: Some(500_000),
    };
    account.deposit(trans1);
    assert_eq!(account.get_available_amount(), 1_000_000);
    assert_eq!(account.get_total_amount(), 1_000_000i128);
    account.withdrawal(trans2);
    assert_eq!(account.get_available_amount(), 500_000);
    assert_eq!(account.get_total_amount(), 500_000i128);
    assert_eq!(account.get_held_amount(), 0);
}

#[test]
fn test_failed_withdrawal() {
    let mut account = Account::new(1);
    let trans1 = Transaction {
        kind: TransactionType::Deposit,
        client: 1,
        tx: 1,
        amount: Some(1_000_000),
    };
    let trans2 = Transaction {
        kind: TransactionType::Withdrawal,
        client: 1,
        tx: 2,
        amount: Some(1_500_000),
    };
    account.deposit(trans1);
    assert_eq!(account.get_available_amount(), 1_000_000);
    assert_eq!(account.get_total_amount(), 1_000_000i128);
    assert!(!account.withdrawal(trans2));
    assert_eq!(account.get_available_amount(), 1_000_000);
    assert_eq!(account.get_total_amount(), 1_000_000i128);
    assert_eq!(account.get_held_amount(), 0);
}

#[test]
fn test_dispute() {
    let mut account = Account::new(1);
    let trans1 = Transaction {
        kind: TransactionType::Deposit,
        client: 1,
        tx: 1,
        amount: Some(1_000_000),
    };
    let trans2 = Transaction {
        kind: TransactionType::Dispute,
        client: 1,
        tx: 1,
        amount: Some(0),
    };
    account.deposit(trans1);
    account.dispute(trans2);
    assert_eq!(account.get_available_amount(), 0);
    assert_eq!(account.get_total_amount(), 1_000_000i128);
    assert_eq!(account.get_held_amount(), 1_000_000);
}

#[test]
fn test_failed_dispute() {
    let mut account = Account::new(1);
    let trans1 = Transaction {
        kind: TransactionType::Deposit,
        client: 1,
        tx: 1,
        amount: Some(1_000_000),
    };
    let trans2 = Transaction {
        kind: TransactionType::Dispute,
        client: 1,
        tx: 0, // we are referring to a transaction that does not exist!
        amount: None,
    };
    account.deposit(trans1);
    account.dispute(trans2);
    assert_eq!(account.get_available_amount(), 1_000_000);
    assert_eq!(account.get_total_amount(), 1_000_000i128);
    assert_eq!(account.get_held_amount(), 0);
}

#[test]
fn test_resolve() {
    let mut account = Account::new(1);
    let trans1 = Transaction {
        kind: TransactionType::Deposit,
        client: 1,
        tx: 1,
        amount: Some(1_000_000),
    };
    let trans2 = Transaction {
        kind: TransactionType::Dispute,
        client: 1,
        tx: 1,
        amount: None,
    };
    let trans3 = Transaction {
        kind: TransactionType::Dispute,
        client: 1,
        tx: 1,
        amount: None,
    };
    account.deposit(trans1);
    account.dispute(trans2);
    assert_eq!(account.get_held_amount(), 1_000_000);
    account.resolve(trans3);
    assert_eq!(account.get_available_amount(), 1_000_000);
    assert_eq!(account.get_total_amount(), 1_000_000i128);
    assert_eq!(account.get_held_amount(), 0);
}

#[test]
fn test_failed_resolve() {
    let mut account = Account::new(1);
    let trans1 = Transaction {
        kind: TransactionType::Deposit,
        client: 1,
        tx: 1,
        amount: Some(1_000_000),
    };
    let trans2 = Transaction {
        kind: TransactionType::Dispute,
        client: 1,
        tx: 1,
        amount: None,
    };
    let trans3 = Transaction {
        kind: TransactionType::Dispute,
        client: 1,
        tx: 2, // we are referring to a transaction that does not exist!
        amount: None,
    };
    account.deposit(trans1);
    account.dispute(trans2);
    assert_eq!(account.get_held_amount(), 1_000_000);
    account.resolve(trans3);
    assert_eq!(account.get_available_amount(), 0);
    assert_eq!(account.get_total_amount(), 1_000_000i128);
    assert_eq!(account.get_held_amount(), 1_000_000);
}

#[test]
fn test_chargeback() {
    let mut account = Account::new(1);
    let trans1 = Transaction {
        kind: TransactionType::Deposit,
        client: 1,
        tx: 1,
        amount: Some(1_000_000),
    };
    let trans2 = Transaction {
        kind: TransactionType::Dispute,
        client: 1,
        tx: 1,
        amount: None,
    };
    let trans3 = Transaction {
        kind: TransactionType::Chargeback,
        client: 1,
        tx: 1,
        amount: None,
    };
    account.deposit(trans1);
    account.dispute(trans2);
    assert_eq!(account.get_available_amount(), 0);
    assert_eq!(account.get_held_amount(), 1_000_000);
    // chargeback
    account.chargeback(trans3);
    assert_eq!(account.get_available_amount(), 0);
    assert_eq!(account.get_total_amount(), 0i128);
    assert_eq!(account.get_held_amount(), 0);
    assert!(account.is_frozen());
}

// A tx id reused for a second deposit is rejected rather than overwritten.
#[test]
fn test_reused_tx_id_is_rejected() {
    let mut account = Account::new(1);
    let trans1 = Transaction {
        kind: TransactionType::Deposit,
        client: 1,
        tx: 1,
        amount: Some(1_000_000),
    };
    let trans2 = Transaction {
        kind: TransactionType::Deposit,
        client: 1,
        tx: 1,
        amount: Some(500_000),
    };
    account.deposit(trans1);
    account.deposit(trans2);
    assert_eq!(account.get_available_amount(), 1_000_000);
    assert_eq!(account.get_total_amount(), 1_000_000i128);
}

// Disputing a withdrawal subtracts its stored amount a second time, which
// may drive the available balance negative: the literal behaviour is kept.
#[test]
fn test_dispute_of_withdrawal_goes_negative() {
    let mut account = Account::new(1);
    account.deposit(Transaction {
        kind: TransactionType::Deposit,
        client: 1,
        tx: 1,
        amount: Some(1_000_000),
    });
    assert!(account.withdrawal(Transaction {
        kind: TransactionType::Withdrawal,
        client: 1,
        tx: 2,
        amount: Some(600_000),
    }));
    assert_eq!(account.get_available_amount(), 400_000);
    account.dispute(Transaction {
        kind: TransactionType::Dispute,
        client: 1,
        tx: 2,
        amount: None,
    });
    assert_eq!(account.get_available_amount(), -200_000);
    assert_eq!(account.get_held_amount(), 600_000);
    assert_eq!(account.get_total_amount(), 400_000i128);
}

// Dispute then resolve of the same deposit restores the state the deposit
// alone had left.
#[test]
fn test_dispute_resolve_is_identity() {
    let mut disputed = Account::new(7);
    let mut plain = Account::new(7);
    let deposit = Transaction {
        kind: TransactionType::Deposit,
        client: 7,
        tx: 3,
        amount: Some(1_000_000),
    };
    plain.deposit(deposit);
    disputed.deposit(deposit);
    disputed.dispute(Transaction {
        kind: TransactionType::Dispute,
        client: 7,
        tx: 3,
        amount: None,
    });
    disputed.resolve(Transaction {
        kind: TransactionType::Resolve,
        client: 7,
        tx: 3,
        amount: None,
    });
    assert_eq!(disputed.get_available_amount(), plain.get_available_amount());
    assert_eq!(disputed.get_held_amount(), plain.get_held_amount());
    assert_eq!(disputed.get_total_amount(), plain.get_total_amount());
    assert_eq!(disputed.is_frozen(), plain.is_frozen());
    assert_eq!(disputed.render_line(), plain.render_line());
}

// The dispute record's own amount field, even if garbage, has no effect.
#[test]
fn test_dispute_amount_field_is_ignored() {
    let mut a = Account::new(1);
    let mut b = Account::new(1);
    let deposit = Transaction {
        kind: TransactionType::Deposit,
        client: 1,
        tx: 1,
        amount: Some(1_000_000),
    };
    a.deposit(deposit);
    b.deposit(deposit);
    a.dispute(Transaction {
        kind: TransactionType::Dispute,
        client: 1,
        tx: 1,
        amount: Some(-987_654_321),
    });
    b.dispute(Transaction {
        kind: TransactionType::Dispute,
        client: 1,
        tx: 1,
        amount: None,
    });
    assert_eq!(a.get_available_amount(), b.get_available_amount());
    assert_eq!(a.get_held_amount(), b.get_held_amount());
    assert_eq!(a.get_held_amount(), 1_000_000);
}

#[test]
fn test_getters_on_fresh_account() {
    let account = Account::new(42);
    assert_eq!(account.get_id(), 42);
    assert_eq!(account.get_available_amount(), 0);
    assert_eq!(account.get_held_amount(), 0);
    assert_eq!(account.get_total_amount(), 0i128);
    assert!(!account.is_frozen());
}

use ledger::account::{Transaction, TransactionType};
use ledger::account_manager::AccountManager;
use ledger::codec::parse_record;

fn feed(manager: &mut AccountManager, records: &[(&[u8], &[u8], &[u8], Option<&[u8]>)]) {
    for (kind, client, tx, amount) in records {
        let t = parse_record(kind, client, tx, *amount).expect("record should be readable");
        manager.process_transaction(t);
    }
}

// End-to-end: deposit, dispute, chargeback: the client ends frozen with
// nothing left.
#[test]
fn test_chargeback_stream_renders_frozen_zeroes() {
    let mut manager = AccountManager::default();
    feed(
        &mut manager,
        &[
            (b"deposit", b"1", b"1", Some(b"100")),
            (b"dispute", b"1", b"1", None),
            (b"chargeback", b"1", b"1", None),
        ],
    );
    let expected = "client, available, held, total, locked\n1, 0.0000, 0.0000, 0.0000, true\n";
    assert_eq!(manager.render_report(), expected.as_bytes().to_vec());
}

// End-to-end: deposit then withdrawal leaves the difference available.
#[test]
fn test_deposit_withdrawal_stream_renders_balance() {
    let mut manager = AccountManager::default();
    feed(
        &mut manager,
        &[
            (b"deposit", b"2", b"10", Some(b"200")),
            (b"withdrawal", b"2", b"11", Some(b"50")),
        ],
    );
    let expected = "client, available, held, total, locked\n2, 150.0000, 0.0000, 150.0000, false\n";
    assert_eq!(manager.render_report(), expected.as_bytes().to_vec());
}

// A frozen account accepts nothing further, disputes of pre-freeze history
// included.
#[test]
fn test_frozen_account_ignores_everything() {
    let mut manager = AccountManager::default();
    feed(
        &mut manager,
        &[
            (b"deposit", b"1", b"1", Some(b"100")),
            (b"deposit", b"1", b"2", Some(b"40")),
            (b"dispute", b"1", b"1", None),
            (b"chargeback", b"1", b"1", None),
            (b"deposit", b"1", b"3", Some(b"25")),
            (b"withdrawal", b"1", b"4", Some(b"10")),
            (b"dispute", b"1", b"2", None),
        ],
    );
    assert_eq!(manager._get_client_balance(&1), 400_000);
    let expected = "client, available, held, total, locked\n1, 40.0000, 0.0000, 40.0000, true\n";
    assert_eq!(manager.render_report(), expected.as_bytes().to_vec());
}

// An invalid deposit never reaches the ledger: no account appears for an
// unknown client.
#[test]
fn test_invalid_amount_creates_no_account() {
    let mut manager = AccountManager::default();
    for amount in [&b"0"[..], b"-5", b"nan", b"inf"] {
        let t = parse_record(b"deposit", b"9", b"1", Some(amount)).unwrap();
        manager.process_transaction(t);
    }
    let expected = "client, available, held, total, locked\n";
    assert_eq!(manager.render_report(), expected.as_bytes().to_vec());
    assert_eq!(manager._get_client_balance(&9), 0);
}

// A referencing transaction for an unknown client does create the (empty)
// account, as the original routing did.
#[test]
fn test_reference_to_unknown_client_creates_empty_account() {
    let mut manager = AccountManager::default();
    feed(&mut manager, &[(b"dispute", b"5", b"1", None)]);
    let expected = "client, available, held, total, locked\n5, 0.0000, 0.0000, 0.0000, false\n";
    assert_eq!(manager.render_report(), expected.as_bytes().to_vec());
}

// The report lists accounts in ascending client id order, whatever the
// arrival order.
#[test]
fn test_report_orders_clients_ascending() {
    let mut manager = AccountManager::default();
    feed(
        &mut manager,
        &[
            (b"deposit", b"300", b"1", Some(b"1")),
            (b"deposit", b"2", b"2", Some(b"2")),
            (b"deposit", b"41", b"3", Some(b"0.5")),
        ],
    );
    let expected = "client, available, held, total, locked\n\
                    2, 2.0000, 0.0000, 2.0000, false\n\
                    41, 0.5000, 0.0000, 0.5000, false\n\
                    300, 1.0000, 0.0000, 1.0000, false\n";
    assert_eq!(manager.render_report(), expected.as_bytes().to_vec());
}

// Balances are held per client: transactions route by client id.
#[test]
fn test_routing_keeps_clients_apart() {
    let mut manager = AccountManager::default();
    feed(
        &mut manager,
        &[
            (b"deposit", b"1", b"1", Some(b"10")),
            (b"deposit", b"2", b"2", Some(b"20")),
            (b"withdrawal", b"1", b"3", Some(b"4")),
        ],
    );
    assert_eq!(manager._get_client_balance(&1), 60_000);
    assert_eq!(manager._get_client_balance(&2), 200_000);
    assert_eq!(manager._get_client_balance(&3), 0);
}

// The manager drops a directly handed invalid transaction just as it drops
// one that came from parsing.
#[test]
fn test_direct_invalid_transaction_is_dropped() {
    let mut manager = AccountManager::default();
    manager.process_transaction(Transaction {
        kind: TransactionType::Withdrawal,
        client: 3,
        tx: 1,
        amount: None,
    });
    let expected = "client, available, held, total, locked\n";
    assert_eq!(manager.render_report(), expected.as_bytes().to_vec());
}

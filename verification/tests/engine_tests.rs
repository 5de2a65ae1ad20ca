use payments_engine::engine::{process_transaction, Engine};
use payments_engine::structures::{TransactionError, TransactionMessage, TransactionType};

// Amounts are counts of ten-thousandths, so 10.0 is written 100_000.
fn money(units: u64, tx_type: TransactionType, client: u16, tx: u32) -> TransactionMessage {
    TransactionMessage { tx_type, client, tx, amount: Some(units) }
}

fn refer(tx_type: TransactionType, client: u16, tx: u32) -> TransactionMessage {
    TransactionMessage { tx_type, client, tx, amount: None }
}

fn terminate() -> TransactionMessage {
    TransactionMessage { tx_type: TransactionType::Terminate, client: 0, tx: 0, amount: None }
}

#[test]
fn test_process_transaction_basic_flow() {
    let mut engine = Engine::new();
    let msgs = vec![
        money(100_000, TransactionType::Deposit, 1, 1), // 10.0
        money(50_000, TransactionType::Withdrawal, 1, 2), // 5.0
        terminate(),
    ];
    process_transaction(&mut engine, &msgs);

    let client1 = engine.get_account(1).expect("Client 1 should exist");
    assert_eq!(client1.available, 50_000); // 10 - 5 = 5.0
    assert_eq!(client1.total, 50_000); // total updated accordingly

    assert!(engine.get_record(1).is_some()); // Deposit
    assert!(engine.get_record(2).is_some()); // Withdrawal
}

#[test]
fn scenario_dispute_resolve_dispute_chargeback() {
    // Deposit 10.0, dispute it, resolve, dispute again, charge back.
    let mut engine = Engine::new();
    let msgs = vec![
        money(100_000, TransactionType::Deposit, 1, 1),
        refer(TransactionType::Dispute, 1, 1),
        refer(TransactionType::Resolve, 1, 1),
        refer(TransactionType::Dispute, 1, 1),
        refer(TransactionType::Chargeback, 1, 1),
        terminate(),
    ];
    process_transaction(&mut engine, &msgs);

    let a = engine.get_account(1).expect("client 1 exists");
    assert_eq!(a.available, 0);
    assert_eq!(a.held, 0);
    assert_eq!(a.total, 0);
    assert!(a.locked);
    let r = engine.get_record(1).expect("record 1 exists");
    assert!(!r.disputed);
}

#[test]
fn scenario_chargeback_without_dispute_is_dropped() {
    let mut engine = Engine::new();
    let msgs = vec![
        money(100_000, TransactionType::Deposit, 1, 1),
        refer(TransactionType::Chargeback, 1, 1),
        terminate(),
    ];
    process_transaction(&mut engine, &msgs);

    let a = engine.get_account(1).expect("client 1 exists");
    assert_eq!(a.available, 100_000);
    assert_eq!(a.held, 0);
    assert_eq!(a.total, 100_000);
    assert!(!a.locked);
}

#[test]
fn scenario_withdrawal_insufficient_funds_is_dropped() {
    let mut engine = Engine::new();
    let msgs = vec![
        money(100_000, TransactionType::Deposit, 1, 1),
        money(500_000, TransactionType::Withdrawal, 1, 2), // 50.0 from 10.0
        terminate(),
    ];
    process_transaction(&mut engine, &msgs);

    let a = engine.get_account(1).expect("client 1 exists");
    assert_eq!(a.available, 100_000);
    assert_eq!(a.total, 100_000);
    assert!(engine.get_record(2).is_none());
}

#[test]
fn scenario_locked_account_rejects_withdrawal_entirely() {
    let mut engine = Engine::new();
    let msgs = vec![
        money(100_000, TransactionType::Deposit, 1, 1),
        refer(TransactionType::Dispute, 1, 1),
        refer(TransactionType::Chargeback, 1, 1),
        money(10_000, TransactionType::Withdrawal, 1, 3), // 1.0
        terminate(),
    ];
    process_transaction(&mut engine, &msgs);

    let a = engine.get_account(1).expect("client 1 exists");
    assert!(a.locked);
    assert_eq!(a.available, 0);
    assert_eq!(a.total, 0);
    assert!(engine.get_record(3).is_none());
}

#[test]
fn terminate_stops_processing() {
    let mut engine = Engine::new();
    let msgs = vec![
        money(100_000, TransactionType::Deposit, 1, 1),
        terminate(),
        money(100_000, TransactionType::Deposit, 1, 2),
    ];
    process_transaction(&mut engine, &msgs);

    let a = engine.get_account(1).expect("client 1 exists");
    assert_eq!(a.available, 100_000);
    assert!(engine.get_record(2).is_none());
}

#[test]
fn balance_invariant_holds_after_a_mixed_stream() {
    let mut engine = Engine::new();
    let msgs = vec![
        money(100_000, TransactionType::Deposit, 1, 1),
        money(70_000, TransactionType::Deposit, 1, 2),
        refer(TransactionType::Dispute, 1, 2),
        money(30_000, TransactionType::Withdrawal, 1, 3),
        terminate(),
    ];
    process_transaction(&mut engine, &msgs);

    let a = engine.get_account(1).expect("client 1 exists");
    assert_eq!(a.held, 70_000);
    assert_eq!(a.available, 70_000);
    assert_eq!(a.total, a.available + a.held);
}

#[test]
fn replaying_resolve_after_resolve_is_a_noop() {
    let mut engine = Engine::new();
    let setup = vec![
        money(100_000, TransactionType::Deposit, 1, 1),
        refer(TransactionType::Dispute, 1, 1),
        refer(TransactionType::Resolve, 1, 1),
    ];
    process_transaction(&mut engine, &setup);
    let before = engine.get_account(1).unwrap();

    let outcome = engine.apply_transaction(&refer(TransactionType::Resolve, 1, 1));
    assert_eq!(outcome, Err(TransactionError::InvalidDisputeState));
    let after = engine.get_account(1).unwrap();
    assert_eq!(before, after);
    assert!(!engine.get_record(1).unwrap().disputed);
}

#[test]
fn replaying_chargeback_after_chargeback_is_a_noop() {
    let mut engine = Engine::new();
    let setup = vec![
        money(100_000, TransactionType::Deposit, 1, 1),
        refer(TransactionType::Dispute, 1, 1),
        refer(TransactionType::Chargeback, 1, 1),
    ];
    process_transaction(&mut engine, &setup);
    let before = engine.get_account(1).unwrap();
    assert!(before.locked);

    let outcome = engine.apply_transaction(&refer(TransactionType::Chargeback, 1, 1));
    assert_eq!(outcome, Err(TransactionError::AccountLocked));
    let after = engine.get_account(1).unwrap();
    assert_eq!(before, after);
}

#[test]
fn foreign_transaction_cannot_be_disputed() {
    let mut engine = Engine::new();
    let setup = vec![
        money(100_000, TransactionType::Deposit, 1, 1),
        money(50_000, TransactionType::Deposit, 2, 2),
    ];
    process_transaction(&mut engine, &setup);

    let outcome = engine.apply_transaction(&refer(TransactionType::Dispute, 2, 1));
    assert_eq!(outcome, Err(TransactionError::OwnershipMismatch));
    let a1 = engine.get_account(1).unwrap();
    assert_eq!(a1.available, 100_000);
    assert_eq!(a1.held, 0);
    assert!(!engine.get_record(1).unwrap().disputed);

    let outcome = engine.apply_transaction(&refer(TransactionType::Resolve, 2, 1));
    assert_eq!(outcome, Err(TransactionError::OwnershipMismatch));
    let outcome = engine.apply_transaction(&refer(TransactionType::Chargeback, 2, 1));
    assert_eq!(outcome, Err(TransactionError::OwnershipMismatch));
}

#[test]
fn locked_account_absorbs_every_instruction_kind() {
    let mut engine = Engine::new();
    let setup = vec![
        money(100_000, TransactionType::Deposit, 1, 1),
        money(100_000, TransactionType::Deposit, 1, 2),
        refer(TransactionType::Dispute, 1, 1),
        refer(TransactionType::Chargeback, 1, 1),
    ];
    process_transaction(&mut engine, &setup);
    let before = engine.get_account(1).unwrap();
    assert!(before.locked);

    let attempts = vec![
        money(10_000, TransactionType::Deposit, 1, 5),
        money(10_000, TransactionType::Withdrawal, 1, 6),
        refer(TransactionType::Dispute, 1, 2),
        refer(TransactionType::Resolve, 1, 2),
        refer(TransactionType::Chargeback, 1, 2),
    ];
    for attempt in &attempts {
        let outcome = engine.apply_transaction(attempt);
        assert_eq!(outcome, Err(TransactionError::AccountLocked));
    }
    let after = engine.get_account(1).unwrap();
    assert_eq!(before, after);
}

#[test]
fn each_rejection_reason_is_reported() {
    let mut engine = Engine::new();

    let unknown = engine.apply_transaction(&refer(TransactionType::Dispute, 1, 9));
    assert_eq!(unknown, Err(TransactionError::UnknownTransaction));

    let malformed = engine.apply_transaction(&refer(TransactionType::Deposit, 1, 1));
    assert_eq!(malformed, Err(TransactionError::MalformedInstruction));

    let ok = engine.apply_transaction(&money(100_000, TransactionType::Deposit, 1, 1));
    assert_eq!(ok, Ok(()));

    let duplicate = engine.apply_transaction(&money(100_000, TransactionType::Deposit, 1, 1));
    assert_eq!(duplicate, Err(TransactionError::DuplicateTransaction));

    let insufficient =
        engine.apply_transaction(&money(200_000, TransactionType::Withdrawal, 1, 2));
    assert_eq!(insufficient, Err(TransactionError::InsufficientFunds));

    let not_disputed = engine.apply_transaction(&refer(TransactionType::Resolve, 1, 1));
    assert_eq!(not_disputed, Err(TransactionError::InvalidDisputeState));
}

#[test]
fn deposit_overflowing_the_largest_amount_is_dropped() {
    let mut engine = Engine::new();
    let ok = engine.apply_transaction(&money(u64::MAX, TransactionType::Deposit, 1, 1));
    assert_eq!(ok, Ok(()));
    let over = engine.apply_transaction(&money(1, TransactionType::Deposit, 1, 2));
    assert_eq!(over, Err(TransactionError::BalanceOverflow));
    let a = engine.get_account(1).unwrap();
    assert_eq!(a.available, u64::MAX);
    assert!(engine.get_record(2).is_none());
}

#[test]
fn dispute_needs_available_cover_and_a_deposit_record() {
    let mut engine = Engine::new();
    let setup = vec![
        money(100_000, TransactionType::Deposit, 1, 1),
        money(60_000, TransactionType::Withdrawal, 1, 2),
    ];
    process_transaction(&mut engine, &setup);

    // available is 4.0, the recorded deposit is 10.0: not enough cover.
    let uncovered = engine.apply_transaction(&refer(TransactionType::Dispute, 1, 1));
    assert_eq!(uncovered, Err(TransactionError::InsufficientFunds));

    // a withdrawal record is no dispute target.
    let wrong_kind = engine.apply_transaction(&refer(TransactionType::Dispute, 1, 2));
    assert_eq!(wrong_kind, Err(TransactionError::InvalidDisputeState));

    let a = engine.get_account(1).unwrap();
    assert_eq!(a.available, 40_000);
    assert_eq!(a.held, 0);
}

#[test]
fn account_is_created_on_first_reference_even_when_dropped() {
    let mut engine = Engine::new();
    assert!(engine.get_account(7).is_none());
    let outcome = engine.apply_transaction(&refer(TransactionType::Dispute, 7, 1));
    assert_eq!(outcome, Err(TransactionError::UnknownTransaction));
    let a = engine.get_account(7).expect("account created lazily");
    assert_eq!(a.available, 0);
    assert_eq!(a.held, 0);
    assert_eq!(a.total, 0);
    assert!(!a.locked);
}

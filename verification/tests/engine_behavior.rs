use transaction_engine::{Amount, Engine, TransactionInput, TransactionType};

fn new_tx(
    client: u16,
    tx: u32,
    transaction_type: TransactionType,
    amount: Option<Amount>,
) -> TransactionInput {
    TransactionInput {
        kind: transaction_type,
        client,
        tx,
        amount,
    }
}

fn whole(n: i64) -> Amount {
    Amount::from_whole(n)
}

#[test]
fn test_deposit_increases_balance_for_new_account() {
    let mut engine = Engine::new();
    let client_id = 1;
    let tx_id = 1;
    let transaction = new_tx(client_id, tx_id, TransactionType::Deposit, Some(whole(10)));

    engine.process(transaction);

    let account = engine.get_accounts().get(&1).unwrap();
    assert_eq!(account.available, whole(10));
    assert_eq!(account.held, whole(0));
    assert_eq!(account.total(), whole(10));
    assert!(!account.locked);
}

#[test]
fn test_deposit_increases_balance() {
    let mut engine = Engine::new();
    let client_id = 1;
    let tx_one = 1;
    let tx_two = 2;

    engine.process(new_tx(
        client_id,
        tx_one,
        TransactionType::Deposit,
        Some(whole(10)),
    ));
    engine.process(new_tx(
        client_id,
        tx_two,
        TransactionType::Deposit,
        Some(whole(20)),
    ));

    let account = engine.get_accounts().get(&1).unwrap();
    assert_eq!(account.available, whole(30));
    assert_eq!(account.held, whole(0));
    assert_eq!(account.total(), whole(30));
    assert!(!account.locked);
}

#[test]
fn test_deposit_ignore_duplicates() {
    let mut engine = Engine::new();
    let client_id = 1;
    let tx_one = 1;

    engine.process(new_tx(
        client_id,
        tx_one,
        TransactionType::Deposit,
        Some(whole(10)),
    ));
    engine.process(new_tx(
        client_id,
        tx_one,
        TransactionType::Deposit,
        Some(whole(10)),
    ));

    let account = engine.get_accounts().get(&1).unwrap();
    assert_eq!(account.available, whole(10));
    assert_eq!(account.held, whole(0));
    assert_eq!(account.total(), whole(10));
    assert!(!account.locked);
}

#[test]
fn test_deposit_ignored_for_locked_account() {
    let mut engine = Engine::new();
    let client_id = 1;
    let tx_one = 1;
    let tx_two = 2;

    engine.process(new_tx(
        client_id,
        tx_one,
        TransactionType::Deposit,
        Some(whole(100)),
    ));
    engine.process(new_tx(client_id, tx_one, TransactionType::Dispute, None));
    engine.process(new_tx(client_id, tx_one, TransactionType::Chargeback, None));
    engine.process(new_tx(
        client_id,
        tx_two,
        TransactionType::Deposit,
        Some(whole(50)),
    ));

    let account = engine.get_accounts().get(&1).unwrap();
    assert_eq!(account.available, whole(0));
    assert_eq!(account.held, whole(0));
    assert_eq!(account.total(), whole(0));
    assert!(account.locked);
}

#[test]
fn test_withdrawal_sufficient_funds() {
    let mut engine = Engine::new();
    let client_id = 1;
    let tx_one = 1;
    let tx_two = 2;

    engine.process(new_tx(
        client_id,
        tx_one,
        TransactionType::Deposit,
        Some(whole(10)),
    ));
    engine.process(new_tx(
        client_id,
        tx_two,
        TransactionType::Withdrawal,
        Some(whole(5)),
    ));

    let account = engine.get_accounts().get(&1).unwrap();
    assert_eq!(account.available, whole(5));
    assert_eq!(account.held, whole(0));
    assert_eq!(account.total(), whole(5));
    assert!(!account.locked);
}

#[test]
fn test_withdrawal_insufficient_funds() {
    let mut engine = Engine::new();
    let client_id = 1;
    let tx_id = 1;

    engine.process(new_tx(
        client_id,
        tx_id,
        TransactionType::Deposit,
        Some(whole(10)),
    ));
    engine.process(new_tx(
        client_id,
        tx_id,
        TransactionType::Withdrawal,
        Some(whole(20)),
    ));

    let account = engine.get_accounts().get(&1).unwrap();
    assert_eq!(account.available, whole(10));
    assert_eq!(account.held, whole(0));
    assert_eq!(account.total(), whole(10));
    assert!(!account.locked);
}

#[test]
fn test_withdrawal_ignore_duplicates() {
    let mut engine = Engine::new();
    let client_id = 1;
    let tx_one = 1;
    let tx_two = 2;

    engine.process(new_tx(
        client_id,
        tx_one,
        TransactionType::Deposit,
        Some(whole(100)),
    ));
    engine.process(new_tx(
        client_id,
        tx_two,
        TransactionType::Withdrawal,
        Some(whole(10)),
    ));
    engine.process(new_tx(
        client_id,
        tx_two,
        TransactionType::Withdrawal,
        Some(whole(10)),
    ));

    let account = engine.get_accounts().get(&1).unwrap();
    assert_eq!(account.available, whole(90));
    assert_eq!(account.held, whole(0));
    assert_eq!(account.total(), whole(90));
    assert!(!account.locked);
}

#[test]
fn test_withdrawal_ignored_for_locked_account() {
    let mut engine = Engine::new();
    let client_id = 1;
    let tx_one = 1;
    let tx_two = 2;
    let tx_three = 3;

    engine.process(new_tx(
        client_id,
        tx_one,
        TransactionType::Deposit,
        Some(whole(50)),
    ));
    engine.process(new_tx(
        client_id,
        tx_two,
        TransactionType::Deposit,
        Some(whole(100)),
    ));
    engine.process(new_tx(client_id, tx_two, TransactionType::Dispute, None));
    engine.process(new_tx(client_id, tx_two, TransactionType::Chargeback, None));
    engine.process(new_tx(
        client_id,
        tx_three,
        TransactionType::Withdrawal,
        Some(whole(50)),
    ));

    let account = engine.get_accounts().get(&1).unwrap();
    assert_eq!(account.available, whole(50));
    assert_eq!(account.held, whole(0));
    assert_eq!(account.total(), whole(50));
    assert!(account.locked);
}

#[test]
fn test_withdrawal_ignored_for_held_amount() {
    let mut engine = Engine::new();
    let client_id = 1;
    let tx_one = 1;
    let tx_two = 2;

    engine.process(new_tx(
        client_id,
        tx_one,
        TransactionType::Deposit,
        Some(whole(100)),
    ));
    engine.process(new_tx(client_id, tx_one, TransactionType::Dispute, None));
    engine.process(new_tx(
        client_id,
        tx_two,
        TransactionType::Withdrawal,
        Some(whole(100)),
    ));

    let account = engine.get_accounts().get(&1).unwrap();
    assert_eq!(account.available, whole(0));
    assert_eq!(account.held, whole(100));
    assert_eq!(account.total(), whole(100));
    assert!(!account.locked);
}

#[test]
fn test_dispute() {
    let mut engine = Engine::new();
    let client_id = 1;
    let tx_id = 1;

    engine.process(new_tx(
        client_id,
        tx_id,
        TransactionType::Deposit,
        Some(whole(100)),
    ));
    engine.process(new_tx(client_id, tx_id, TransactionType::Dispute, None));

    let account = engine.get_accounts().get(&1).unwrap();
    assert_eq!(account.available, whole(0));
    assert_eq!(account.held, whole(100));
    assert_eq!(account.total(), whole(100));
    assert!(!account.locked);
}

#[test]
fn test_dispute_ignored_when_origin_tx_is_not_deposit() {
    let mut engine = Engine::new();
    let client_id = 1;
    let tx_one = 1;
    let tx_two = 2;

    engine.process(new_tx(
        client_id,
        tx_one,
        TransactionType::Deposit,
        Some(whole(100)),
    ));
    engine.process(new_tx(
        client_id,
        tx_two,
        TransactionType::Withdrawal,
        Some(whole(50)),
    ));
    engine.process(new_tx(client_id, tx_two, TransactionType::Dispute, None));

    let account = engine.get_accounts().get(&1).unwrap();
    assert_eq!(account.available, whole(50));
    assert_eq!(account.held, whole(0));
    assert_eq!(account.total(), whole(50));
    assert!(!account.locked);
}

#[test]
fn test_resolve() {
    let mut engine = Engine::new();
    let client_id = 1;
    let tx_id = 1;

    engine.process(new_tx(
        client_id,
        tx_id,
        TransactionType::Deposit,
        Some(whole(100)),
    ));
    engine.process(new_tx(client_id, tx_id, TransactionType::Dispute, None));
    engine.process(new_tx(client_id, tx_id, TransactionType::Resolve, None));

    let account = engine.get_accounts().get(&1).unwrap();
    assert_eq!(account.available, whole(100));
    assert_eq!(account.held, whole(0));
    assert_eq!(account.total(), whole(100));
    assert!(!account.locked);
}

#[test]
fn test_resolve_ignored_when_tx_is_not_under_dispute() {
    let mut engine = Engine::new();
    let client_id = 1;
    let tx_one = 1;

    engine.process(new_tx(
        client_id,
        tx_one,
        TransactionType::Deposit,
        Some(whole(100)),
    ));
    engine.process(new_tx(client_id, tx_one, TransactionType::Resolve, None));

    let account = engine.get_accounts().get(&1).unwrap();
    assert_eq!(account.available, whole(100));
    assert_eq!(account.held, whole(0));
    assert_eq!(account.total(), whole(100));
    assert!(!account.locked);
}

#[test]
fn test_resolve_ignored_when_origin_tx_is_not_deposit() {
    let mut engine = Engine::new();
    let client_id = 1;
    let tx_one = 1;
    let tx_two = 2;

    engine.process(new_tx(
        client_id,
        tx_one,
        TransactionType::Deposit,
        Some(whole(100)),
    ));
    engine.process(new_tx(
        client_id,
        tx_two,
        TransactionType::Withdrawal,
        Some(whole(50)),
    ));
    engine.process(new_tx(client_id, tx_two, TransactionType::Resolve, None));

    let account = engine.get_accounts().get(&1).unwrap();
    assert_eq!(account.available, whole(50));
    assert_eq!(account.held, whole(0));
    assert_eq!(account.total(), whole(50));
    assert!(!account.locked);
}

#[test]
fn test_chargeback_locks_account() {
    let mut engine = Engine::new();
    let client_id = 1;
    let tx_id = 1;

    engine.process(new_tx(
        client_id,
        tx_id,
        TransactionType::Deposit,
        Some(whole(100)),
    ));
    engine.process(new_tx(client_id, tx_id, TransactionType::Dispute, None));
    engine.process(new_tx(client_id, tx_id, TransactionType::Chargeback, None));

    let account = engine.get_accounts().get(&1).unwrap();
    assert_eq!(account.available, whole(0));
    assert_eq!(account.held, whole(0));
    assert_eq!(account.total(), whole(0));
    assert!(account.locked);
}

#[test]
fn test_chargeback_ignored_when_tx_is_not_under_dispute() {
    let mut engine = Engine::new();
    let client_id = 1;
    let tx_one = 1;

    engine.process(new_tx(
        client_id,
        tx_one,
        TransactionType::Deposit,
        Some(whole(100)),
    ));
    engine.process(new_tx(client_id, tx_one, TransactionType::Chargeback, None));

    let account = engine.get_accounts().get(&1).unwrap();
    assert_eq!(account.available, whole(100));
    assert_eq!(account.held, whole(0));
    assert_eq!(account.total(), whole(100));
    assert!(!account.locked);
}

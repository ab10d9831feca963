use payment_engine::assoc::AssocMap;
use payment_engine::engine::{
    handle_transaction, ClientState, Transaction, TransactionKind,
};

fn tx(kind: TransactionKind, client: u16, id: u32, amount: Option<u64>) -> Transaction {
    Transaction { kind, client, tx: id, amount }
}

#[test]
fn deposit_and_withdrawal_roundtrip_leaves_zero_balances() {
    let mut history = AssocMap::new();
    let mut clients = AssocMap::new();
    handle_transaction(&tx(TransactionKind::Deposit, 9, 1, Some(12345)), &mut history, &mut clients);
    handle_transaction(
        &tx(TransactionKind::Withdrawal, 9, 2, Some(12345)),
        &mut history,
        &mut clients,
    );
    assert_eq!(
        clients.get(9),
        Some(ClientState { available: 0, held: 0, total: 0, locked: false }),
    );
}

#[test]
fn dispute_lifecycle_flags_and_releases_funds() {
    let mut history = AssocMap::new();
    let mut clients = AssocMap::new();
    handle_transaction(&tx(TransactionKind::Deposit, 3, 1, Some(7000)), &mut history, &mut clients);
    handle_transaction(&tx(TransactionKind::Dispute, 3, 1, None), &mut history, &mut clients);
    assert_eq!(
        clients.get(3),
        Some(ClientState { available: 0, held: 7000, total: 7000, locked: false }),
    );
    handle_transaction(&tx(TransactionKind::Resolve, 3, 1, None), &mut history, &mut clients);
    assert_eq!(
        clients.get(3),
        Some(ClientState { available: 7000, held: 0, total: 7000, locked: false }),
    );
}

#[test]
fn unrecognized_kind_changes_nothing() {
    let mut history = AssocMap::new();
    let mut clients = AssocMap::new();
    handle_transaction(
        &tx(TransactionKind::Unrecognized, 1, 1, Some(100)),
        &mut history,
        &mut clients,
    );
    assert_eq!(clients.len(), 0);
    assert_eq!(history.len(), 0);
}

#[test]
fn deposit_with_missing_amount_counts_as_zero() {
    let mut history = AssocMap::new();
    let mut clients = AssocMap::new();
    handle_transaction(&tx(TransactionKind::Deposit, 2, 1, None), &mut history, &mut clients);
    assert_eq!(
        clients.get(2),
        Some(ClientState { available: 0, held: 0, total: 0, locked: false }),
    );
}

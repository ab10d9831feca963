//! The transaction-processing state machine.
//!
//! Two pieces of state are threaded through the processor: the transaction
//! history (the ledger of historized deposits and withdrawals, keyed by
//! client and transaction id) and the per-client account states. Each
//! transaction kind has its own authorization rules; invalid operations are
//! absorbed silently, and a chargeback locks the account for good.
//!
//! Monetary amounts are fixed-point values counted in units of 1/10000.
//! Balances are `i128`; an update whose result would not fit that type is
//! ignored like any other unauthorized operation, so every handler is total.

use crate::assoc::AssocMap;
use vstd::prelude::*;

verus! {

pub type ClientId = u16;

pub type TransactionId = u32;

/// The closed set of transaction kinds, plus an explicit variant for an
/// unrecognized kind, which the processor ignores.
#[derive(Clone, Copy, Debug, PartialEq, Eq)]
pub enum TransactionKind {
    Deposit,
    Withdrawal,
    Dispute,
    Resolve,
    Chargeback,
    Unrecognized,
}

/// One transaction of the input stream. The amount is present only for
/// deposits and withdrawals, in units of 1/10000.
#[derive(Clone, Copy, Debug, PartialEq)]
pub struct Transaction {
    pub kind: TransactionKind,
    pub client: ClientId,
    pub tx: TransactionId,
    pub amount: Option<u64>,
}

/// The balances of one client, in units of 1/10000. The processor keeps
/// `total == available + held` as an invariant.
#[derive(Clone, Copy, Debug, PartialEq, Eq, Structural)]
pub struct ClientState {
    pub available: i128,
    pub held: i128,
    pub total: i128,
    pub locked: bool,
}

/// A historized deposit or withdrawal, kept so that later disputes can
/// reconstruct the amount even after the funds moved.
#[derive(Clone, Copy, Debug, PartialEq, Eq, Structural)]
pub struct TransactionSummary {
    pub amount: u64,
    pub is_disputed: bool,
}

/// The transaction history: ledger entries keyed by (client, transaction id).
pub type TransactionHistory = AssocMap<TransactionSummary>;

/// The account states, keyed by client id.
pub type ClientsState = AssocMap<ClientState>;

/// The mathematical state that one transaction steps.
#[verifier::ext_equal]
pub ghost struct Snapshot {
    pub history: Map<u64, TransactionSummary>,
    pub accounts: Map<u64, ClientState>,
}

impl Snapshot {
    /// The state before any transaction was processed.
    pub open spec fn init() -> Snapshot {
        Snapshot { history: Map::empty(), accounts: Map::empty() }
    }
}

/// The composite ledger key of a (client, transaction id) pair. Keying the
/// ledger by both ids prevents a client from disputing another client's
/// transaction without any extra check.
pub open spec fn ledger_key(client: ClientId, tx: TransactionId) -> u64 {
    (client as int * 0x1_0000_0000 + tx as int) as u64
}

impl Transaction {
    /// The spec-level amount: absent amounts count as zero.
    pub open spec fn amount_or_zero(self) -> u64 {
        match self.amount {
            Some(a) => a,
            None => 0,
        }
    }

    /// The amount carried by the transaction; absent amounts count as zero.
    pub fn get_amount(&self) -> (a: u64)
        ensures
            a == self.amount_or_zero(),
    {
        match self.amount {
            Some(a) => a,
            None => 0,
        }
    }
}

/// A freshly created account: all balances zero, not locked.
pub open spec fn fresh_account() -> ClientState {
    ClientState { available: 0, held: 0, total: 0, locked: false }
}

/// The state of a client's account, lazily created if absent.
pub open spec fn account_or_fresh(accounts: Map<u64, ClientState>, client: ClientId) -> ClientState {
    if accounts.contains_key(client as u64) {
        accounts[client as u64]
    } else {
        fresh_account()
    }
}

/// Whether a balance value fits the balance type.
pub open spec fn fits(v: int) -> bool {
    i128::MIN <= v <= i128::MAX
}

/// A deposit credits `available` and `total` unless the account is locked.
pub open spec fn deposit_effect(c: ClientState, a: u64) -> ClientState {
    if !c.locked && fits(c.available + a) && fits(c.total + a) {
        ClientState { available: (c.available + a) as i128, total: (c.total + a) as i128, ..c }
    } else {
        c
    }
}

/// A withdrawal debits `available` and `total` if the funds are there and
/// the account is not locked.
pub open spec fn withdrawal_effect(c: ClientState, a: u64) -> ClientState {
    if !c.locked && c.available >= a && fits(c.total - a) {
        ClientState { available: (c.available - a) as i128, total: (c.total - a) as i128, ..c }
    } else {
        c
    }
}

/// Deposits and withdrawals historize the transaction unconditionally, then
/// apply their balance effect under the handler's own guard.
pub open spec fn spec_deposit(s: Snapshot, t: Transaction) -> Snapshot {
    Snapshot {
        history: s.history.insert(
            ledger_key(t.client, t.tx),
            TransactionSummary { amount: t.amount_or_zero(), is_disputed: false },
        ),
        accounts: s.accounts.insert(
            t.client as u64,
            deposit_effect(account_or_fresh(s.accounts, t.client), t.amount_or_zero()),
        ),
    }
}

pub open spec fn spec_withdrawal(s: Snapshot, t: Transaction) -> Snapshot {
    Snapshot {
        history: s.history.insert(
            ledger_key(t.client, t.tx),
            TransactionSummary { amount: t.amount_or_zero(), is_disputed: false },
        ),
        accounts: s.accounts.insert(
            t.client as u64,
            withdrawal_effect(account_or_fresh(s.accounts, t.client), t.amount_or_zero()),
        ),
    }
}

/// A dispute moves the referenced amount from `available` to `held` and
/// flags the ledger entry. It needs an unlocked account and a ledger entry
/// owned by the same client; otherwise only the account is lazily created.
pub open spec fn spec_dispute(s: Snapshot, t: Transaction) -> Snapshot {
    let cid = t.client as u64;
    let key = ledger_key(t.client, t.tx);
    if !s.accounts.contains_key(cid) {
        Snapshot { history: s.history, accounts: s.accounts.insert(cid, fresh_account()) }
    } else {
        let acct = s.accounts[cid];
        if s.history.contains_key(key) {
            let a = s.history[key].amount;
            if !acct.locked && fits(acct.available - a) && fits(acct.held + a) {
                Snapshot {
                    history: s.history.insert(key, TransactionSummary { amount: a, is_disputed: true }),
                    accounts: s.accounts.insert(
                        cid,
                        ClientState {
                            available: (acct.available - a) as i128,
                            held: (acct.held + a) as i128,
                            ..acct
                        },
                    ),
                }
            } else {
                s
            }
        } else {
            s
        }
    }
}

/// A resolve releases a disputed amount back to `available` and clears the
/// dispute flag. It needs an unlocked account and a currently disputed entry.
pub open spec fn spec_resolve(s: Snapshot, t: Transaction) -> Snapshot {
    let cid = t.client as u64;
    let key = ledger_key(t.client, t.tx);
    if !s.accounts.contains_key(cid) {
        Snapshot { history: s.history, accounts: s.accounts.insert(cid, fresh_account()) }
    } else {
        let acct = s.accounts[cid];
        if s.history.contains_key(key) {
            let a = s.history[key].amount;
            if !acct.locked && s.history[key].is_disputed && fits(acct.held - a) && fits(
                acct.available + a,
            ) {
                Snapshot {
                    history: s.history.insert(key, TransactionSummary { amount: a, is_disputed: false }),
                    accounts: s.accounts.insert(
                        cid,
                        ClientState {
                            available: (acct.available + a) as i128,
                            held: (acct.held - a) as i128,
                            ..acct
                        },
                    ),
                }
            } else {
                s
            }
        } else {
            s
        }
    }
}

/// A chargeback withdraws a disputed amount for good: `held` and `total`
/// drop by the amount, the entry's flag clears, and the account locks.
pub open spec fn spec_chargeback(s: Snapshot, t: Transaction) -> Snapshot {
    let cid = t.client as u64;
    let key = ledger_key(t.client, t.tx);
    if !s.accounts.contains_key(cid) {
        Snapshot { history: s.history, accounts: s.accounts.insert(cid, fresh_account()) }
    } else {
        let acct = s.accounts[cid];
        if s.history.contains_key(key) {
            let a = s.history[key].amount;
            if !acct.locked && s.history[key].is_disputed && fits(acct.held - a) && fits(
                acct.total - a,
            ) {
                Snapshot {
                    history: s.history.insert(key, TransactionSummary { amount: a, is_disputed: false }),
                    accounts: s.accounts.insert(
                        cid,
                        ClientState {
                            held: (acct.held - a) as i128,
                            total: (acct.total - a) as i128,
                            locked: true,
                            ..acct
                        },
                    ),
                }
            } else {
                s
            }
        } else {
            s
        }
    }
}

/// What one transaction does to the whole state.
pub open spec fn spec_apply(s: Snapshot, t: Transaction) -> Snapshot {
    match t.kind {
        TransactionKind::Deposit => spec_deposit(s, t),
        TransactionKind::Withdrawal => spec_withdrawal(s, t),
        TransactionKind::Dispute => spec_dispute(s, t),
        TransactionKind::Resolve => spec_resolve(s, t),
        TransactionKind::Chargeback => spec_chargeback(s, t),
        TransactionKind::Unrecognized => s,
    }
}

/// The state after a whole sequence of transactions, applied in order.
pub open spec fn spec_run(s: Snapshot, ts: Seq<Transaction>) -> Snapshot
    decreases ts.len(),
{
    if ts.len() == 0 {
        s
    } else {
        spec_apply(spec_run(s, ts.drop_last()), ts.last())
    }
}

/// The snapshot held by a pair of exec maps.
pub open spec fn snapshot_of(history: TransactionHistory, accounts: ClientsState) -> Snapshot {
    Snapshot { history: history@, accounts: accounts@ }
}

fn ledger_key_exec(client: ClientId, tx: TransactionId) -> (k: u64)
    ensures
        k == ledger_key(client, tx),
{
    client as u64 * 0x1_0000_0000u64 + tx as u64
}

fn account_or_fresh_exec(clients_state: &ClientsState, client: ClientId) -> (c: ClientState)
    requires
        clients_state.wf(),
    ensures
        c == account_or_fresh(clients_state@, client),
{
    match clients_state.get(client as u64) {
        Some(state) => state,
        None => ClientState { available: 0, held: 0, total: 0, locked: false },
    }
}

/// Handles a deposit: historizes the transaction and credits the account.
pub fn handle_deposit(
    transaction: &Transaction,
    transaction_history: &mut TransactionHistory,
    clients_state: &mut ClientsState,
)
    requires
        old(transaction_history).wf(),
        old(clients_state).wf(),
    ensures
        final(transaction_history).wf(),
        final(clients_state).wf(),
        snapshot_of(*final(transaction_history), *final(clients_state)) == spec_deposit(
            snapshot_of(*old(transaction_history), *old(clients_state)),
            *transaction,
        ),
{
    let amount = transaction.get_amount();
    transaction_history.insert(
        ledger_key_exec(transaction.client, transaction.tx),
        TransactionSummary { amount, is_disputed: false },
    );
    let mut state = account_or_fresh_exec(clients_state, transaction.client);
    if !state.locked && state.available <= i128::MAX - amount as i128 && state.total <= i128::MAX
        - amount as i128 {
        state.available = state.available + amount as i128;
        state.total = state.total + amount as i128;
    }
    clients_state.insert(transaction.client as u64, state);
    proof {
        assert(snapshot_of(*transaction_history, *clients_state) =~= spec_deposit(
            snapshot_of(*old(transaction_history), *old(clients_state)),
            *transaction,
        ));
    }
}

/// Handles a withdrawal: historizes the transaction even when the funds are
/// insufficient, and debits the account only when they are.
pub fn handle_withdrawal(
    transaction: &Transaction,
    transaction_history: &mut TransactionHistory,
    clients_state: &mut ClientsState,
)
    requires
        old(transaction_history).wf(),
        old(clients_state).wf(),
    ensures
        final(transaction_history).wf(),
        final(clients_state).wf(),
        snapshot_of(*final(transaction_history), *final(clients_state)) == spec_withdrawal(
            snapshot_of(*old(transaction_history), *old(clients_state)),
            *transaction,
        ),
{
    let amount = transaction.get_amount();
    transaction_history.insert(
        ledger_key_exec(transaction.client, transaction.tx),
        TransactionSummary { amount, is_disputed: false },
    );
    let mut state = account_or_fresh_exec(clients_state, transaction.client);
    if !state.locked && state.available >= amount as i128 && state.total >= i128::MIN + amount as i128 {
        state.available = state.available - amount as i128;
        state.total = state.total - amount as i128;
    }
    clients_state.insert(transaction.client as u64, state);
    proof {
        assert(snapshot_of(*transaction_history, *clients_state) =~= spec_withdrawal(
            snapshot_of(*old(transaction_history), *old(clients_state)),
            *transaction,
        ));
    }
}

/// Handles a dispute: freezes the referenced amount pending resolution.
pub fn handle_dispute(
    transaction: &Transaction,
    transaction_history: &mut TransactionHistory,
    clients_state: &mut ClientsState,
)
    requires
        old(transaction_history).wf(),
        old(clients_state).wf(),
    ensures
        final(transaction_history).wf(),
        final(clients_state).wf(),
        snapshot_of(*final(transaction_history), *final(clients_state)) == spec_dispute(
            snapshot_of(*old(transaction_history), *old(clients_state)),
            *transaction,
        ),
{
    let cid = transaction.client as u64;
    match clients_state.get(cid) {
        None => {
            clients_state.insert(cid, ClientState { available: 0, held: 0, total: 0, locked: false });
        },
        Some(acct) => {
            let key = ledger_key_exec(transaction.client, transaction.tx);
            match transaction_history.get(key) {
                Some(entry) => {
                    let a = entry.amount;
                    if !acct.locked && acct.available >= i128::MIN + a as i128 && acct.held
                        <= i128::MAX - a as i128 {
                        transaction_history.insert(
                            key,
                            TransactionSummary { amount: a, is_disputed: true },
                        );
                        clients_state.insert(
                            cid,
                            ClientState {
                                available: acct.available - a as i128,
                                held: acct.held + a as i128,
                                ..acct
                            },
                        );
                    }
                },
                None => {},
            }
        },
    }
    proof {
        assert(snapshot_of(*transaction_history, *clients_state) =~= spec_dispute(
            snapshot_of(*old(transaction_history), *old(clients_state)),
            *transaction,
        ));
    }
}

/// Handles a resolve: releases a disputed amount back to `available`.
pub fn handle_resolve(
    transaction: &Transaction,
    transaction_history: &mut TransactionHistory,
    clients_state: &mut ClientsState,
)
    requires
        old(transaction_history).wf(),
        old(clients_state).wf(),
    ensures
        final(transaction_history).wf(),
        final(clients_state).wf(),
        snapshot_of(*final(transaction_history), *final(clients_state)) == spec_resolve(
            snapshot_of(*old(transaction_history), *old(clients_state)),
            *transaction,
        ),
{
    let cid = transaction.client as u64;
    match clients_state.get(cid) {
        None => {
            clients_state.insert(cid, ClientState { available: 0, held: 0, total: 0, locked: false });
        },
        Some(acct) => {
            let key = ledger_key_exec(transaction.client, transaction.tx);
            match transaction_history.get(key) {
                Some(entry) => {
                    let a = entry.amount;
                    if !acct.locked && entry.is_disputed && acct.held >= i128::MIN + a as i128
                        && acct.available <= i128::MAX - a as i128 {
                        transaction_history.insert(
                            key,
                            TransactionSummary { amount: a, is_disputed: false },
                        );
                        clients_state.insert(
                            cid,
                            ClientState {
                                available: acct.available + a as i128,
                                held: acct.held - a as i128,
                                ..acct
                            },
                        );
                    }
                },
                None => {},
            }
        },
    }
    proof {
        assert(snapshot_of(*transaction_history, *clients_state) =~= spec_resolve(
            snapshot_of(*old(transaction_history), *old(clients_state)),
            *transaction,
        ));
    }
}

/// Handles a chargeback: removes a disputed amount for good and locks the
/// account.
pub fn handle_chargeback(
    transaction: &Transaction,
    transaction_history: &mut TransactionHistory,
    clients_state: &mut ClientsState,
)
    requires
        old(transaction_history).wf(),
        old(clients_state).wf(),
    ensures
        final(transaction_history).wf(),
        final(clients_state).wf(),
        snapshot_of(*final(transaction_history), *final(clients_state)) == spec_chargeback(
            snapshot_of(*old(transaction_history), *old(clients_state)),
            *transaction,
        ),
{
    let cid = transaction.client as u64;
    match clients_state.get(cid) {
        None => {
            clients_state.insert(cid, ClientState { available: 0, held: 0, total: 0, locked: false });
        },
        Some(acct) => {
            let key = ledger_key_exec(transaction.client, transaction.tx);
            match transaction_history.get(key) {
                Some(entry) => {
                    let a = entry.amount;
                    if !acct.locked && entry.is_disputed && acct.held >= i128::MIN + a as i128
                        && acct.total >= i128::MIN + a as i128 {
                        transaction_history.insert(
                            key,
                            TransactionSummary { amount: a, is_disputed: false },
                        );
                        clients_state.insert(
                            cid,
                            ClientState {
                                held: acct.held - a as i128,
                                total: acct.total - a as i128,
                                locked: true,
                                ..acct
                            },
                        );
                    }
                },
                None => {},
            }
        },
    }
    proof {
        assert(snapshot_of(*transaction_history, *clients_state) =~= spec_chargeback(
            snapshot_of(*old(transaction_history), *old(clients_state)),
            *transaction,
        ));
    }
}

/// Dispatches one transaction to its handler. An unrecognized kind leaves
/// the state untouched.
pub fn handle_transaction(
    transaction: &Transaction,
    transaction_history: &mut TransactionHistory,
    clients_state: &mut ClientsState,
)
    requires
        old(transaction_history).wf(),
        old(clients_state).wf(),
    ensures
        final(transaction_history).wf(),
        final(clients_state).wf(),
        snapshot_of(*final(transaction_history), *final(clients_state)) == spec_apply(
            snapshot_of(*old(transaction_history), *old(clients_state)),
            *transaction,
        ),
{
    match transaction.kind {
        TransactionKind::Deposit => handle_deposit(transaction, transaction_history, clients_state),
        TransactionKind::Withdrawal => handle_withdrawal(
            transaction,
            transaction_history,
            clients_state,
        ),
        TransactionKind::Dispute => handle_dispute(transaction, transaction_history, clients_state),
        TransactionKind::Resolve => handle_resolve(transaction, transaction_history, clients_state),
        TransactionKind::Chargeback => handle_chargeback(
            transaction,
            transaction_history,
            clients_state,
        ),
        TransactionKind::Unrecognized => {},
    }
}

} // verus!

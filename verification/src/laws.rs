//! The guarantees of the transaction state machine, stated and proved once
//! over the spec-level transition `spec_apply`.

use crate::engine::{
    account_or_fresh, deposit_effect, fits, fresh_account, ledger_key, spec_apply, spec_run,
    withdrawal_effect, ClientId, ClientState, Snapshot, Transaction, TransactionId,
    TransactionKind,
};
use vstd::prelude::*;

verus! {

/// A single account is balanced: `total` equals `available` plus `held`.
pub open spec fn balanced(c: ClientState) -> bool {
    c.total == c.available + c.held
}

/// Every account of the map is balanced.
pub open spec fn accounts_balanced(accounts: Map<u64, ClientState>) -> bool {
    forall|c: u64| #[trigger] accounts.contains_key(c) ==> balanced(accounts[c])
}

/// The account map with the client's account lazily created if absent and
/// nothing else changed.
pub open spec fn ensure_account(accounts: Map<u64, ClientState>, client: ClientId) -> Map<
    u64,
    ClientState,
> {
    if accounts.contains_key(client as u64) {
        accounts
    } else {
        accounts.insert(client as u64, fresh_account())
    }
}

proof fn lemma_insert_balanced(accounts: Map<u64, ClientState>, cid: u64, v: ClientState)
    requires
        accounts_balanced(accounts),
        balanced(v),
    ensures
        accounts_balanced(accounts.insert(cid, v)),
{
    assert forall|c: u64| #[trigger] accounts.insert(cid, v).contains_key(c) implies balanced(
        accounts.insert(cid, v)[c],
    ) by {
        if c != cid {
            assert(accounts.contains_key(c));
        }
    }
}

/// Applying any transaction preserves `total == available + held` on every
/// account: each handler either moves one amount between two of the three
/// balances or changes `available` and `total` in step.
pub proof fn lemma_apply_preserves_balance(s: Snapshot, t: Transaction)
    requires
        accounts_balanced(s.accounts),
    ensures
        accounts_balanced(spec_apply(s, t).accounts),
{
    let cid = t.client as u64;
    if s.accounts.contains_key(cid) {
        assert(balanced(s.accounts[cid]));
    }
    let base = account_or_fresh(s.accounts, t.client);
    assert(balanced(base));
    match t.kind {
        TransactionKind::Deposit => {
            lemma_insert_balanced(s.accounts, cid, deposit_effect(base, t.amount_or_zero()));
        },
        TransactionKind::Withdrawal => {
            lemma_insert_balanced(s.accounts, cid, withdrawal_effect(base, t.amount_or_zero()));
        },
        TransactionKind::Dispute | TransactionKind::Resolve | TransactionKind::Chargeback => {
            let after = spec_apply(s, t).accounts;
            if after != s.accounts {
                if !s.accounts.contains_key(cid) {
                    lemma_insert_balanced(s.accounts, cid, fresh_account());
                } else {
                    assert(after == s.accounts.insert(cid, after[cid])) by {
                        assert(after =~= s.accounts.insert(cid, after[cid]));
                    }
                    lemma_insert_balanced(s.accounts, cid, after[cid]);
                }
            }
        },
        TransactionKind::Unrecognized => {},
    }
}

/// After any sequence of transactions, replayed from the initial state,
/// every account is balanced.
pub proof fn lemma_run_balanced(ts: Seq<Transaction>)
    ensures
        accounts_balanced(spec_run(Snapshot::init(), ts).accounts),
    decreases ts.len(),
{
    if ts.len() == 0 {
    } else {
        lemma_run_balanced(ts.drop_last());
        lemma_apply_preserves_balance(spec_run(Snapshot::init(), ts.drop_last()), ts.last());
    }
}

/// The ledger key is injective: two distinct (client, transaction id) pairs
/// never collide, which is what makes a dispute unable to reach another
/// client's transaction.
pub proof fn lemma_ledger_key_injective(
    c1: ClientId,
    t1: TransactionId,
    c2: ClientId,
    t2: TransactionId,
)
    requires
        ledger_key(c1, t1) == ledger_key(c2, t2),
    ensures
        c1 == c2,
        t1 == t2,
{
    assert((c1 as int) * 0x1_0000_0000int + (t1 as int) < 0x1_0000_0000_0000_0000int);
    assert((c2 as int) * 0x1_0000_0000int + (t2 as int) < 0x1_0000_0000_0000_0000int);
}

/// A transaction touches no account but its own client's.
pub proof fn lemma_apply_touches_only_client(s: Snapshot, t: Transaction, c: u64)
    requires
        c != t.client as u64,
    ensures
        spec_apply(s, t).accounts.contains_key(c) == s.accounts.contains_key(c),
        s.accounts.contains_key(c) ==> spec_apply(s, t).accounts[c] == s.accounts[c],
{
}

/// Disputing a transaction id that was never historized for this client —
/// including an id historized for a different client, which by key
/// injectivity is a different ledger key — changes nothing but the lazy
/// creation of the client's account.
pub proof fn lemma_dispute_unknown_is_ignored(s: Snapshot, t: Transaction)
    requires
        t.kind == TransactionKind::Dispute,
        !s.history.contains_key(ledger_key(t.client, t.tx)),
    ensures
        spec_apply(s, t).history == s.history,
        spec_apply(s, t).accounts == ensure_account(s.accounts, t.client),
        account_or_fresh(spec_apply(s, t).accounts, t.client) == account_or_fresh(
            s.accounts,
            t.client,
        ),
{
}

/// Resolving a transaction that is missing, not disputed, or already
/// resolved changes nothing but the lazy creation of the client's account.
pub proof fn lemma_resolve_not_disputed_is_ignored(s: Snapshot, t: Transaction)
    requires
        t.kind == TransactionKind::Resolve,
        s.history.contains_key(ledger_key(t.client, t.tx))
            ==> !s.history[ledger_key(t.client, t.tx)].is_disputed,
    ensures
        spec_apply(s, t).history == s.history,
        spec_apply(s, t).accounts == ensure_account(s.accounts, t.client),
        account_or_fresh(spec_apply(s, t).accounts, t.client) == account_or_fresh(
            s.accounts,
            t.client,
        ),
{
}

/// A chargeback without a currently disputed entry changes nothing but the
/// lazy creation of the client's account.
pub proof fn lemma_chargeback_needs_dispute(s: Snapshot, t: Transaction)
    requires
        t.kind == TransactionKind::Chargeback,
        s.history.contains_key(ledger_key(t.client, t.tx))
            ==> !s.history[ledger_key(t.client, t.tx)].is_disputed,
    ensures
        spec_apply(s, t).history == s.history,
        spec_apply(s, t).accounts == ensure_account(s.accounts, t.client),
{
}

/// A chargeback that is applied — unlocked account, currently disputed
/// entry, balances in range — locks the account.
pub proof fn lemma_chargeback_locks(s: Snapshot, t: Transaction)
    requires
        t.kind == TransactionKind::Chargeback,
        s.accounts.contains_key(t.client as u64),
        !s.accounts[t.client as u64].locked,
        s.history.contains_key(ledger_key(t.client, t.tx)),
        s.history[ledger_key(t.client, t.tx)].is_disputed,
        fits(s.accounts[t.client as u64].held - s.history[ledger_key(t.client, t.tx)].amount),
        fits(s.accounts[t.client as u64].total - s.history[ledger_key(t.client, t.tx)].amount),
    ensures
        spec_apply(s, t).accounts[t.client as u64].locked,
{
}

/// A locked account absorbs everything: no transaction of any kind changes
/// the account again, and the dispute-lifecycle kinds do not touch the
/// ledger either (deposits and withdrawals still historize themselves).
pub proof fn lemma_locked_is_absorbing(s: Snapshot, t: Transaction)
    requires
        s.accounts.contains_key(t.client as u64),
        s.accounts[t.client as u64].locked,
    ensures
        spec_apply(s, t).accounts.contains_key(t.client as u64),
        spec_apply(s, t).accounts[t.client as u64] == s.accounts[t.client as u64],
        !(t.kind == TransactionKind::Deposit || t.kind == TransactionKind::Withdrawal)
            ==> spec_apply(s, t).history == s.history,
{
    let cid = t.client as u64;
    match t.kind {
        TransactionKind::Deposit => {
            assert(spec_apply(s, t).accounts =~= s.accounts.insert(cid, s.accounts[cid]));
        },
        TransactionKind::Withdrawal => {
            assert(spec_apply(s, t).accounts =~= s.accounts.insert(cid, s.accounts[cid]));
        },
        _ => {},
    }
}

/// Replaying a transaction that was a no-op never changes the state.
pub proof fn lemma_noop_replay(s: Snapshot, t: Transaction)
    requires
        spec_apply(s, t) == s,
    ensures
        spec_apply(spec_apply(s, t), t) == spec_apply(s, t),
{
}

/// A deposit of some amount followed by a withdrawal of the same amount on
/// a fresh account leaves all three balances at zero and the account
/// unlocked, whatever the amount and the transaction ids.
pub proof fn lemma_deposit_withdrawal_roundtrip(
    s: Snapshot,
    client: ClientId,
    tx1: TransactionId,
    tx2: TransactionId,
    a: u64,
)
    requires
        !s.accounts.contains_key(client as u64),
    ensures
        ({
            let t1 = Transaction {
                kind: TransactionKind::Deposit,
                client,
                tx: tx1,
                amount: Some(a),
            };
            let t2 = Transaction {
                kind: TransactionKind::Withdrawal,
                client,
                tx: tx2,
                amount: Some(a),
            };
            let after = spec_apply(spec_apply(s, t1), t2);
            after.accounts.contains_key(client as u64) && after.accounts[client as u64]
                == fresh_account()
        }),
{
}

} // verus!

//! What holds of every step of the state machine, whatever the inputs.

use crate::account::{AccountModel, ClientAccount};
use crate::engine::{run, step, with_client};
use crate::ledger::entry_of;
use crate::transaction::{Transaction, TransactionKind};
use vstd::prelude::*;

verus! {

/// Every account's total is the sum of its available and held funds.
pub open spec fn all_balanced(accounts: Map<u16, ClientAccount>) -> bool {
    forall|client_id: u16| #[trigger]
        accounts.contains_key(client_id) ==> accounts[client_id].is_balanced()
}

/// The client has an account and it is locked.
pub open spec fn is_locked(accounts: Map<u16, ClientAccount>, client_id: u16) -> bool {
    accounts.contains_key(client_id) && accounts[client_id].locked
}

/// The transaction is a chargeback that refers to a ledger entry under
/// dispute.
pub open spec fn is_valid_chargeback(tx: Transaction, ledger: Map<u32, Transaction>) -> bool {
    &&& tx.kind == TransactionKind::Chargeback
    &&& ledger.contains_key(tx.tx_id)
    &&& ledger[tx.tx_id].kind == TransactionKind::Dispute
}

/// A movement of any kind and amount keeps total equal to available plus
/// held.
pub proof fn lemma_movement_keeps_balance(account: AccountModel, kind: TransactionKind, amount: int)
    requires
        account.is_balanced(),
    ensures
        account.moved(kind, amount).is_balanced(),
{
}

/// If every account is balanced before a transaction, every account is
/// balanced after it, whether the transaction was applied, ignored or
/// rejected.
pub proof fn lemma_step_keeps_balance(
    tx: Transaction,
    accounts: Map<u16, ClientAccount>,
    ledger: Map<u32, Transaction>,
)
    requires
        all_balanced(accounts),
    ensures
        all_balanced(step(tx, accounts, ledger).accounts),
{
    let seen = with_client(accounts, tx.client_id);
    assert(all_balanced(seen));
    lemma_movement_keeps_balance(
        seen[tx.client_id]@,
        tx.kind,
        match crate::engine::decision(tx, seen[tx.client_id], ledger) {
            crate::engine::Decision::Move { amount } => amount as int,
            _ => 0,
        },
    );
}

/// No transaction removes an account or unlocks one, and an account becomes
/// locked only by a chargeback for that client that refers to an entry
/// under dispute.
pub proof fn lemma_lock_is_one_way(
    tx: Transaction,
    accounts: Map<u16, ClientAccount>,
    ledger: Map<u32, Transaction>,
    client_id: u16,
)
    ensures
        accounts.contains_key(client_id) ==> step(tx, accounts, ledger).accounts.contains_key(
            client_id,
        ),
        is_locked(accounts, client_id) ==> is_locked(step(tx, accounts, ledger).accounts, client_id),
        !is_locked(accounts, client_id) && is_locked(
            step(tx, accounts, ledger).accounts,
            client_id,
        ) ==> tx.client_id == client_id && is_valid_chargeback(tx, ledger) && step(
            tx,
            accounts,
            ledger,
        ).result is Ok,
{
}

/// A resolve or a chargeback whose reference is missing from the ledger or
/// is not under dispute moves no funds, leaves the ledger as it was and is
/// no error.
pub proof fn lemma_settling_needs_a_dispute(
    tx: Transaction,
    accounts: Map<u16, ClientAccount>,
    ledger: Map<u32, Transaction>,
)
    requires
        tx.kind == TransactionKind::Resolve || tx.kind == TransactionKind::Chargeback,
        match entry_of(ledger, tx.tx_id) {
            Some(p) => p.kind != TransactionKind::Dispute,
            None => true,
        },
    ensures
        step(tx, accounts, ledger).accounts == with_client(accounts, tx.client_id),
        step(tx, accounts, ledger).ledger == ledger,
        step(tx, accounts, ledger).result is Ok,
{
}

/// Replaying a resolve is a no-op: after a resolve has been processed, the
/// same resolve changes neither the accounts nor the ledger, and gives the
/// same verdict.
pub proof fn lemma_resolve_replay_is_noop(
    tx: Transaction,
    accounts: Map<u16, ClientAccount>,
    ledger: Map<u32, Transaction>,
)
    requires
        tx.kind == TransactionKind::Resolve,
    ensures
        ({
            let first = step(tx, accounts, ledger);
            let second = step(tx, first.accounts, first.ledger);
            &&& second.accounts == first.accounts
            &&& second.ledger == first.ledger
            &&& second.result == first.result
        }),
{
    let first = step(tx, accounts, ledger);
    let second = step(tx, first.accounts, first.ledger);
    assert(first.accounts.contains_key(tx.client_id));
    assert(second.accounts =~= first.accounts);
    assert(second.ledger =~= first.ledger);
}

/// A deposit followed by a withdrawal of the same amount for the same client
/// leaves the accounts as they were after the client was looked up, provided
/// the withdrawal passes its funds test (the client had a positive available
/// balance before the deposit) and the deposit does not overflow. With a zero
/// amount it holds without these.
pub proof fn lemma_deposit_then_withdrawal(
    deposit: Transaction,
    withdrawal: Transaction,
    accounts: Map<u16, ClientAccount>,
    ledger: Map<u32, Transaction>,
)
    requires
        deposit.kind == TransactionKind::Deposit,
        withdrawal.kind == TransactionKind::Withdrawal,
        deposit.client_id == withdrawal.client_id,
        deposit.amount == withdrawal.amount,
        ({
            let before = with_client(accounts, deposit.client_id)[deposit.client_id];
            ||| deposit.amount == 0
            ||| (before.available > 0 && before@.moved(
                TransactionKind::Deposit,
                deposit.amount as int,
            ).is_representable())
        }),
    ensures
        ({
            let first = step(deposit, accounts, ledger);
            let second = step(withdrawal, first.accounts, first.ledger);
            second.accounts == with_client(accounts, deposit.client_id)
        }),
{
    let first = step(deposit, accounts, ledger);
    let second = step(withdrawal, first.accounts, first.ledger);
    assert(first.accounts.contains_key(deposit.client_id));
    assert(second.accounts =~= with_client(accounts, deposit.client_id));
}

/// The ledger never loses an entry, and an entry's amount never changes. A
/// deposit or withdrawal leaves every existing entry exactly as it was; only
/// a dispute, resolve or chargeback that is applied rewrites the kind and
/// client of the entry it refers to.
pub proof fn lemma_ledger_keeps_entries(
    tx: Transaction,
    accounts: Map<u16, ClientAccount>,
    ledger: Map<u32, Transaction>,
    tx_id: u32,
)
    requires
        ledger.contains_key(tx_id),
    ensures
        step(tx, accounts, ledger).ledger.contains_key(tx_id),
        step(tx, accounts, ledger).ledger[tx_id].amount == ledger[tx_id].amount,
        tx.kind.opens_entry() || tx.tx_id != tx_id ==> step(tx, accounts, ledger).ledger[tx_id]
            == ledger[tx_id],
{
}

/// If every account is balanced before a run, every account is balanced
/// after it, however far the run got.
pub proof fn lemma_run_keeps_balance(
    txs: Seq<Transaction>,
    accounts: Map<u16, ClientAccount>,
    ledger: Map<u32, Transaction>,
)
    requires
        all_balanced(accounts),
    ensures
        all_balanced(run(txs, accounts, ledger).accounts),
    decreases txs.len(),
{
    if txs.len() > 0 {
        let first = step(txs[0], accounts, ledger);
        lemma_step_keeps_balance(txs[0], accounts, ledger);
        if first.result is Ok {
            lemma_run_keeps_balance(txs.drop_first(), first.accounts, first.ledger);
        }
    }
}

/// A run removes no account and unlocks none.
pub proof fn lemma_run_never_unlocks(
    txs: Seq<Transaction>,
    accounts: Map<u16, ClientAccount>,
    ledger: Map<u32, Transaction>,
    client_id: u16,
)
    ensures
        accounts.contains_key(client_id) ==> run(txs, accounts, ledger).accounts.contains_key(
            client_id,
        ),
        is_locked(accounts, client_id) ==> is_locked(run(txs, accounts, ledger).accounts, client_id),
    decreases txs.len(),
{
    if txs.len() > 0 {
        let first = step(txs[0], accounts, ledger);
        lemma_lock_is_one_way(txs[0], accounts, ledger, client_id);
        if first.result is Ok {
            lemma_run_never_unlocks(txs.drop_first(), first.accounts, first.ledger, client_id);
        }
    }
}

/// A run without a chargeback locks no account.
pub proof fn lemma_run_locks_only_by_chargeback(
    txs: Seq<Transaction>,
    accounts: Map<u16, ClientAccount>,
    ledger: Map<u32, Transaction>,
    client_id: u16,
)
    requires
        forall|i: int| 0 <= i < txs.len() ==> (#[trigger] txs[i]).kind != TransactionKind::Chargeback,
        !is_locked(accounts, client_id),
    ensures
        !is_locked(run(txs, accounts, ledger).accounts, client_id),
    decreases txs.len(),
{
    if txs.len() > 0 {
        let first = step(txs[0], accounts, ledger);
        lemma_lock_is_one_way(txs[0], accounts, ledger, client_id);
        if first.result is Ok {
            let rest = txs.drop_first();
            assert forall|i: int| 0 <= i < rest.len() implies (#[trigger] rest[i]).kind
                != TransactionKind::Chargeback by {
                assert(rest[i] == txs[i + 1]);
            }
            lemma_run_locks_only_by_chargeback(rest, first.accounts, first.ledger, client_id);
        }
    }
}

} // verus!

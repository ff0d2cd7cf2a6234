//! The account state machine: one transaction at a time, in input order.

use crate::account::ClientAccount;
use crate::laws::{all_balanced, lemma_run_keeps_balance, lemma_step_keeps_balance};
use crate::ledger::{add_transaction, entry_of, lookup_transaction};
use crate::transaction::{decoded, PaymentError, Transaction, TransactionKind};
use std::collections::HashMap;
use vstd::prelude::*;

verus! {

broadcast use vstd::std_specs::hash::group_hash_axioms;

/// The accounts once a client has been looked up: a client not seen before
/// gets a zero-balance, unlocked account.
pub open spec fn with_client(accounts: Map<u16, ClientAccount>, client_id: u16) -> Map<
    u16,
    ClientAccount,
> {
    if accounts.contains_key(client_id) {
        accounts
    } else {
        accounts.insert(client_id, ClientAccount::fresh(client_id))
    }
}

/// What the rules say of a transaction before any balance moves.
#[derive(Clone, Copy, Debug, PartialEq, Eq, Structural)]
pub enum Decision {
    /// Move this amount on the client's account.
    Move { amount: i64 },
    /// Skip the record; the run goes on.
    Ignore,
    /// Stop the run with this error.
    Reject { error: PaymentError },
}

/// The rule for each kind. A deposit always moves its own amount. A
/// withdrawal moves its own amount if strictly more than that is available.
/// A dispute moves the amount of the ledger entry it refers to, if there is
/// one; a resolve or a chargeback does so only if that entry is under
/// dispute. A reference that does not meet this is ignored.
pub open spec fn decision(
    tx: Transaction,
    account: ClientAccount,
    ledger: Map<u32, Transaction>,
) -> Decision {
    match tx.kind {
        TransactionKind::Deposit => Decision::Move { amount: tx.amount },
        TransactionKind::Withdrawal => if account.available > tx.amount {
            Decision::Move { amount: tx.amount }
        } else {
            Decision::Reject {
                error: PaymentError::InsufficientFunds {
                    client_id: tx.client_id,
                    available: account.available,
                },
            }
        },
        TransactionKind::Dispute => match entry_of(ledger, tx.tx_id) {
            Some(p) => Decision::Move { amount: p.amount },
            None => Decision::Ignore,
        },
        TransactionKind::Resolve | TransactionKind::Chargeback => match entry_of(
            ledger,
            tx.tx_id,
        ) {
            Some(p) => if p.kind == TransactionKind::Dispute {
                Decision::Move { amount: p.amount }
            } else {
                Decision::Ignore
            },
            None => Decision::Ignore,
        },
    }
}

/// What the ledger holds under `tx.tx_id` once `tx` has moved `amount`: a
/// deposit or withdrawal enters as it is; a dispute, resolve or chargeback
/// replaces the entry it refers to, keeping the amount that was moved.
pub open spec fn ledger_entry(tx: Transaction, amount: i64) -> Transaction {
    if tx.kind.opens_entry() {
        tx
    } else {
        Transaction { kind: tx.kind, client_id: tx.client_id, tx_id: tx.tx_id, amount }
    }
}

/// Accounts, ledger and verdict after one transaction.
pub struct Step {
    pub accounts: Map<u16, ClientAccount>,
    pub ledger: Map<u32, Transaction>,
    pub result: Result<(), PaymentError>,
}

/// One transaction applied to the accounts and the ledger.
///
/// The client is looked up or created first. An ignored or rejected record
/// changes nothing else. A movement that would overflow a balance is an
/// error and changes nothing else. Otherwise the balances move; then a
/// deposit or withdrawal whose identifier is taken is an error with the
/// balances already moved, and any other record is entered in the ledger.
pub open spec fn step(
    tx: Transaction,
    accounts: Map<u16, ClientAccount>,
    ledger: Map<u32, Transaction>,
) -> Step {
    let seen = with_client(accounts, tx.client_id);
    let account = seen[tx.client_id];
    match decision(tx, account, ledger) {
        Decision::Ignore => Step { accounts: seen, ledger, result: Ok(()) },
        Decision::Reject { error } => Step { accounts: seen, ledger, result: Err(error) },
        Decision::Move { amount } => {
            let next = account@.moved(tx.kind, amount as int);
            if !next.is_representable() {
                Step {
                    accounts: seen,
                    ledger,
                    result: Err(PaymentError::BalanceOverflow { client_id: tx.client_id }),
                }
            } else if tx.kind.opens_entry() && ledger.contains_key(tx.tx_id) {
                Step {
                    accounts: seen.insert(tx.client_id, ClientAccount::of_model(next)),
                    ledger,
                    result: Err(PaymentError::DuplicateTransaction { tx_id: tx.tx_id }),
                }
            } else {
                Step {
                    accounts: seen.insert(tx.client_id, ClientAccount::of_model(next)),
                    ledger: ledger.insert(tx.tx_id, ledger_entry(tx, amount)),
                    result: Ok(()),
                }
            }
        },
    }
}

/// A run: the transactions applied in order, up to and including the first
/// one that is an error. What was done before the error stays done.
pub open spec fn run(
    txs: Seq<Transaction>,
    accounts: Map<u16, ClientAccount>,
    ledger: Map<u32, Transaction>,
) -> Step
    decreases txs.len(),
{
    if txs.len() == 0 {
        Step { accounts, ledger, result: Ok(()) }
    } else {
        let first = step(txs[0], accounts, ledger);
        if first.result is Err {
            first
        } else {
            run(txs.drop_first(), first.accounts, first.ledger)
        }
    }
}

/// Looks a client up, creating a zero-balance, unlocked account on first
/// sight, and returns a copy of the account.
pub fn get_add_client(in_id: u16, in_client_list: &mut HashMap<u16, ClientAccount>) -> (account:
    ClientAccount)
    ensures
        final(in_client_list)@ == with_client(old(in_client_list)@, in_id),
        account == final(in_client_list)@[in_id],
{
    match in_client_list.get(&in_id) {
        Some(c) => *c,
        None => {
            let new_client = ClientAccount::new(in_id);
            in_client_list.insert(in_id, new_client);
            new_client
        },
    }
}

/// Decides what a transaction does, given the client's account and the
/// ledger, without changing either.
pub fn decide(tx: &Transaction, account: &ClientAccount, ledger: &HashMap<u32, Transaction>) -> (d:
    Decision)
    ensures
        d == decision(*tx, *account, ledger@),
{
    match tx.kind {
        TransactionKind::Deposit => Decision::Move { amount: tx.amount },
        TransactionKind::Withdrawal => {
            if account.available > tx.amount {
                Decision::Move { amount: tx.amount }
            } else {
                Decision::Reject {
                    error: PaymentError::InsufficientFunds {
                        client_id: tx.client_id,
                        available: account.available,
                    },
                }
            }
        },
        TransactionKind::Dispute => match lookup_transaction(tx.tx_id, ledger) {
            Some(p) => Decision::Move { amount: p.amount },
            None => Decision::Ignore,
        },
        _ => match lookup_transaction(tx.tx_id, ledger) {
            Some(p) => match p.kind {
                TransactionKind::Dispute => Decision::Move { amount: p.amount },
                _ => Decision::Ignore,
            },
            None => Decision::Ignore,
        },
    }
}

/// Processes one transaction and updates the client's account and the
/// ledger, as `step` says.
pub fn process_transaction(
    in_current_tx: &Transaction,
    in_client_list: &mut HashMap<u16, ClientAccount>,
    in_transaction_list: &mut HashMap<u32, Transaction>,
) -> (r: Result<(), PaymentError>)
    ensures
        r == step(*in_current_tx, old(in_client_list)@, old(in_transaction_list)@).result,
        final(in_client_list)@ == step(
            *in_current_tx,
            old(in_client_list)@,
            old(in_transaction_list)@,
        ).accounts,
        final(in_transaction_list)@ == step(
            *in_current_tx,
            old(in_client_list)@,
            old(in_transaction_list)@,
        ).ledger,
        all_balanced(old(in_client_list)@) ==> all_balanced(final(in_client_list)@),
{
    proof {
        if all_balanced(in_client_list@) {
            lemma_step_keeps_balance(*in_current_tx, in_client_list@, in_transaction_list@);
        }
    }
    let the_client = get_add_client(in_current_tx.client_id, in_client_list);
    match decide(in_current_tx, &the_client, in_transaction_list) {
        Decision::Ignore => Ok(()),
        Decision::Reject { error } => Err(error),
        Decision::Move { amount } => match the_client.moved(in_current_tx.kind, amount) {
            None => Err(PaymentError::BalanceOverflow { client_id: in_current_tx.client_id }),
            Some(updated) => {
                in_client_list.insert(in_current_tx.client_id, updated);
                if in_current_tx.kind.opens_entry() {
                    add_transaction(in_current_tx, in_transaction_list)
                } else {
                    let entry = Transaction {
                        kind: in_current_tx.kind,
                        client_id: in_current_tx.client_id,
                        tx_id: in_current_tx.tx_id,
                        amount,
                    };
                    in_transaction_list.insert(in_current_tx.tx_id, entry);
                    Ok(())
                }
            },
        },
    }
}

/// Decodes an incoming record and processes it. A record that cannot be
/// decoded is an error and changes nothing, not even the set of clients.
pub fn process_record(
    kind_name: &str,
    client_id: u16,
    tx_id: u32,
    amount: Option<i64>,
    in_client_list: &mut HashMap<u16, ClientAccount>,
    in_transaction_list: &mut HashMap<u32, Transaction>,
) -> (r: Result<(), PaymentError>)
    ensures
        match decoded(kind_name@, client_id, tx_id, amount) {
            Err(error) => {
                &&& r == Err::<(), PaymentError>(error)
                &&& final(in_client_list)@ == old(in_client_list)@
                &&& final(in_transaction_list)@ == old(in_transaction_list)@
            },
            Ok(tx) => {
                let s = step(tx, old(in_client_list)@, old(in_transaction_list)@);
                &&& r == s.result
                &&& final(in_client_list)@ == s.accounts
                &&& final(in_transaction_list)@ == s.ledger
            },
        },
{
    match Transaction::decode(kind_name, client_id, tx_id, amount) {
        Ok(tx) => process_transaction(&tx, in_client_list, in_transaction_list),
        Err(error) => Err(error),
    }
}

/// Processes the transactions in order and stops at the first error, which
/// it returns; nothing is rolled back.
pub fn process_all(
    txs: &Vec<Transaction>,
    in_client_list: &mut HashMap<u16, ClientAccount>,
    in_transaction_list: &mut HashMap<u32, Transaction>,
) -> (r: Result<(), PaymentError>)
    ensures
        r == run(txs@, old(in_client_list)@, old(in_transaction_list)@).result,
        final(in_client_list)@ == run(
            txs@,
            old(in_client_list)@,
            old(in_transaction_list)@,
        ).accounts,
        final(in_transaction_list)@ == run(
            txs@,
            old(in_client_list)@,
            old(in_transaction_list)@,
        ).ledger,
        all_balanced(old(in_client_list)@) ==> all_balanced(final(in_client_list)@),
{
    let ghost whole = run(txs@, in_client_list@, in_transaction_list@);
    proof {
        if all_balanced(in_client_list@) {
            lemma_run_keeps_balance(txs@, in_client_list@, in_transaction_list@);
        }
    }
    let mut i: usize = 0;
    proof {
        assert(txs@.skip(0) =~= txs@);
    }
    while i < txs.len()
        invariant
            i <= txs.len(),
            all_balanced(old(in_client_list)@) ==> all_balanced(whole.accounts),
            whole == run(txs@, old(in_client_list)@, old(in_transaction_list)@),
            whole == run(txs@.skip(i as int), in_client_list@, in_transaction_list@),
        decreases txs.len() - i,
    {
        proof {
            assert(txs@.skip(i as int)[0] == txs@[i as int]);
            assert(txs@.skip(i as int).drop_first() =~= txs@.skip(i + 1));
        }
        match process_transaction(&txs[i], in_client_list, in_transaction_list) {
            Err(error) => {
                return Err(error);
            },
            Ok(()) => {
                i += 1;
            },
        }
    }
    Ok(())
}

} // verus!

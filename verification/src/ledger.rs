//! The ledger: accepted transactions by identifier, so that a later dispute,
//! resolve or chargeback can find the transaction it refers to.

use crate::transaction::{PaymentError, Transaction};
use std::collections::HashMap;
use vstd::prelude::*;

verus! {

broadcast use vstd::std_specs::hash::group_hash_axioms;

/// What the ledger holds under an identifier, if anything.
pub open spec fn entry_of(ledger: Map<u32, Transaction>, tx_id: u32) -> Option<Transaction> {
    if ledger.contains_key(tx_id) {
        Some(ledger[tx_id])
    } else {
        None
    }
}

/// Enters a transaction under its identifier. An identifier that is already
/// taken is an error, and the ledger stays as it was: an entry is never
/// overwritten on this path.
pub fn add_transaction(in_current_tx: &Transaction, in_transaction_list: &mut HashMap<
    u32,
    Transaction,
>) -> (r: Result<(), PaymentError>)
    ensures
        old(in_transaction_list)@.contains_key(in_current_tx.tx_id) ==> {
            &&& r == Err::<(), PaymentError>(
                (PaymentError::DuplicateTransaction { tx_id: in_current_tx.tx_id }),
            )
            &&& final(in_transaction_list)@ == old(in_transaction_list)@
        },
        !old(in_transaction_list)@.contains_key(in_current_tx.tx_id) ==> {
            &&& r == Ok::<(), PaymentError>(())
            &&& final(in_transaction_list)@ == old(in_transaction_list)@.insert(
                in_current_tx.tx_id,
                *in_current_tx,
            )
        },
{
    if in_transaction_list.contains_key(&in_current_tx.tx_id) {
        return Err(PaymentError::DuplicateTransaction { tx_id: in_current_tx.tx_id });
    }
    in_transaction_list.insert(in_current_tx.tx_id, *in_current_tx);
    Ok(())
}

/// Finds the entry under an identifier. The ledger is not changed.
pub fn lookup_transaction(tx_id: u32, in_transaction_list: &HashMap<u32, Transaction>) -> (r:
    Option<Transaction>)
    ensures
        r == entry_of(in_transaction_list@, tx_id),
{
    match in_transaction_list.get(&tx_id) {
        Some(p) => Some(*p),
        None => None,
    }
}

} // verus!

//! The account table: header and one row per client, in ascending order of
//! client, encoded as CSV.

use crate::account::ClientAccount;
use crate::amount::{account_row, amount_text, decimal_text, header_row};
use std::collections::HashMap;
use vstd::prelude::*;

verus! {

broadcast use vstd::std_specs::hash::group_hash_axioms;

/// The error type of the `csv` crate. Nothing is known of a value of it.
#[verifier::external_type_specification]
#[verifier::external_body]
pub struct ExCsvError(csv::Error);

/// The bytes that the `csv` crate's writer, with its default settings,
/// produces for one record with these fields: the fields, quoted where
/// needed, separated by commas and ended by a line feed.
pub uninterp spec fn csv_record(fields: Seq<Seq<char>>) -> Seq<u8>;

/// The text of each field.
pub open spec fn texts(fields: Seq<String>) -> Seq<Seq<char>> {
    fields.map_values(|s: String| s@)
}

/// Encodes one record with `csv::Writer::write_record` on a fresh writer
/// over an in-memory buffer and takes the buffer back with
/// `csv::Writer::into_inner`. Trusted, on two counts. The call succeeds:
/// the writer checks the number of fields only against an earlier record,
/// and a fresh writer has none; its other errors are those of the
/// underlying writer, and a `Vec<u8>` reports none. And the bytes are those
/// that the writer produces for these fields, which depend on the fields
/// alone.
#[verifier::external_body]
fn encode_record(fields: &Vec<String>) -> (r: Result<Vec<u8>, csv::Error>)
    ensures
        r is Ok,
        r matches Ok(bytes) ==> bytes@ == csv_record(texts(fields@)),
{
    let mut writer = csv::Writer::from_writer(Vec::new());
    writer.write_record(fields)?;
    match writer.into_inner() {
        Ok(bytes) => Ok(bytes),
        Err(e) => Err(csv::Error::from(e.into_error())),
    }
}

/// A record of the table could not be encoded. `row` is 0 for the header
/// and `i + 1` for the account at index `i`.
#[derive(Clone, Copy, Debug, PartialEq, Eq, Structural)]
pub struct EncodingError {
    pub row: usize,
}

/// The fields of the header.
pub open spec fn header_texts() -> Seq<Seq<char>> {
    seq!["client"@, "available"@, "held"@, "total"@, "locked"@]
}

/// The fields of an account's row.
pub open spec fn row_texts(account: ClientAccount) -> Seq<Seq<char>> {
    seq![
        decimal_text(account.client_id as nat),
        amount_text(account.available as int),
        amount_text(account.held as int),
        amount_text(account.total as int),
        if account.locked {
            "true"@
        } else {
            "false"@
        },
    ]
}

/// The table for a list of accounts: the header record, then one record per
/// account, in the order of the list.
pub open spec fn table_text(list: Seq<ClientAccount>) -> Seq<u8>
    decreases list.len(),
{
    if list.len() == 0 {
        csv_record(header_texts())
    } else {
        table_text(list.drop_last()) + csv_record(row_texts(list.last()))
    }
}

/// The accounts of the clients below `upto`, in ascending order of client.
pub open spec fn listed(accounts: Map<u16, ClientAccount>, upto: int) -> Seq<ClientAccount>
    decreases upto,
{
    if upto <= 0 {
        Seq::empty()
    } else {
        let before = listed(accounts, upto - 1);
        let id = (upto - 1) as u16;
        if accounts.contains_key(id) {
            before.push(accounts[id])
        } else {
            before
        }
    }
}

/// Lists every account, in ascending order of client.
pub fn accounts_in_order(accounts: &HashMap<u16, ClientAccount>) -> (list: Vec<ClientAccount>)
    ensures
        list@ == listed(accounts@, 65536),
{
    let mut list: Vec<ClientAccount> = Vec::new();
    let mut next: u32 = 0;
    while next < 65536
        invariant
            next <= 65536,
            list@ == listed(accounts@, next as int),
        decreases 65536 - next,
    {
        let id: u16 = next as u16;
        match accounts.get(&id) {
            Some(account) => {
                list.push(*account);
            },
            None => {},
        }
        next += 1;
    }
    list
}

/// Adds an encoded record to the table, or reports the row whose encoding
/// failed and leaves the table as it was.
pub fn append_record(
    table: &mut Vec<u8>,
    encoded: Result<Vec<u8>, csv::Error>,
    row: usize,
) -> (r: Result<(), EncodingError>)
    ensures
        match encoded {
            Ok(bytes) => r == Ok::<(), EncodingError>(()) && final(table)@ == old(table)@
                + bytes@,
            Err(_) => r == Err::<(), EncodingError>((EncodingError { row })) && final(table)@
                == old(table)@,
        },
{
    match encoded {
        Ok(bytes) => {
            let mut bytes = bytes;
            table.append(&mut bytes);
            Ok(())
        },
        Err(_) => Err(EncodingError { row }),
    }
}

/// Renders the table for a list of accounts. It always succeeds, and the
/// bytes are exactly the table: the header, then the accounts in the order
/// of the list.
pub fn render_accounts(list: &Vec<ClientAccount>) -> (r: Result<Vec<u8>, EncodingError>)
    ensures
        r is Ok,
        r matches Ok(bytes) ==> bytes@ == table_text(list@),
{
    let mut table: Vec<u8> = Vec::new();
    let header = header_row();
    proof {
        assert(texts(header@) =~= header_texts());
        assert(list@.take(0).len() == 0);
    }
    match append_record(&mut table, encode_record(&header), 0) {
        Err(error) => {
            return Err(error);
        },
        Ok(()) => {},
    }
    let mut i: usize = 0;
    while i < list.len()
        invariant
            i <= list.len(),
            table@ == table_text(list@.take(i as int)),
        decreases list.len() - i,
    {
        let row = account_row(&list[i]);
        proof {
            assert(texts(row@) =~= row_texts(list@[i as int]));
            assert(list@.take(i + 1).drop_last() =~= list@.take(i as int));
            assert(list@.take(i + 1).last() == list@[i as int]);
        }
        match append_record(&mut table, encode_record(&row), i + 1) {
            Err(error) => {
                return Err(error);
            },
            Ok(()) => {},
        }
        i += 1;
    }
    proof {
        assert(list@.take(i as int) =~= list@);
    }
    Ok(table)
}

/// Renders the final state of the clients' accounts as a CSV table: the
/// header, then one row per client in ascending order of client. It always
/// succeeds, also for no accounts at all, where the table is the header.
pub fn write_accounts(in_accounts: &HashMap<u16, ClientAccount>) -> (r: Result<
    Vec<u8>,
    EncodingError,
>)
    ensures
        r is Ok,
        r matches Ok(bytes) ==> bytes@ == table_text(listed(in_accounts@, 65536)),
{
    let list = accounts_in_order(in_accounts);
    render_accounts(&list)
}

/// The clients below `upto` that have an account.
pub open spec fn clients_below(accounts: Map<u16, ClientAccount>, upto: int) -> Set<u16> {
    Set::new(|id: u16| id < upto && accounts.contains_key(id))
}

/// The list holds one account for each client below `upto` that has one.
pub proof fn lemma_listed_counts_clients(accounts: Map<u16, ClientAccount>, upto: int)
    requires
        0 <= upto <= 65536,
    ensures
        clients_below(accounts, upto).finite(),
        listed(accounts, upto).len() == clients_below(accounts, upto).len(),
    decreases upto,
{
    if upto == 0 {
        assert(clients_below(accounts, upto) =~= Set::<u16>::empty());
    } else {
        lemma_listed_counts_clients(accounts, upto - 1);
        let id = (upto - 1) as u16;
        let before = clients_below(accounts, upto - 1);
        if accounts.contains_key(id) {
            assert(clients_below(accounts, upto) =~= before.insert(id));
        } else {
            assert(clients_below(accounts, upto) =~= before);
        }
    }
}

/// The table has exactly one row for each account: the list of all accounts
/// is as long as the map has clients.
pub proof fn lemma_listed_counts_accounts(accounts: Map<u16, ClientAccount>)
    requires
        accounts.dom().finite(),
    ensures
        listed(accounts, 65536).len() == accounts.dom().len(),
{
    lemma_listed_counts_clients(accounts, 65536);
    assert(clients_below(accounts, 65536) =~= accounts.dom());
}

/// Every account of a client below `upto` is in the list.
pub proof fn lemma_listed_holds_account(accounts: Map<u16, ClientAccount>, upto: int, id: u16)
    requires
        accounts.contains_key(id),
        id < upto <= 65536,
    ensures
        listed(accounts, upto).contains(accounts[id]),
    decreases upto,
{
    let last = (upto - 1) as u16;
    let before = listed(accounts, upto - 1);
    if id == last {
        assert(before.push(accounts[id]).last() == accounts[id]);
    } else {
        lemma_listed_holds_account(accounts, upto - 1, id);
        let i = choose|i: int| 0 <= i < before.len() && before[i] == accounts[id];
        assert(listed(accounts, upto)[i] == accounts[id]);
    }
}

/// Every entry of the list is the account of some client in the map.
pub proof fn lemma_listed_only_accounts(accounts: Map<u16, ClientAccount>, upto: int, i: int)
    requires
        0 <= upto <= 65536,
        0 <= i < listed(accounts, upto).len(),
    ensures
        exists|id: u16| accounts.contains_key(id) && listed(accounts, upto)[i] == accounts[id],
    decreases upto,
{
    let last = (upto - 1) as u16;
    let before = listed(accounts, upto - 1);
    if i < before.len() {
        lemma_listed_only_accounts(accounts, upto - 1, i);
        let id = choose|id: u16| accounts.contains_key(id) && before[i] == accounts[id];
        assert(listed(accounts, upto)[i] == accounts[id]);
    } else {
        assert(accounts.contains_key(last) && listed(accounts, upto)[i] == accounts[last]);
    }
}

} // verus!

use csv_payment::account::ClientAccount;
use csv_payment::engine::process_transaction;
use csv_payment::table::{
    accounts_in_order, append_record, render_accounts, write_accounts, EncodingError,
};
use csv_payment::transaction::{Transaction, TransactionKind};
use std::collections::HashMap;

fn account(client_id: u16, available: i64, held: i64, total: i64, locked: bool) -> ClientAccount {
    ClientAccount { client_id, available, held, total, locked }
}

#[test]
fn empty_table_is_the_header() {
    let accounts: HashMap<u16, ClientAccount> = HashMap::new();
    assert_eq!(
        write_accounts(&accounts),
        Ok(b"client,available,held,total,locked\n".to_vec())
    );
}

#[test]
fn table_lists_clients_in_ascending_order() {
    let mut accounts: HashMap<u16, ClientAccount> = HashMap::new();
    accounts.insert(300, account(300, 15000, 0, 15000, false));
    accounts.insert(2, account(2, -5, 20000, 19995, true));
    accounts.insert(65535, account(65535, 1, 0, 1, false));
    accounts.insert(0, account(0, 0, 0, 0, false));
    let expected = "client,available,held,total,locked\n\
                    0,0.0000,0.0000,0.0000,false\n\
                    2,-0.0005,2.0000,1.9995,true\n\
                    300,1.5000,0.0000,1.5000,false\n\
                    65535,0.0001,0.0000,0.0001,false\n";
    assert_eq!(write_accounts(&accounts), Ok(expected.as_bytes().to_vec()));
}

#[test]
fn accounts_in_order_lists_each_account_once() {
    let mut accounts: HashMap<u16, ClientAccount> = HashMap::new();
    accounts.insert(9, account(9, 1, 2, 3, false));
    accounts.insert(4, account(4, 5, 0, 5, true));
    accounts.insert(65535, account(65535, 0, 0, 0, false));
    assert_eq!(
        accounts_in_order(&accounts),
        vec![account(4, 5, 0, 5, true), account(9, 1, 2, 3, false), account(65535, 0, 0, 0, false)]
    );
    assert_eq!(accounts_in_order(&HashMap::new()), Vec::new());
}

#[test]
fn render_accounts_keeps_the_order_of_the_list() {
    let list = vec![account(7, 10000, 0, 10000, false), account(3, 0, 0, 0, true)];
    let expected = "client,available,held,total,locked\n\
                    7,1.0000,0.0000,1.0000,false\n\
                    3,0.0000,0.0000,0.0000,true\n";
    assert_eq!(render_accounts(&list), Ok(expected.as_bytes().to_vec()));
}

#[test]
fn append_record_adds_bytes_or_names_the_row() {
    let mut table = b"a,b\n".to_vec();
    assert_eq!(append_record(&mut table, Ok(b"1,2\n".to_vec()), 1), Ok(()));
    assert_eq!(table, b"a,b\n1,2\n".to_vec());
    let failure = csv::Error::from(std::io::Error::other("closed"));
    assert_eq!(append_record(&mut table, Err(failure), 2), Err(EncodingError { row: 2 }));
    assert_eq!(table, b"a,b\n1,2\n".to_vec());
}

#[test]
fn table_after_a_chargeback() {
    let mut accounts: HashMap<u16, ClientAccount> = HashMap::new();
    let mut ledger: HashMap<u32, Transaction> = HashMap::new();
    let steps = [
        Transaction { kind: TransactionKind::Deposit, client_id: 1, tx_id: 1, amount: 50000 },
        Transaction { kind: TransactionKind::Deposit, client_id: 2, tx_id: 2, amount: 25000 },
        Transaction { kind: TransactionKind::Dispute, client_id: 1, tx_id: 1, amount: 0 },
        Transaction { kind: TransactionKind::Chargeback, client_id: 1, tx_id: 1, amount: 0 },
    ];
    for t in steps {
        assert_eq!(process_transaction(&t, &mut accounts, &mut ledger), Ok(()));
    }
    let expected = "client,available,held,total,locked\n\
                    1,0.0000,0.0000,0.0000,true\n\
                    2,2.5000,0.0000,2.5000,false\n";
    assert_eq!(write_accounts(&accounts), Ok(expected.as_bytes().to_vec()));
}

#[test]
fn single_account_table_has_two_lines() {
    let mut accounts: HashMap<u16, ClientAccount> = HashMap::new();
    accounts.insert(1, account(1, 15000, 0, 15000, false));
    let expected = "client,available,held,total,locked\n1,1.5000,0.0000,1.5000,false\n";
    assert_eq!(write_accounts(&accounts), Ok(expected.as_bytes().to_vec()));
    assert_eq!(accounts[&1], account(1, 15000, 0, 15000, false));
}

#[test]
fn table_has_one_line_per_account_after_the_header() {
    let mut accounts: HashMap<u16, ClientAccount> = HashMap::new();
    for id in [5u16, 1, 40000, 77, 0, 65535, 1234] {
        accounts.insert(id, account(id, 10000, 0, 10000, false));
    }
    let table = write_accounts(&accounts).expect("the table is always rendered");
    let text = String::from_utf8(table).expect("the table is text");
    let lines: Vec<&str> = text.lines().collect();
    assert_eq!(lines.len(), accounts.len() + 1);
    assert_eq!(lines[0], "client,available,held,total,locked");
    assert_eq!(lines[1], "0,1.0000,0.0000,1.0000,false");
    assert_eq!(lines[7], "65535,1.0000,0.0000,1.0000,false");
}

use csv_payment::account::ClientAccount;
use csv_payment::amount::{account_row, format_amount, format_count, header_row, parse_amount};
use csv_payment::transaction::{PaymentError, Transaction, TransactionKind};

#[test]
fn kind_names_are_read_exactly() {
    assert_eq!(TransactionKind::from_name("deposit"), Some(TransactionKind::Deposit));
    assert_eq!(TransactionKind::from_name("withdrawal"), Some(TransactionKind::Withdrawal));
    assert_eq!(TransactionKind::from_name("dispute"), Some(TransactionKind::Dispute));
    assert_eq!(TransactionKind::from_name("resolve"), Some(TransactionKind::Resolve));
    assert_eq!(TransactionKind::from_name("chargeback"), Some(TransactionKind::Chargeback));
    assert_eq!(TransactionKind::from_name("DEPOSIT"), None);
    assert_eq!(TransactionKind::from_name(" deposit"), None);
    assert_eq!(TransactionKind::from_name(""), None);
}

#[test]
fn only_deposits_and_withdrawals_open_entries() {
    assert!(TransactionKind::Deposit.opens_entry());
    assert!(TransactionKind::Withdrawal.opens_entry());
    assert!(!TransactionKind::Dispute.opens_entry());
    assert!(!TransactionKind::Resolve.opens_entry());
    assert!(!TransactionKind::Chargeback.opens_entry());
}

#[test]
fn decode_builds_the_transaction() {
    assert_eq!(
        Transaction::decode("withdrawal", 3, 9, Some(15000)),
        Ok(Transaction { kind: TransactionKind::Withdrawal, client_id: 3, tx_id: 9, amount: 15000 })
    );
    assert_eq!(
        Transaction::decode("chargeback", 3, 9, None),
        Ok(Transaction { kind: TransactionKind::Chargeback, client_id: 3, tx_id: 9, amount: 0 })
    );
    assert_eq!(Transaction::decode("refund", 3, 9, Some(1)), Err(PaymentError::UnknownKind));
    assert_eq!(Transaction::decode("refund", 3, 9, None), Err(PaymentError::UnknownKind));
    assert_eq!(
        Transaction::decode("deposit", 3, 9, None),
        Err(PaymentError::MissingAmount { tx_id: 9 })
    );
}

#[test]
fn amounts_have_four_fractional_digits() {
    assert_eq!(format_amount(0), "0.0000");
    assert_eq!(format_amount(50000), "5.0000");
    assert_eq!(format_amount(1), "0.0001");
    assert_eq!(format_amount(12345), "1.2345");
    assert_eq!(format_amount(1020304), "102.0304");
    assert_eq!(format_amount(-1), "-0.0001");
    assert_eq!(format_amount(-25000), "-2.5000");
    assert_eq!(format_amount(i64::MAX), "922337203685477.5807");
    assert_eq!(format_amount(i64::MIN), "-922337203685477.5808");
}

#[test]
fn counts_are_plain_decimal() {
    assert_eq!(format_count(0), "0");
    assert_eq!(format_count(9), "9");
    assert_eq!(format_count(10), "10");
    assert_eq!(format_count(65535), "65535");
    assert_eq!(format_count(u64::MAX), "18446744073709551615");
}

#[test]
fn header_names_the_five_columns() {
    assert_eq!(header_row(), vec!["client", "available", "held", "total", "locked"]);
}

#[test]
fn account_row_renders_each_field() {
    let a = ClientAccount { client_id: 12, available: 15000, held: -2500, total: 12500, locked: true };
    assert_eq!(account_row(&a), vec!["12", "1.5000", "-0.2500", "1.2500", "true"]);
    let b = ClientAccount::new(1);
    assert_eq!(account_row(&b), vec!["1", "0.0000", "0.0000", "0.0000", "false"]);
}

#[test]
fn parse_amount_reads_exact_decimals() {
    assert_eq!(parse_amount(b"5.0"), Some(50000));
    assert_eq!(parse_amount(b"3"), Some(30000));
    assert_eq!(parse_amount(b"1.2345"), Some(12345));
    assert_eq!(parse_amount(b"0.0001"), Some(1));
    assert_eq!(parse_amount(b"0.1"), Some(1000));
    assert_eq!(parse_amount(b"0.12"), Some(1200));
    assert_eq!(parse_amount(b"0.123"), Some(1230));
    assert_eq!(parse_amount(b"10.0"), Some(100000));
    assert_eq!(parse_amount(b"5."), Some(50000));
    assert_eq!(parse_amount(b"0001.5"), Some(15000));
    assert_eq!(parse_amount(b"0000000000000000000000000000000000000001"), Some(10000));
    assert_eq!(parse_amount(b"-2.5"), Some(-25000));
    assert_eq!(parse_amount(b"-0"), Some(0));
}

#[test]
fn parse_amount_refuses_other_text() {
    assert_eq!(parse_amount(b""), None);
    assert_eq!(parse_amount(b"-"), None);
    assert_eq!(parse_amount(b"."), None);
    assert_eq!(parse_amount(b".5"), None);
    assert_eq!(parse_amount(b"-.5"), None);
    assert_eq!(parse_amount(b"1.23456"), None);
    assert_eq!(parse_amount(b"1.2a"), None);
    assert_eq!(parse_amount(b"1.2.3"), None);
    assert_eq!(parse_amount(b"1,5"), None);
    assert_eq!(parse_amount(b"abc"), None);
    assert_eq!(parse_amount(b"+1"), None);
    assert_eq!(parse_amount(b" 1"), None);
    assert_eq!(parse_amount(b"1 "), None);
    assert_eq!(parse_amount(b"1e3"), None);
    assert_eq!(parse_amount(b"--1"), None);
}

#[test]
fn parse_amount_keeps_to_the_range() {
    assert_eq!(parse_amount(b"922337203685477.5807"), Some(i64::MAX));
    assert_eq!(parse_amount(b"922337203685477.5808"), None);
    assert_eq!(parse_amount(b"-922337203685477.5808"), Some(i64::MIN));
    assert_eq!(parse_amount(b"-922337203685477.5809"), None);
    assert_eq!(parse_amount(b"922337203685478"), None);
    assert_eq!(parse_amount(b"99999999999999999999999999999999999999999999"), None);
    assert_eq!(parse_amount(b"-99999999999999999999999999999999999999999999.1"), None);
}

#[test]
fn formatted_amounts_parse_back() {
    for v in [0i64, 1, -1, 9999, 10000, -10001, 123456789, i64::MAX, i64::MIN] {
        assert_eq!(parse_amount(format_amount(v).as_bytes()), Some(v));
    }
}

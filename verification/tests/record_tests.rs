use ledger::amount::Amount;
use ledger::transaction::Kind;
use ledger::transaction::Transaction;

fn fields(parts: &[&str]) -> Vec<Vec<u8>> {
    parts.iter().map(|p| p.as_bytes().to_vec()).collect()
}

#[test]
fn kind_names_fold_ascii_case() {
    assert_eq!(Kind::parse(b"deposit"), Some(Kind::Deposit));
    assert_eq!(Kind::parse(b"DEPOSIT"), Some(Kind::Deposit));
    assert_eq!(Kind::parse(b"Withdrawal"), Some(Kind::Withdrawal));
    assert_eq!(Kind::parse(b"dispute"), Some(Kind::Dispute));
    assert_eq!(Kind::parse(b"Resolve"), Some(Kind::Resolve));
    assert_eq!(Kind::parse(b"chargeBACK"), Some(Kind::Chargeback));
    assert_eq!(Kind::parse(b"deposits"), None);
    assert_eq!(Kind::parse(b""), None);
}

#[test]
fn parses_full_record() {
    let t = Transaction::from_fields(&fields(&["deposit", "1", "7", "10.5"])).unwrap();
    assert_eq!(t.kind(), Kind::Deposit);
    assert_eq!(t.client(), 1);
    assert_eq!(t.id(), 7);
    assert_eq!(t.amount(), Some(Amount::from_scaled(105000)));
}

#[test]
fn parses_record_without_amount() {
    let t = Transaction::from_fields(&fields(&["dispute", "2", "9"])).unwrap();
    assert_eq!(t.kind(), Kind::Dispute);
    assert_eq!(t.client(), 2);
    assert_eq!(t.id(), 9);
    assert_eq!(t.amount(), None);
    let t = Transaction::from_fields(&fields(&["resolve", "2", "9", ""])).unwrap();
    assert_eq!(t.kind(), Kind::Resolve);
    assert_eq!(t.amount(), None);
}

#[test]
fn reports_wrong_field_count() {
    let e = Transaction::from_fields(&fields(&["deposit", "1"])).unwrap_err();
    assert_eq!(e.reason, "record does not have 3 or 4 fields");
    assert!(e.cause.is_none());
    let e = Transaction::from_fields(&fields(&["deposit", "1", "7", "1.0", "x"])).unwrap_err();
    assert_eq!(e.reason, "record does not have 3 or 4 fields");
}

#[test]
fn reports_unknown_kind() {
    let e = Transaction::from_fields(&fields(&["transfer", "1", "7", "1.0"])).unwrap_err();
    assert_eq!(e.reason, "unknown transaction kind");
}

#[test]
fn reports_bad_client() {
    let e = Transaction::from_fields(&fields(&["deposit", "70000", "7", "1.0"])).unwrap_err();
    assert_eq!(e.reason, "client is not an unsigned 16-bit integer");
    let e = Transaction::from_fields(&fields(&["deposit", "-1", "7", "1.0"])).unwrap_err();
    assert_eq!(e.reason, "client is not an unsigned 16-bit integer");
}

#[test]
fn reports_bad_tx() {
    let e = Transaction::from_fields(&fields(&["deposit", "1", "4294967296", "1.0"])).unwrap_err();
    assert_eq!(e.reason, "tx is not an unsigned 32-bit integer");
}

#[test]
fn reports_bad_amount() {
    let e = Transaction::from_fields(&fields(&["deposit", "1", "7", "ten"])).unwrap_err();
    assert_eq!(e.reason, "amount is not a representable decimal");
}

#[test]
fn error_constructors_keep_their_parts() {
    let e = ledger::error::Error::new("reason".to_string());
    assert_eq!(e.reason, "reason");
    assert!(e.cause.is_none());
    let e = ledger::error::Error::with_cause("reason".to_string(), "cause".to_string());
    assert_eq!(e.reason, "reason");
    assert_eq!(e.cause.as_deref(), Some("cause"));
}

use ledger::amount::Amount;
use ledger::bank::Bank;
use ledger::transaction::Transaction;

fn process(bank: &mut Bank, parts: &[&str]) {
    let fields: Vec<Vec<u8>> = parts.iter().map(|p| p.as_bytes().to_vec()).collect();
    let t = Transaction::from_fields(&fields).unwrap();
    bank.process_transaction(t);
}

fn row_text(row: &(u16, Amount, Amount, Amount, bool)) -> (u16, String, String, String, bool) {
    (
        row.0,
        String::from_utf8(row.1.to_decimal()).unwrap(),
        String::from_utf8(row.2.to_decimal()).unwrap(),
        String::from_utf8(row.3.to_decimal()).unwrap(),
        row.4,
    )
}

#[test]
fn deposit_then_dispute_holds_funds() {
    let mut bank = Bank::new();
    process(&mut bank, &["deposit", "1", "1", "10.0"]);
    process(&mut bank, &["deposit", "2", "2", "5.0"]);
    process(&mut bank, &["dispute", "1", "1"]);
    let rows = bank.snapshot();
    assert_eq!(rows.len(), 2);
    assert_eq!(
        row_text(&rows[0]),
        (1, "0.0000".to_string(), "10.0000".to_string(), "10.0000".to_string(), false)
    );
    assert_eq!(
        row_text(&rows[1]),
        (2, "5.0000".to_string(), "0.0000".to_string(), "5.0000".to_string(), false)
    );
}

#[test]
fn resolve_releases_held_funds() {
    let mut bank = Bank::new();
    process(&mut bank, &["deposit", "1", "1", "10.0"]);
    process(&mut bank, &["deposit", "2", "2", "5.0"]);
    process(&mut bank, &["dispute", "1", "1"]);
    process(&mut bank, &["resolve", "1", "1"]);
    let rows = bank.snapshot();
    assert_eq!(
        row_text(&rows[0]),
        (1, "10.0000".to_string(), "0.0000".to_string(), "10.0000".to_string(), false)
    );
}

#[test]
fn chargeback_locks_account_for_good() {
    let mut bank = Bank::new();
    process(&mut bank, &["deposit", "1", "1", "10.0"]);
    process(&mut bank, &["dispute", "1", "1"]);
    process(&mut bank, &["chargeback", "1", "1"]);
    let rows = bank.snapshot();
    assert_eq!(
        row_text(&rows[0]),
        (1, "0.0000".to_string(), "0.0000".to_string(), "0.0000".to_string(), true)
    );
    // The lock does not block further records; the available-funds check
    // rejects this withdrawal on its own.
    process(&mut bank, &["withdrawal", "1", "2", "1.0"]);
    let rows = bank.snapshot();
    assert_eq!(
        row_text(&rows[0]),
        (1, "0.0000".to_string(), "0.0000".to_string(), "0.0000".to_string(), true)
    );
}

#[test]
fn settled_dispute_is_consumed() {
    let mut bank = Bank::new();
    process(&mut bank, &["deposit", "1", "1", "10.0"]);
    process(&mut bank, &["deposit", "1", "2", "4.0"]);
    process(&mut bank, &["dispute", "1", "1"]);
    process(&mut bank, &["chargeback", "1", "1"]);
    // The dispute record is gone: a late resolve or second chargeback of
    // the same transaction changes nothing.
    process(&mut bank, &["resolve", "1", "1"]);
    process(&mut bank, &["chargeback", "1", "1"]);
    let rows = bank.snapshot();
    assert_eq!(
        row_text(&rows[0]),
        (1, "4.0000".to_string(), "0.0000".to_string(), "4.0000".to_string(), true)
    );
}

#[test]
fn withdrawal_beyond_available_is_a_no_op() {
    let mut bank = Bank::new();
    process(&mut bank, &["deposit", "1", "1", "5.0"]);
    process(&mut bank, &["withdrawal", "1", "2", "10.0"]);
    let rows = bank.snapshot();
    assert_eq!(
        row_text(&rows[0]),
        (1, "5.0000".to_string(), "0.0000".to_string(), "5.0000".to_string(), false)
    );
}

#[test]
fn successful_withdrawal_debits_available() {
    let mut bank = Bank::new();
    process(&mut bank, &["deposit", "1", "1", "5.0"]);
    process(&mut bank, &["withdrawal", "1", "2", "1.5"]);
    let rows = bank.snapshot();
    assert_eq!(
        row_text(&rows[0]),
        (1, "3.5000".to_string(), "0.0000".to_string(), "3.5000".to_string(), false)
    );
}

#[test]
fn unknown_dispute_touches_no_account() {
    let mut bank = Bank::new();
    process(&mut bank, &["deposit", "1", "1", "10.0"]);
    process(&mut bank, &["dispute", "1", "99"]);
    let rows = bank.snapshot();
    assert_eq!(rows.len(), 1);
    assert_eq!(
        row_text(&rows[0]),
        (1, "10.0000".to_string(), "0.0000".to_string(), "10.0000".to_string(), false)
    );
    // On an empty ledger it creates nothing either.
    let mut empty = Bank::new();
    process(&mut empty, &["dispute", "5", "99"]);
    assert_eq!(empty.snapshot().len(), 0);
}

#[test]
fn dispute_follows_the_deposit_client() {
    // The dispute names client 2, but the referenced deposit belongs to
    // client 1: the hold lands on client 1's account.
    let mut bank = Bank::new();
    process(&mut bank, &["deposit", "1", "1", "10.0"]);
    process(&mut bank, &["deposit", "2", "2", "5.0"]);
    process(&mut bank, &["dispute", "2", "1"]);
    let rows = bank.snapshot();
    assert_eq!(
        row_text(&rows[0]),
        (1, "0.0000".to_string(), "10.0000".to_string(), "10.0000".to_string(), false)
    );
    assert_eq!(
        row_text(&rows[1]),
        (2, "5.0000".to_string(), "0.0000".to_string(), "5.0000".to_string(), false)
    );
}

#[test]
fn dispute_with_insufficient_available_is_dropped() {
    let mut bank = Bank::new();
    process(&mut bank, &["deposit", "1", "1", "10.0"]);
    process(&mut bank, &["withdrawal", "1", "2", "8.0"]);
    process(&mut bank, &["dispute", "1", "1"]);
    // Not enough available to hold 10.0, so the dispute is dropped and a
    // resolve of it later finds nothing.
    process(&mut bank, &["resolve", "1", "1"]);
    let rows = bank.snapshot();
    assert_eq!(
        row_text(&rows[0]),
        (1, "2.0000".to_string(), "0.0000".to_string(), "2.0000".to_string(), false)
    );
}

#[test]
fn deposit_without_amount_is_skipped() {
    let mut bank = Bank::new();
    process(&mut bank, &["deposit", "1", "1"]);
    assert_eq!(bank.snapshot().len(), 0);
}

#[test]
fn duplicate_deposit_id_displaces_the_original() {
    let mut bank = Bank::new();
    process(&mut bank, &["deposit", "1", "1", "10.0"]);
    process(&mut bank, &["deposit", "1", "1", "2.0"]);
    process(&mut bank, &["dispute", "1", "1"]);
    // The second deposit overwrote the history entry, so the dispute
    // holds 2.0, not 10.0.
    let rows = bank.snapshot();
    assert_eq!(
        row_text(&rows[0]),
        (1, "10.0000".to_string(), "2.0000".to_string(), "12.0000".to_string(), false)
    );
}

#[test]
fn snapshot_keeps_creation_order() {
    let mut bank = Bank::new();
    process(&mut bank, &["deposit", "3", "1", "1.0"]);
    process(&mut bank, &["deposit", "1", "2", "0.5"]);
    process(&mut bank, &["deposit", "2", "3", "0.5"]);
    process(&mut bank, &["deposit", "1", "4", "0.5"]);
    let rows = bank.snapshot();
    let ids: Vec<u16> = rows.iter().map(|r| r.0).collect();
    assert_eq!(ids, vec![3, 1, 2]);
    assert_eq!(row_text(&rows[1]).1, "1.0000");
}

#[test]
fn accounts_report_available_held_total_and_lock() {
    let mut bank = Bank::new();
    process(&mut bank, &["deposit", "1", "1", "1.0"]);
    process(&mut bank, &["deposit", "2", "2", "1.0"]);
    process(&mut bank, &["dispute", "2", "2"]);
    process(&mut bank, &["deposit", "2", "3", "0.5"]);
    process(&mut bank, &["deposit", "3", "4", "1.0"]);
    process(&mut bank, &["dispute", "3", "4"]);
    process(&mut bank, &["chargeback", "3", "4"]);
    let rows: Vec<(u16, String, String, String, bool)> = bank.snapshot().iter().map(row_text).collect();
    assert_eq!(
        rows,
        vec![
            (1, "1.0000".to_string(), "0.0000".to_string(), "1.0000".to_string(), false),
            (2, "0.5000".to_string(), "1.0000".to_string(), "1.5000".to_string(), false),
            (3, "0.0000".to_string(), "0.0000".to_string(), "0.0000".to_string(), true),
        ]
    )
}

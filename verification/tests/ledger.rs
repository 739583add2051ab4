use hoops_app::amount::Amount;
use hoops_app::reconcile::{
    refresh_snapshot, submit_and_persist, Reconciler, SubmissionStatus,
};
use hoops_app::repository::{Create, Read, ReadError, Repository, Table};
use hoops_app::store::{MemStore, RowStore};
use hoops_app::timestamp::Timestamp;
use hoops_app::transaction::{RowField, StorageRow, Transaction};

fn amount(negative: bool, mantissa: u128, scale: u32) -> Amount {
    Amount::from_scaled(negative, mantissa, scale).unwrap()
}

fn ts(year: u16, month: u8, day: u8, hour: u8, minute: u8, second: u8) -> Timestamp {
    Timestamp::new(year, month, day, hour, minute, second).unwrap()
}

fn tx(payee: &str, mantissa: u128, scale: u32, t: Timestamp, description: Option<&str>) -> Transaction {
    Transaction::new(
        amount(false, mantissa, scale),
        payee.to_string(),
        Some(t),
        description.map(|d| d.to_string()),
    )
}

fn same_fields(a: &Transaction, b: &Transaction) -> bool {
    a.id == b.id && a.amount == b.amount && a.payee == b.payee && a.description == b.description
        && a.timestamp == b.timestamp
}

#[test]
fn table_name_is_transactions() {
    assert_eq!(<Transaction as Table>::table_name(), "transactions");
}

#[test]
fn row_round_trip_preserves_every_field() {
    let t = tx(
        "Alice",
        19999999999,
        9,
        ts(2023, 10, 9, 12, 34, 56),
        Some("groceries"),
    );
    let row = t.to_row();
    assert_eq!(row.amount, "19.999999999");
    assert_eq!(row.timestamp.as_deref(), Some("2023-10-09T12:34:56+00:00"));
    let back = Transaction::from_row(row).unwrap();
    assert!(same_fields(&t, &back));
}

#[test]
fn row_round_trip_without_timestamp_or_description() {
    let t = Transaction::new(amount(true, 500, 2), "Bob".to_string(), None, None);
    let row = t.to_row();
    assert_eq!(row.timestamp, None);
    assert_eq!(row.description, None);
    let back = Transaction::from_row(row).unwrap();
    assert!(same_fields(&t, &back));
}

#[test]
fn to_row_is_deterministic() {
    let t = tx("Carol", 105, 1, ts(2021, 1, 2, 3, 4, 5), None);
    let r1 = t.to_row();
    let r2 = t.to_row();
    assert_eq!(r1.id, r2.id);
    assert_eq!(r1.amount, r2.amount);
    assert_eq!(r1.description, r2.description);
    assert_eq!(r1.payee, r2.payee);
    assert_eq!(r1.timestamp, r2.timestamp);
}

fn good_row() -> StorageRow {
    tx("Dora", 1000, 2, ts(2022, 6, 1, 8, 0, 0), Some("rent")).to_row()
}

#[test]
fn malformed_rows_are_rejected_with_the_field() {
    let mut bad_id = good_row();
    bad_id.id = "not-a-uuid".to_string();
    assert_eq!(Transaction::from_row(bad_id).unwrap_err().field, RowField::Id);

    let mut bad_amount = good_row();
    bad_amount.amount = "12.x".to_string();
    assert_eq!(Transaction::from_row(bad_amount).unwrap_err().field, RowField::Amount);

    let mut bad_ts = good_row();
    bad_ts.timestamp = Some("2022-02-30T00:00:00Z".to_string());
    assert_eq!(Transaction::from_row(bad_ts).unwrap_err().field, RowField::Timestamp);

    let mut bad_payee = good_row();
    bad_payee.payee = String::new();
    assert_eq!(Transaction::from_row(bad_payee).unwrap_err().field, RowField::Payee);
}

#[test]
fn empty_description_is_no_description() {
    let t1 = Transaction::new(
        amount(false, 100, 2),
        "Eve".to_string(),
        None,
        Some(String::new()),
    );
    let t2 = Transaction::new(amount(false, 100, 2), "Eve".to_string(), None, None);
    assert_eq!(t1.description, None);
    assert_eq!(t2.description, None);
    assert_eq!(t1.to_row().description, None);
}

#[test]
fn read_many_fails_entirely_on_one_bad_row() {
    let mut store = MemStore::new();
    store.insert_row(good_row()).unwrap();
    let mut bad = good_row();
    bad.amount = "wrong".to_string();
    store.insert_row(bad).unwrap();
    let repo = Repository::new(store);
    match repo.read_many() {
        Err(ReadError::Malformed(e)) => assert_eq!(e.field, RowField::Amount),
        other => panic!("expected a malformed-row failure, got {:?}", other.is_ok()),
    }
}

#[test]
fn read_many_returns_most_recent_first() {
    let t1 = tx("first", 1, 0, ts(2023, 1, 1, 0, 0, 0), None);
    let t2 = tx("second", 2, 0, ts(2023, 6, 1, 0, 0, 0), None);
    let t3 = tx("third", 3, 0, ts(2023, 12, 1, 0, 0, 0), None);
    let mut repo = Repository::new(MemStore::new());
    // inserted out of order on purpose
    repo.create_one(t1).unwrap();
    repo.create_one(t3).unwrap();
    repo.create_one(t2).unwrap();
    let all = repo.read_many().unwrap();
    let payees: Vec<&str> = all.iter().map(|t| t.payee.as_str()).collect();
    assert_eq!(payees, ["third", "second", "first"]);
}

#[test]
fn rows_without_timestamps_keep_insertion_order_at_the_end() {
    let mut repo = Repository::new(MemStore::new());
    let a = Transaction::new(amount(false, 1, 0), "a".to_string(), None, None);
    let b = Transaction::new(amount(false, 2, 0), "b".to_string(), None, None);
    let c = tx("c", 3, 0, ts(2023, 1, 1, 0, 0, 0), None);
    repo.create_one(a).unwrap();
    repo.create_one(b).unwrap();
    repo.create_one(c).unwrap();
    let all = repo.read_many().unwrap();
    let payees: Vec<&str> = all.iter().map(|t| t.payee.as_str()).collect();
    assert_eq!(payees, ["c", "a", "b"]);
}

#[test]
fn pending_items_keep_submission_order() {
    let mut rec = Reconciler::new();
    let first = tx("first", 1, 0, ts(2023, 1, 1, 0, 0, 0), None);
    let second = tx("second", 2, 0, ts(2022, 1, 1, 0, 0, 0), None);
    rec.submit(first);
    rec.submit(second);
    // pending entries are stable-sorted by submission order, not by timestamp
    let merged = rec.merged_view();
    let payees: Vec<&str> = merged.iter().map(|t| t.payee.as_str()).collect();
    assert_eq!(payees, ["first", "second"]);
}

#[test]
fn equal_timestamps_keep_insertion_order() {
    let t0 = ts(2023, 5, 5, 5, 5, 5);
    let mut repo = Repository::new(MemStore::new());
    repo.create_one(tx("older", 9, 0, ts(2023, 12, 1, 0, 0, 0), None)).unwrap();
    repo.create_one(tx("a", 1, 0, t0, None)).unwrap();
    repo.create_one(tx("b", 2, 0, t0, None)).unwrap();
    let all = repo.read_many().unwrap();
    let payees: Vec<&str> = all.iter().map(|t| t.payee.as_str()).collect();
    assert_eq!(payees, ["older", "a", "b"]);
}

#[test]
fn merged_view_dedups_pending_against_snapshot() {
    let mut rec = Reconciler::new();
    let pending = tx("Alice", 1000, 2, ts(2023, 3, 1, 0, 0, 0), None);
    let confirmed = tx("Alice", 1000, 2, ts(2023, 3, 1, 0, 0, 5), None);
    rec.submit(pending);
    assert_eq!(rec.merged_view().len(), 1);
    // the snapshot carries the same payee, amount and description
    rec.apply_snapshot(vec![confirmed]);
    let merged = rec.merged_view();
    assert_eq!(merged.len(), 1);
    assert_eq!(merged[0].payee, "Alice");
}

#[test]
fn pending_then_confirmed() {
    let mut rec = Reconciler::new();
    let mut repo = Repository::new(MemStore::new());
    let prior = tx("earlier", 100, 2, ts(2023, 1, 1, 0, 0, 0), None);
    repo.create_one(prior).unwrap();
    refresh_snapshot(&mut rec, &repo).unwrap();
    assert_eq!(rec.merged_view().len(), 1);

    let b = tx("Bob", 500, 2, ts(2023, 2, 1, 0, 0, 0), None);
    let seq_no = submit_and_persist(&mut rec, &mut repo, b).unwrap();
    // rendered immediately: the pending entry stands before the prior snapshot
    let merged = rec.merged_view();
    assert_eq!(merged.len(), 2);
    assert_eq!(merged[0].payee, "Bob");
    assert_eq!(merged[1].payee, "earlier");
    assert_eq!(rec.status_of(seq_no), Some(SubmissionStatus::Pending));
    assert!(rec.needs_refresh());

    refresh_snapshot(&mut rec, &repo).unwrap();
    // the fresh snapshot carries Bob; the pending duplicate is gone
    let merged = rec.merged_view();
    assert_eq!(merged.len(), 2);
    assert_eq!(merged[0].payee, "Bob");
    assert_eq!(merged[1].payee, "earlier");
    assert_eq!(rec.status_of(seq_no), Some(SubmissionStatus::Confirmed));
    assert!(!rec.needs_refresh());
    assert_eq!(rec.status_of(seq_no + 1), None);
}

#[test]
fn failed_read_preserves_pending_and_prior_snapshot() {
    let mut rec = Reconciler::new();
    let mut repo = Repository::new(MemStore::new());
    repo.create_one(tx("kept", 100, 2, ts(2023, 1, 1, 0, 0, 0), None)).unwrap();
    refresh_snapshot(&mut rec, &repo).unwrap();

    repo.store.set_available(false);
    let seq_no = rec.submit(tx("pending", 5, 0, ts(2023, 2, 1, 0, 0, 0), None));
    assert!(refresh_snapshot(&mut rec, &repo).is_err());
    // the error state is distinguishable, and nothing vanishes
    assert!(rec.last_read_failed());
    assert_eq!(rec.status_of(seq_no), Some(SubmissionStatus::Pending));
    let merged = rec.merged_view();
    let payees: Vec<&str> = merged.iter().map(|t| t.payee.as_str()).collect();
    assert_eq!(payees, ["pending", "kept"]);
}

#[test]
fn failed_create_leaves_the_store_unchanged() {
    let mut rec = Reconciler::new();
    let prior = tx("kept", 100, 2, ts(2023, 1, 1, 0, 0, 0), None);
    let mut repo = Repository::new(MemStore::new());
    repo.create_one(prior).unwrap();
    let before: Vec<String> = repo.read_many().unwrap().iter().map(|t| t.payee.clone()).collect();

    repo.store.set_available(false);
    let doomed = tx("doomed", 1, 0, ts(2023, 2, 1, 0, 0, 0), None);
    let seq_no = match submit_and_persist(&mut rec, &mut repo, doomed) {
        Err(_) => rec.version() - 1,
        Ok(_) => panic!("an unreachable store cannot accept an insert"),
    };
    // never left pending forever: the submission is marked failed
    assert_eq!(rec.status_of(seq_no), Some(SubmissionStatus::Failed));
    // a failed read is a distinguishable state, not an empty list
    assert!(refresh_snapshot(&mut rec, &repo).is_err());
    assert!(rec.last_read_failed());

    repo.store.set_available(true);
    let after: Vec<String> = repo.read_many().unwrap().iter().map(|t| t.payee.clone()).collect();
    assert_eq!(before, after);
}

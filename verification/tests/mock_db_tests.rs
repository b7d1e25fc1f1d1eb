use refund_store::mock_db::MockDb;
use refund_store::store::RefundInterface;
use refund_store::types::{
    Currency, DatabaseError, MerchantStorageScheme, RefundNew, RefundStatus, RefundUpdate,
    StorageError,
};

fn mk_new(rid: &str, pid: &str, mid: &str, tid: &str, amount: i64) -> RefundNew {
    RefundNew {
        refund_id: rid.to_string(),
        merchant_id: mid.to_string(),
        internal_reference_id: format!("ir_{}", rid),
        payment_id: pid.to_string(),
        transaction_id: tid.to_string(),
        pg_refund_id: None,
        total_amount: amount,
        currency: Currency::Usd,
        refund_amount: amount,
        refund_status: RefundStatus::Pending,
        sent_to_gateway: false,
        refund_error_message: None,
        created_at: None,
    }
}

#[test]
fn mock_insert_assigns_ids_from_length() {
    let mut db = MockDb::new(5000);
    let a = db
        .insert_refund(mk_new("r1", "p1", "m1", "t1", 100), MerchantStorageScheme::PostgresOnly)
        .expect("insert");
    let b = db
        .insert_refund(mk_new("r2", "p1", "m1", "t1", 200), MerchantStorageScheme::RedisKv)
        .expect("insert ignores the scheme");
    assert_eq!(a.id, 0);
    assert_eq!(b.id, 1);
    assert_eq!(a.created_at, 5000);
    assert_eq!(a.updated_at, 5000);
}

#[test]
fn mock_find_by_refund_id() {
    let mut db = MockDb::new(5000);
    db.insert_refund(mk_new("r1", "p1", "m1", "t1", 100), MerchantStorageScheme::PostgresOnly)
        .expect("insert");
    let found = db
        .find_refund_by_merchant_id_refund_id("m1", "r1", MerchantStorageScheme::PostgresOnly)
        .expect("find");
    assert_eq!(found.refund_amount, 100);
    let err = db
        .find_refund_by_merchant_id_refund_id("m1", "zz", MerchantStorageScheme::PostgresOnly)
        .expect_err("absent");
    assert_eq!(err, StorageError::DatabaseError(DatabaseError::NotFound));
}

#[test]
fn mock_update_applies_changeset() {
    let mut db = MockDb::new(5000);
    let created = db
        .insert_refund(mk_new("r1", "p1", "m1", "t1", 100), MerchantStorageScheme::PostgresOnly)
        .expect("insert");
    let updated = db
        .update_refund(
            created,
            RefundUpdate::Update {
                pg_refund_id: Some("pg_9".to_string()),
                refund_status: RefundStatus::Success,
                sent_to_gateway: true,
                refund_error_message: None,
            },
            MerchantStorageScheme::PostgresOnly,
        )
        .expect("update");
    assert_eq!(updated.refund_status, RefundStatus::Success);
    assert_eq!(updated.pg_refund_id, Some("pg_9".to_string()));
    assert_eq!(db.refunds[0].refund_status, RefundStatus::Success);
}

#[test]
fn mock_update_missing_row_is_not_found() {
    let mut db = MockDb::new(5000);
    let created = db
        .insert_refund(mk_new("r1", "p1", "m1", "t1", 100), MerchantStorageScheme::PostgresOnly)
        .expect("insert");
    db.refunds.clear();
    let err = db
        .update_refund(
            created,
            RefundUpdate::ErrorUpdate { refund_error_message: None },
            MerchantStorageScheme::PostgresOnly,
        )
        .expect_err("row is gone");
    assert_eq!(err, StorageError::DatabaseError(DatabaseError::NotFound));
}

#[test]
fn mock_find_by_payment_scans_everything() {
    let mut db = MockDb::new(5000);
    db.insert_refund(mk_new("r1", "p1", "m1", "t1", 100), MerchantStorageScheme::PostgresOnly)
        .expect("insert r1");
    db.insert_refund(mk_new("r2", "p2", "m1", "t2", 200), MerchantStorageScheme::PostgresOnly)
        .expect("insert r2");
    db.insert_refund(mk_new("r3", "p1", "m1", "t3", 300), MerchantStorageScheme::PostgresOnly)
        .expect("insert r3");
    let rs = db
        .find_refund_by_payment_id_merchant_id("p1", "m1", MerchantStorageScheme::PostgresOnly)
        .expect("filter");
    assert_eq!(rs.len(), 2);
    assert_eq!(rs[0].refund_id, "r1");
    assert_eq!(rs[1].refund_id, "r3");
}

#[test]
fn mock_transaction_scan_stops_at_first_non_match() {
    // The reference implementation's transaction lookup is a prefix-stop
    // scan: it assumes matching records sit at the head of the list.
    let mut db = MockDb::new(5000);
    db.insert_refund(mk_new("r1", "p1", "m1", "t1", 100), MerchantStorageScheme::PostgresOnly)
        .expect("insert r1");
    db.insert_refund(mk_new("r2", "p2", "m2", "t2", 200), MerchantStorageScheme::PostgresOnly)
        .expect("insert r2");
    db.insert_refund(mk_new("r3", "p3", "m1", "t1", 300), MerchantStorageScheme::PostgresOnly)
        .expect("insert r3");
    let rs = db
        .find_refund_by_merchant_id_transaction_id("m1", "t1", MerchantStorageScheme::PostgresOnly)
        .expect("scan");
    // r3 also matches but sits behind a non-matching record
    assert_eq!(rs.len(), 1);
    assert_eq!(rs[0].refund_id, "r1");
}

#[test]
fn mock_find_by_internal_reference() {
    let mut db = MockDb::new(5000);
    db.insert_refund(mk_new("r1", "p1", "m1", "t1", 100), MerchantStorageScheme::PostgresOnly)
        .expect("insert");
    let found = db
        .find_refund_by_internal_reference_id_merchant_id(
            "ir_r1",
            "m1",
            MerchantStorageScheme::PostgresOnly,
        )
        .expect("find");
    assert_eq!(found.refund_id, "r1");
    let err = db
        .find_refund_by_internal_reference_id_merchant_id(
            "ir_r1",
            "m2",
            MerchantStorageScheme::PostgresOnly,
        )
        .expect_err("wrong merchant");
    assert_eq!(err, StorageError::DatabaseError(DatabaseError::NotFound));
}

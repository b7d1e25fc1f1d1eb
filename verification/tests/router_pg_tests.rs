use refund_store::store::{RefundInterface, Store};
use refund_store::types::{
    Currency, DatabaseError, MerchantStorageScheme, RefundNew, RefundStatus, RefundUpdate,
    StorageError,
};

fn mk_new(rid: &str, pid: &str, mid: &str, tid: &str, amount: i64) -> RefundNew {
    RefundNew {
        refund_id: rid.to_string(),
        merchant_id: mid.to_string(),
        internal_reference_id: format!("ir_{}", rid),
        payment_id: pid.to_string(),
        transaction_id: tid.to_string(),
        pg_refund_id: None,
        total_amount: amount,
        currency: Currency::Usd,
        refund_amount: amount,
        refund_status: RefundStatus::Pending,
        sent_to_gateway: false,
        refund_error_message: None,
        created_at: None,
    }
}

#[test]
fn pg_insert_assigns_sequence_and_finds() {
    let mut store = Store::new(2000, 4);
    let a = store
        .insert_refund(mk_new("r1", "p1", "m1", "t1", 100), MerchantStorageScheme::PostgresOnly)
        .expect("insert r1");
    let b = store
        .insert_refund(mk_new("r2", "p1", "m1", "t2", 200), MerchantStorageScheme::PostgresOnly)
        .expect("insert r2");
    assert_eq!(a.id, 1);
    assert_eq!(b.id, 2);
    let found = store
        .find_refund_by_merchant_id_refund_id("m1", "r2", MerchantStorageScheme::PostgresOnly)
        .expect("find r2");
    assert_eq!(found, b);
}

#[test]
fn pg_insert_and_update_produce_no_side_channels() {
    let mut store = Store::new(2000, 4);
    let created = store
        .insert_refund(mk_new("r1", "p1", "m1", "t1", 100), MerchantStorageScheme::PostgresOnly)
        .expect("insert");
    store
        .update_refund(
            created,
            RefundUpdate::StatusUpdate {
                refund_status: RefundStatus::Success,
                sent_to_gateway: true,
            },
            MerchantStorageScheme::PostgresOnly,
        )
        .expect("update");
    assert!(store.lookups.is_empty());
    assert!(store.streams.is_empty());
    assert!(store.shards.is_empty());
}

#[test]
fn pg_duplicate_insert_is_unique_violation() {
    let mut store = Store::new(2000, 4);
    store
        .insert_refund(mk_new("r1", "p1", "m1", "t1", 100), MerchantStorageScheme::PostgresOnly)
        .expect("insert");
    let err = store
        .insert_refund(mk_new("r1", "p2", "m1", "t2", 300), MerchantStorageScheme::PostgresOnly)
        .expect_err("duplicate (merchant, refund)");
    assert_eq!(err, StorageError::DatabaseError(DatabaseError::UniqueViolation));
    assert_eq!(store.rows.len(), 1);
}

#[test]
fn pg_find_by_payment_filters_rows() {
    let mut store = Store::new(2000, 4);
    store
        .insert_refund(mk_new("r1", "p1", "m1", "t1", 100), MerchantStorageScheme::PostgresOnly)
        .expect("insert r1");
    store
        .insert_refund(mk_new("r2", "p2", "m1", "t2", 200), MerchantStorageScheme::PostgresOnly)
        .expect("insert r2");
    store
        .insert_refund(mk_new("r3", "p1", "m1", "t3", 300), MerchantStorageScheme::PostgresOnly)
        .expect("insert r3");
    let rs = store
        .find_refund_by_payment_id_merchant_id("p1", "m1", MerchantStorageScheme::PostgresOnly)
        .expect("filter");
    assert_eq!(rs.len(), 2);
    assert_eq!(rs[0].refund_id, "r1");
    assert_eq!(rs[1].refund_id, "r3");
}

#[test]
fn pg_find_by_payment_with_zero_refunds_is_empty() {
    let store = Store::new(2000, 4);
    let rs = store
        .find_refund_by_payment_id_merchant_id("p1", "m1", MerchantStorageScheme::PostgresOnly)
        .expect("no matches is not an error");
    assert!(rs.is_empty());
}

#[test]
fn pg_find_by_transaction_filters_rows() {
    let mut store = Store::new(2000, 4);
    store
        .insert_refund(mk_new("r1", "p1", "m1", "t1", 100), MerchantStorageScheme::PostgresOnly)
        .expect("insert r1");
    store
        .insert_refund(mk_new("r2", "p2", "m2", "t1", 200), MerchantStorageScheme::PostgresOnly)
        .expect("insert r2");
    let rs = store
        .find_refund_by_merchant_id_transaction_id("m1", "t1", MerchantStorageScheme::PostgresOnly)
        .expect("filter");
    assert_eq!(rs.len(), 1);
    assert_eq!(rs[0].refund_id, "r1");
}

#[test]
fn pg_update_missing_row_is_not_found() {
    let mut store = Store::new(2000, 4);
    let ghost_row = mk_new("r9", "p9", "m9", "t9", 900);
    let fabricated = store
        .insert_refund(ghost_row, MerchantStorageScheme::PostgresOnly)
        .expect("insert");
    store.rows.clear();
    let err = store
        .update_refund(
            fabricated,
            RefundUpdate::ErrorUpdate { refund_error_message: None },
            MerchantStorageScheme::PostgresOnly,
        )
        .expect_err("row is gone");
    assert_eq!(err, StorageError::DatabaseError(DatabaseError::NotFound));
}

#[test]
fn internal_reference_lookup_is_always_relational() {
    let mut store = Store::new(2000, 4);
    store
        .insert_refund(mk_new("r1", "p1", "m1", "t1", 100), MerchantStorageScheme::PostgresOnly)
        .expect("insert");
    let found = store
        .find_refund_by_internal_reference_id_merchant_id(
            "ir_r1",
            "m1",
            MerchantStorageScheme::RedisKv,
        )
        .expect("found via relational rows regardless of scheme");
    assert_eq!(found.refund_id, "r1");
    let err = store
        .find_refund_by_internal_reference_id_merchant_id(
            "ir_zz",
            "m1",
            MerchantStorageScheme::PostgresOnly,
        )
        .expect_err("absent");
    assert_eq!(err, StorageError::DatabaseError(DatabaseError::NotFound));
}

use refund_store::store::{DrainKind, RefundInterface, Store};
use refund_store::types::{
    Currency, DatabaseError, MerchantStorageScheme, RefundNew, RefundStatus, RefundUpdate,
    StorageError,
};

fn mk_new(rid: &str, pid: &str, mid: &str, tid: &str, amount: i64) -> RefundNew {
    RefundNew {
        refund_id: rid.to_string(),
        merchant_id: mid.to_string(),
        internal_reference_id: format!("ir_{}", rid),
        payment_id: pid.to_string(),
        transaction_id: tid.to_string(),
        pg_refund_id: None,
        total_amount: amount,
        currency: Currency::Usd,
        refund_amount: amount,
        refund_status: RefundStatus::Pending,
        sent_to_gateway: false,
        refund_error_message: None,
        created_at: None,
    }
}

#[test]
fn kv_insert_uses_shard_key_and_field() {
    let mut store = Store::new(1000, 4);
    let r = store
        .insert_refund(mk_new("r1", "p1", "m1", "t1", 500), MerchantStorageScheme::RedisKv)
        .expect("insert");
    assert_eq!(r.id, 0);
    assert_eq!(r.refund_amount, 500);
    assert_eq!(store.shards.len(), 1);
    assert_eq!(store.shards[0].0, "p1_m1");
    assert_eq!(store.shards[0].1.len(), 1);
    assert_eq!(store.shards[0].1[0].0, "pa_p1_ref_r1");
}

#[test]
fn kv_duplicate_insert_rejected_and_data_unchanged() {
    let mut store = Store::new(1000, 4);
    store
        .insert_refund(mk_new("r1", "p1", "m1", "t1", 500), MerchantStorageScheme::RedisKv)
        .expect("first insert");
    let before_payload = store.shards[0].1[0].1.clone();
    let err = store
        .insert_refund(mk_new("r1", "p1", "m1", "t1", 999), MerchantStorageScheme::RedisKv)
        .expect_err("second insert must fail");
    match err {
        StorageError::DuplicateValue(msg) => {
            assert_eq!(msg, "Refund already exists refund_id: r1");
        }
        other => panic!("expected DuplicateValue, got {:?}", other),
    }
    assert_eq!(store.shards[0].1[0].1, before_payload);
    let found = store
        .find_refund_by_merchant_id_refund_id("m1", "r1", MerchantStorageScheme::RedisKv)
        .expect("find");
    assert_eq!(found.refund_amount, 500);
}

#[test]
fn kv_read_your_write() {
    let mut store = Store::new(1000, 4);
    let created = store
        .insert_refund(mk_new("r1", "p1", "m1", "t1", 500), MerchantStorageScheme::RedisKv)
        .expect("insert");
    let by_rid = store
        .find_refund_by_merchant_id_refund_id("m1", "r1", MerchantStorageScheme::RedisKv)
        .expect("find by refund id");
    assert_eq!(by_rid, created);
    let by_txn = store
        .find_refund_by_merchant_id_transaction_id("m1", "t1", MerchantStorageScheme::RedisKv)
        .expect("find by txn");
    assert!(by_txn.contains(&created));
}

#[test]
fn kv_find_by_payment_with_zero_refunds_is_empty() {
    let store = Store::new(1000, 4);
    let rs = store
        .find_refund_by_payment_id_merchant_id("p9", "m9", MerchantStorageScheme::RedisKv)
        .expect("no error for zero matches");
    assert!(rs.is_empty());
}

#[test]
fn kv_insert_appends_drain_record() {
    let mut store = Store::new(1000, 4);
    store
        .insert_refund(mk_new("r1", "p1", "m1", "t1", 500), MerchantStorageScheme::RedisKv)
        .expect("insert");
    assert_eq!(store.streams.len(), 1);
    assert!(store.streams[0].0.starts_with("drainer_stream_"));
    assert_eq!(store.streams[0].1.len(), 1);
    assert_eq!(store.streams[0].1[0].kind, DrainKind::Insert);
}

#[test]
fn kv_insert_writes_relational_replica_and_lookups() {
    let mut store = Store::new(1000, 4);
    store
        .insert_refund(mk_new("r1", "p1", "m1", "t1", 500), MerchantStorageScheme::RedisKv)
        .expect("insert");
    assert_eq!(store.rows.len(), 1);
    assert_eq!(store.rows[0].id, 1);
    assert_eq!(store.lookups.len(), 2);
    assert_eq!(store.lookups[0].lookup_id, "r1_m1");
    assert_eq!(store.lookups[1].lookup_id, "t1_m1");
    assert_eq!(store.lookups[0].result_id, "p1_m1");
    assert_eq!(store.lookups[1].result_id, "p1_m1");
}

#[test]
fn kv_update_overwrites_and_appends_drain_record() {
    let mut store = Store::new(1000, 4);
    let created = store
        .insert_refund(mk_new("r1", "p1", "m1", "t1", 500), MerchantStorageScheme::RedisKv)
        .expect("insert");
    let updated = store
        .update_refund(
            created,
            RefundUpdate::StatusUpdate {
                refund_status: RefundStatus::Success,
                sent_to_gateway: true,
            },
            MerchantStorageScheme::RedisKv,
        )
        .expect("update");
    assert_eq!(updated.refund_status, RefundStatus::Success);
    assert!(updated.sent_to_gateway);
    let found = store
        .find_refund_by_merchant_id_refund_id("m1", "r1", MerchantStorageScheme::RedisKv)
        .expect("find");
    assert_eq!(found.refund_status, RefundStatus::Success);
    assert_eq!(store.streams[0].1.len(), 2);
    assert_eq!(store.streams[0].1[1].kind, DrainKind::Update);
    assert_eq!(store.rows[0].refund_status, RefundStatus::Success);
}

#[test]
fn kv_update_without_relational_row_fails_loud() {
    let mut store = Store::new(1000, 4);
    let created = store
        .insert_refund(mk_new("r1", "p1", "m1", "t1", 500), MerchantStorageScheme::RedisKv)
        .expect("insert");
    store.rows.clear();
    let err = store
        .update_refund(
            created,
            RefundUpdate::ErrorUpdate { refund_error_message: Some("late failure".to_string()) },
            MerchantStorageScheme::RedisKv,
        )
        .expect_err("relational row is gone");
    assert_eq!(err, StorageError::KVError);
    // the key-value copy was still overwritten: fail loud, do not roll back
    let found = store
        .find_refund_by_merchant_id_refund_id("m1", "r1", MerchantStorageScheme::RedisKv)
        .expect("find");
    assert_eq!(found.refund_error_message, Some("late failure".to_string()));
}

#[test]
fn kv_same_refund_id_under_other_payment_fails_loud() {
    let mut store = Store::new(1000, 4);
    store
        .insert_refund(mk_new("r1", "p1", "m1", "t1", 500), MerchantStorageScheme::RedisKv)
        .expect("insert");
    // the relational replica already holds (m1, r1), so the replica insert
    // fails and is surfaced as a key-value path error
    let err = store
        .insert_refund(mk_new("r1", "p2", "m1", "t2", 700), MerchantStorageScheme::RedisKv)
        .expect_err("same refund id under another payment");
    assert_eq!(err, StorageError::KVError);
    // the second shard's key-value write already happened (fail loud)
    assert_eq!(store.shards.len(), 2);
    assert_eq!(store.shards[1].0, "p2_m1");
}

#[test]
fn kv_duplicate_lookup_id_is_unique_violation() {
    let mut store = Store::new(1000, 4);
    store
        .insert_refund(mk_new("r1", "p1", "m1", "t1", 500), MerchantStorageScheme::RedisKv)
        .expect("insert");
    // drop the relational replica so the next insert reaches the
    // reverse-lookup index, whose r1_m1 entry still exists
    store.rows.clear();
    let err = store
        .insert_refund(mk_new("r1", "p2", "m1", "t2", 700), MerchantStorageScheme::RedisKv)
        .expect_err("reverse lookup id already taken");
    assert_eq!(err, StorageError::DatabaseError(DatabaseError::UniqueViolation));
}

#[test]
fn kv_find_missing_lookup_is_not_found() {
    let store = Store::new(1000, 4);
    let err = store
        .find_refund_by_merchant_id_refund_id("m1", "r1", MerchantStorageScheme::RedisKv)
        .expect_err("nothing inserted");
    assert_eq!(err, StorageError::DatabaseError(DatabaseError::NotFound));
}

#[test]
fn kv_present_but_undecodable_value_is_kv_error() {
    let mut store = Store::new(1000, 4);
    store
        .insert_refund(mk_new("r1", "p1", "m1", "t1", 500), MerchantStorageScheme::RedisKv)
        .expect("insert");
    store.shards[0].1[0].1 = "corrupted".to_string();
    let err = store
        .find_refund_by_merchant_id_refund_id("m1", "r1", MerchantStorageScheme::RedisKv)
        .expect_err("payload no longer decodes");
    assert_eq!(err, StorageError::KVError);
}

#[test]
fn kv_scan_drops_undecodable_entries() {
    let mut store = Store::new(1000, 4);
    store
        .insert_refund(mk_new("r1", "p1", "m1", "t1", 500), MerchantStorageScheme::RedisKv)
        .expect("insert r1");
    store
        .insert_refund(mk_new("r2", "p1", "m1", "t2", 700), MerchantStorageScheme::RedisKv)
        .expect("insert r2");
    store.shards[0].1[0].1 = "corrupted".to_string();
    let rs = store
        .find_refund_by_merchant_id_transaction_id("m1", "t2", MerchantStorageScheme::RedisKv)
        .expect("scan is lossy, not failing");
    assert_eq!(rs.len(), 1);
    assert_eq!(rs[0].refund_id, "r2");
}

#[test]
fn kv_insert_replica_is_readable_relationally_before_drain() {
    let mut store = Store::new(1000, 4);
    store
        .insert_refund(mk_new("r1", "p1", "m1", "t1", 500), MerchantStorageScheme::RedisKv)
        .expect("insert");
    // the durable replica query path works even though the drain has not run
    let row = store
        .find_refund_by_merchant_id_refund_id("m1", "r1", MerchantStorageScheme::PostgresOnly)
        .expect("replica row");
    assert_eq!(row.id, 1);
    assert_eq!(row.refund_amount, 500);
}

use std::cell::Cell;

use refund_store::cache::{get_or_populate_cache, redact_cache};
use refund_store::codec::encode_refund;
use refund_store::store::Store;
use refund_store::types::{Currency, Refund, RefundStatus, StorageError};

fn sample_refund(rid: &str, amount: i64) -> Refund {
    Refund {
        id: 0,
        refund_id: rid.to_string(),
        merchant_id: "m1".to_string(),
        internal_reference_id: format!("ir_{}", rid),
        payment_id: "p1".to_string(),
        transaction_id: "t1".to_string(),
        pg_refund_id: None,
        total_amount: amount,
        currency: Currency::Usd,
        refund_amount: amount,
        refund_status: RefundStatus::Pending,
        sent_to_gateway: false,
        refund_error_message: None,
        created_at: 1000,
        updated_at: 1000,
    }
}

#[test]
fn get_or_populate_miss_invokes_once_then_hits() {
    let mut store = Store::new(1000, 4);
    let calls = Cell::new(0u32);
    let first = get_or_populate_cache(&mut store, "cfg", || {
        calls.set(calls.get() + 1);
        Ok(sample_refund("r1", 500))
    })
    .expect("miss populates");
    assert_eq!(calls.get(), 1);
    assert_eq!(first.refund_amount, 500);
    assert_eq!(store.cache_entries.len(), 1);
    assert_eq!(store.cache_entries[0].0, "cfg");

    let second = get_or_populate_cache(&mut store, "cfg", || {
        calls.set(calls.get() + 1);
        Ok(sample_refund("r1", 999))
    })
    .expect("hit");
    // the producer was not invoked again; the stored value won
    assert_eq!(calls.get(), 1);
    assert_eq!(second, first);
}

#[test]
fn get_or_populate_producer_error_propagates() {
    let mut store = Store::new(1000, 4);
    let err = get_or_populate_cache(&mut store, "cfg", || Err(StorageError::KVError))
        .expect_err("producer failed");
    assert_eq!(err, StorageError::KVError);
    assert!(store.cache_entries.is_empty());
}

#[test]
fn get_or_populate_undecodable_value_is_kv_error_not_a_miss() {
    let mut store = Store::new(1000, 4);
    store.cache_entries.push(("cfg".to_string(), "corrupted".to_string()));
    let calls = Cell::new(0u32);
    let err = get_or_populate_cache(&mut store, "cfg", || {
        calls.set(calls.get() + 1);
        Ok(sample_refund("r1", 500))
    })
    .expect_err("a bad stored value is not a cache miss");
    assert_eq!(err, StorageError::KVError);
    assert_eq!(calls.get(), 0);
}

#[test]
fn redact_always_invokes_and_key_is_absent_after() {
    let mut store = Store::new(1000, 4);
    let r = sample_refund("r1", 500);
    store.cache_entries.push(("cfg".to_string(), encode_refund(&r)));
    let calls = Cell::new(0u32);
    let produced = redact_cache(&mut store, "cfg", || {
        calls.set(calls.get() + 1);
        Ok(sample_refund("r1", 700))
    })
    .expect("recompute");
    assert_eq!(calls.get(), 1);
    assert_eq!(produced.refund_amount, 700);
    assert!(store.cache_entries.is_empty());

    // the key may be absent beforehand; the call still invokes and succeeds
    let again = redact_cache(&mut store, "cfg", || {
        calls.set(calls.get() + 1);
        Ok(sample_refund("r1", 800))
    })
    .expect("recompute with absent key");
    assert_eq!(calls.get(), 2);
    assert_eq!(again.refund_amount, 800);
    assert!(store.cache_entries.is_empty());
}

#[test]
fn redact_producer_error_leaves_store_untouched() {
    let mut store = Store::new(1000, 4);
    let r = sample_refund("r1", 500);
    store.cache_entries.push(("cfg".to_string(), encode_refund(&r)));
    let err = redact_cache(&mut store, "cfg", || Err(StorageError::KVError))
        .expect_err("producer failed");
    assert_eq!(err, StorageError::KVError);
    assert_eq!(store.cache_entries.len(), 1);
}

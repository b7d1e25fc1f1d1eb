//! Cache-aside helper over the store's plain key-to-payload entries.
//!
//! `get_or_populate_cache` reads and decodes a key, and only on a true miss
//! invokes the producer once, stores its encoding, and returns it; a store
//! value that fails to decode is an error, not a miss. `redact_cache`
//! always invokes the producer and then deletes the key, so the next
//! reader repopulates. Neither gives concurrent callers mutual exclusion.

use vstd::prelude::*;
use vstd::string::*;
use crate::types::{Refund, StorageError, StorageErrorV};
use crate::codec::{codec_wf, decode_refund, encode_refund, spec_decode, spec_encode};
use crate::store::{
    alist_find, alist_get, alist_has, alist_idx, alist_put, alist_remove, fields_put,
    fields_remove, lemma_alist_at, store_wf, Store, StoreV,
};

verus! {

/// Reads `key` from the store; on a miss, invokes `fun` exactly once,
/// stores its encoded result under `key`, and returns it. A present value
/// that does not decode is a `KVError`, never a silent miss.
pub fn get_or_populate_cache<F: FnOnce() -> Result<Refund, StorageError>>(
    store: &mut Store,
    key: &str,
    fun: F,
) -> (r: Result<Refund, StorageError>)
    requires
        store_wf(old(store)@),
        call_requires(fun, ()),
        forall|fr: Result<Refund, StorageError>|
            #[trigger] call_ensures(fun, (), fr) ==> (fr matches Result::Ok(d) ==> codec_wf(d@)),
    ensures
        ({
            let s0 = old(store)@;
            if alist_has(s0.cache_entries, key@) {
                &&& final(store)@ == s0
                &&& match spec_decode(alist_get(s0.cache_entries, key@)) {
                    Option::Some(v) => r matches Result::Ok(x) && x@ == v,
                    Option::None => r matches Result::Err(e) && e@ == StorageErrorV::KVError,
                }
            } else {
                exists|fr: Result<Refund, StorageError>|
                    {
                        &&& #[trigger] call_ensures(fun, (), fr)
                        &&& match fr {
                            Result::Ok(d) => r == fr && final(store)@ == (StoreV {
                                cache_entries: alist_put(
                                    s0.cache_entries,
                                    key@,
                                    spec_encode(d@),
                                ),
                                ..s0
                            }),
                            Result::Err(_) => r == fr && final(store)@ == s0,
                        }
                    }
            }
        }),
        store_wf(final(store)@),
{
    let ghost s0 = store@;
    let ks = String::from_str(key);
    match alist_find(&store.cache_entries, &ks) {
        Option::Some(i) => {
            proof {
                lemma_alist_at(s0.cache_entries, key@, i as int);
                assert(s0.cache_entries[i as int].1 == store.cache_entries@[i as int].1@);
            }
            match decode_refund(store.cache_entries[i].1.as_str()) {
                Option::Some(x) => Result::Ok(x),
                Option::None => Result::Err(StorageError::KVError),
            }
        },
        Option::None => {
            proof {
                assert(!alist_has(s0.cache_entries, key@)) by {
                    if alist_has(s0.cache_entries, key@) {
                        let j = alist_idx(s0.cache_entries, key@);
                        assert(store.cache_entries@[j].0@ == key@);
                    }
                }
            }
            let res = fun();
            match res {
                Result::Err(e) => Result::Err(e),
                Result::Ok(d) => {
                    let payload = encode_refund(&d);
                    fields_put(&mut store.cache_entries, &ks, &payload);
                    proof {
                        assert(store@ =~= (StoreV {
                            cache_entries: alist_put(s0.cache_entries, key@, spec_encode(d@)),
                            ..s0
                        }));
                    }
                    Result::Ok(d)
                },
            }
        },
    }
}

/// Invokes `fun` unconditionally, deletes `key` from the store whether or
/// not it was present, and returns the produced value. A producer failure
/// leaves the store untouched.
pub fn redact_cache<F: FnOnce() -> Result<Refund, StorageError>>(
    store: &mut Store,
    key: &str,
    fun: F,
) -> (r: Result<Refund, StorageError>)
    requires
        store_wf(old(store)@),
        call_requires(fun, ()),
    ensures
        ({
            let s0 = old(store)@;
            exists|fr: Result<Refund, StorageError>|
                {
                    &&& #[trigger] call_ensures(fun, (), fr)
                    &&& match fr {
                        Result::Ok(_) => r == fr && final(store)@ == (StoreV {
                            cache_entries: alist_remove(s0.cache_entries, key@),
                            ..s0
                        }),
                        Result::Err(_) => r == fr && final(store)@ == s0,
                    }
                }
        }),
        r is Ok ==> !alist_has(final(store)@.cache_entries, key@),
        store_wf(final(store)@),
{
    let ghost s0 = store@;
    let res = fun();
    match res {
        Result::Err(e) => Result::Err(e),
        Result::Ok(d) => {
            let ks = String::from_str(key);
            fields_remove(&mut store.cache_entries, &ks);
            proof {
                assert(store@ =~= (StoreV {
                    cache_entries: alist_remove(s0.cache_entries, key@),
                    ..s0
                }));
            }
            Result::Ok(d)
        },
    }
}

} // verus!

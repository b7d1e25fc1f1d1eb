//! Laws of the router: uniqueness of inserts, read-your-write, isolation of
//! the relational-only path, and preservation of the store invariant.

use vstd::prelude::*;
use crate::types::{RefundNewV, RefundUpdateV, RefundV, StorageErrorV, spec_fresh_refund};
use crate::codec::{codec_wf, lemma_encode_decode_round_trip, spec_encode};
use crate::keys::{
    is_first_seg, lemma_first_seg_shard_key, spec_field_name, spec_lookup_id, spec_shard_key,
};
use crate::store::{
    alist_get, alist_has, alist_idx, alist_put, keys_distinct, kv_find_by_refund_id,
    kv_find_many, kv_insert_step, kv_update_step, lemma_alist_put_distinct,
    lemma_alist_put_frame, lkp_distinct, lkp_has, lemma_lkp_at, pg_insert_step,
    pg_update_step, row_has, row_idx, rows_distinct, spec_dup_msg, spec_first_seg_of,
    spec_scan_prefix, scan_decoded, store_wf, valid_new, LookupV, StoreV,
};
use crate::types::spec_apply_changeset;

verus! {

/// Under relational-only routing, insert and update produce no
/// reverse-lookup entries, no drain records, and no key-value writes.
pub proof fn lemma_relational_only_isolated(
    s: StoreV,
    new: RefundNewV,
    cur: RefundV,
    u: RefundUpdateV,
)
    ensures
        pg_insert_step(s, new).0.lookups == s.lookups,
        pg_insert_step(s, new).0.streams == s.streams,
        pg_insert_step(s, new).0.shards == s.shards,
        pg_insert_step(s, new).0.cache_entries == s.cache_entries,
        pg_update_step(s, cur, u).0.lookups == s.lookups,
        pg_update_step(s, cur, u).0.streams == s.streams,
        pg_update_step(s, cur, u).0.shards == s.shards,
        pg_update_step(s, cur, u).0.cache_entries == s.cache_entries,
{
}

/// The shard fields bound to a key, or the empty hash for an absent shard.
pub open spec fn shard_fields(s: StoreV, key: Seq<char>) -> Seq<(Seq<char>, Seq<char>)> {
    if alist_has(s.shards, key) {
        alist_get(s.shards, key)
    } else {
        Seq::empty()
    }
}

proof fn lemma_shard_fields_distinct(s: StoreV, key: Seq<char>)
    requires
        store_wf(s),
    ensures
        keys_distinct(shard_fields(s, key)),
{
    if alist_has(s.shards, key) {
        let i = alist_idx(s.shards, key);
        assert(0 <= i < s.shards.len() && s.shards[i].0 == key);
    }
}

/// One shard write preserves the store invariant: the duplicate-free shape
/// of the shards and the reachability of every reverse-lookup entry.
proof fn lemma_shards_put_wf(s: StoreV, key: Seq<char>, fields1: Seq<(Seq<char>, Seq<char>)>)
    requires
        store_wf(s),
        keys_distinct(fields1),
    ensures
        ({
            let shards1 = alist_put(s.shards, key, fields1);
            &&& keys_distinct(shards1)
            &&& forall|i: int| 0 <= i < shards1.len() ==> keys_distinct((#[trigger] shards1[i]).1)
            &&& forall|i: int|
                0 <= i < s.lookups.len() ==> alist_has(
                    shards1,
                    (#[trigger] s.lookups[i]).result_id,
                )
            &&& alist_has(shards1, key)
        }),
{
    let shards1 = alist_put(s.shards, key, fields1);
    lemma_alist_put_distinct(s.shards, key, fields1);
    assert forall|i: int| 0 <= i < shards1.len() implies keys_distinct(
        (#[trigger] shards1[i]).1,
    ) by {
        if alist_has(s.shards, key) {
            let k = alist_idx(s.shards, key);
            assert(0 <= k < s.shards.len() && s.shards[k].0 == key);
            if i != k {
                assert(shards1[i] == s.shards[i]);
            }
        } else {
            if i < s.shards.len() {
                assert(shards1[i] == s.shards[i]);
            }
        }
    }
    assert forall|i: int| 0 <= i < s.lookups.len() implies alist_has(
        shards1,
        (#[trigger] s.lookups[i]).result_id,
    ) by {
        let rid = s.lookups[i].result_id;
        if rid == key {
        } else {
            lemma_alist_put_frame(s.shards, key, fields1, rid);
        }
    }
}

/// A successful or failed key-value-first insert leaves a well-formed
/// store: every intermediate state of the saga keeps the invariant.
pub proof fn lemma_kv_insert_preserves_wf(s: StoreV, new: RefundNewV)
    requires
        store_wf(s),
        s.next_id < i64::MAX,
    ensures
        store_wf(kv_insert_step(s, new).0),
{
    let key = spec_shard_key(new.payment_id, new.merchant_id);
    let fname = spec_field_name(new.payment_id, new.refund_id);
    let fields = shard_fields(s, key);
    let payload = spec_encode(spec_fresh_refund(new, s.clock));
    let fields1 = alist_put(fields, fname, payload);
    if alist_has(fields, fname) {
    } else {
        lemma_shard_fields_distinct(s, key);
        lemma_alist_put_distinct(fields, fname, payload);
        lemma_shards_put_wf(s, key, fields1);
        if row_has(s.rows, new.merchant_id, new.refund_id) {
        } else {
            let row = crate::store::spec_row_refund(new, s.clock, s.next_id);
            let rows1 = s.rows.push(row);
            assert(rows_distinct(rows1)) by {
                assert forall|i: int, j: int| 0 <= i < j < rows1.len() implies !((
                #[trigger] rows1[i]).merchant_id == (#[trigger] rows1[j]).merchant_id
                    && rows1[i].refund_id == rows1[j].refund_id) by {
                    if j < s.rows.len() {
                        assert(rows1[i] == s.rows[i] && rows1[j] == s.rows[j]);
                    } else {
                        assert(rows1[j] == row);
                        assert(rows1[i] == s.rows[i]);
                    }
                }
            }
            let l1 = spec_lookup_id(new.refund_id, new.merchant_id);
            let l2 = spec_lookup_id(new.transaction_id, new.merchant_id);
            let e1 = LookupV {
                lookup_id: l1,
                linked_id: new.refund_id,
                result_id: key,
                tag: "ref"@,
            };
            let e2 = LookupV {
                lookup_id: l2,
                linked_id: new.refund_id,
                result_id: key,
                tag: "ref"@,
            };
            if lkp_has(s.lookups, l1) {
            } else {
                let lk1 = s.lookups.push(e1);
                assert(lkp_distinct(lk1)) by {
                    assert forall|i: int, j: int| 0 <= i < j < lk1.len() implies (
                    #[trigger] lk1[i]).lookup_id != (#[trigger] lk1[j]).lookup_id by {
                        if j < s.lookups.len() {
                            assert(lk1[i] == s.lookups[i] && lk1[j] == s.lookups[j]);
                        } else {
                            assert(lk1[j] == e1);
                            assert(lk1[i] == s.lookups[i]);
                        }
                    }
                }
                if lkp_has(lk1, l2) {
                    assert(forall|i: int|
                        0 <= i < lk1.len() ==> alist_has(
                            alist_put(s.shards, key, fields1),
                            (#[trigger] lk1[i]).result_id,
                        )) by {
                        assert(forall|i: int|
                            0 <= i < s.lookups.len() ==> lk1[i] == s.lookups[i]);
                        assert(lk1[s.lookups.len() as int] == e1);
                    }
                } else {
                    let lk2 = lk1.push(e2);
                    assert(lkp_distinct(lk2)) by {
                        assert forall|i: int, j: int| 0 <= i < j < lk2.len() implies (
                        #[trigger] lk2[i]).lookup_id != (#[trigger] lk2[j]).lookup_id by {
                            if j < lk1.len() {
                                assert(lk2[i] == lk1[i] && lk2[j] == lk1[j]);
                            } else {
                                assert(lk2[j] == e2);
                                assert(lk2[i] == lk1[i]);
                            }
                        }
                    }
                    assert(forall|i: int|
                        0 <= i < lk2.len() ==> alist_has(
                            alist_put(s.shards, key, fields1),
                            (#[trigger] lk2[i]).result_id,
                        )) by {
                        assert(forall|i: int| 0 <= i < lk1.len() ==> lk2[i] == lk1[i]);
                        assert(forall|i: int|
                            0 <= i < s.lookups.len() ==> lk1[i] == s.lookups[i]);
                        assert(lk1[s.lookups.len() as int] == e1);
                        assert(lk2[lk1.len() as int] == e2);
                    }
                    let sname = crate::keys::spec_stream_name(key, s.drainer_num_partitions);
                    let entries = if alist_has(s.streams, sname) {
                        alist_get(s.streams, sname)
                    } else {
                        Seq::empty()
                    };
                    let entry = crate::store::DrainEntryV {
                        kind: crate::store::DrainKind::Insert,
                        payload,
                    };
                    lemma_alist_put_distinct(s.streams, sname, entries.push(entry));
                }
            }
        }
    }
}

/// A key-value-first update leaves a well-formed store, whether or not the
/// relational replica was found.
pub proof fn lemma_kv_update_preserves_wf(s: StoreV, cur: RefundV, u: RefundUpdateV)
    requires
        store_wf(s),
    ensures
        store_wf(kv_update_step(s, cur, u).0),
{
    let key = spec_shard_key(cur.payment_id, cur.merchant_id);
    let fname = spec_field_name(cur.payment_id, cur.refund_id);
    let fields = shard_fields(s, key);
    let payload = spec_encode(spec_apply_changeset(u, cur));
    let fields1 = alist_put(fields, fname, payload);
    lemma_shard_fields_distinct(s, key);
    lemma_alist_put_distinct(fields, fname, payload);
    lemma_shards_put_wf(s, key, fields1);
    if row_has(s.rows, cur.merchant_id, cur.refund_id) {
        let i = row_idx(s.rows, cur.merchant_id, cur.refund_id);
        assert(0 <= i < s.rows.len() && s.rows[i].merchant_id == cur.merchant_id
            && s.rows[i].refund_id == cur.refund_id);
        let rows1 = s.rows.update(i, spec_apply_changeset(u, s.rows[i]));
        assert(rows_distinct(rows1)) by {
            assert forall|x: int, y: int| 0 <= x < y < rows1.len() implies !((
            #[trigger] rows1[x]).merchant_id == (#[trigger] rows1[y]).merchant_id
                && rows1[x].refund_id == rows1[y].refund_id) by {
                assert(rows1[x].merchant_id == s.rows[x].merchant_id && rows1[x].refund_id
                    == s.rows[x].refund_id);
                assert(rows1[y].merchant_id == s.rows[y].merchant_id && rows1[y].refund_id
                    == s.rows[y].refund_id);
            }
        }
        let sname = crate::keys::spec_stream_name(key, s.drainer_num_partitions);
        let entries = if alist_has(s.streams, sname) {
            alist_get(s.streams, sname)
        } else {
            Seq::empty()
        };
        let entry = crate::store::DrainEntryV { kind: crate::store::DrainKind::Update, payload };
        lemma_alist_put_distinct(s.streams, sname, entries.push(entry));
    }
}

/// A relational-only insert leaves a well-formed store.
pub proof fn lemma_pg_insert_preserves_wf(s: StoreV, new: RefundNewV)
    requires
        store_wf(s),
        s.next_id < i64::MAX,
    ensures
        store_wf(pg_insert_step(s, new).0),
{
    if !row_has(s.rows, new.merchant_id, new.refund_id) {
        let row = crate::store::spec_row_refund(new, s.clock, s.next_id);
        let rows1 = s.rows.push(row);
        assert(rows_distinct(rows1)) by {
            assert forall|i: int, j: int| 0 <= i < j < rows1.len() implies !((
            #[trigger] rows1[i]).merchant_id == (#[trigger] rows1[j]).merchant_id
                && rows1[i].refund_id == rows1[j].refund_id) by {
                if j < s.rows.len() {
                    assert(rows1[i] == s.rows[i] && rows1[j] == s.rows[j]);
                } else {
                    assert(rows1[j] == row);
                    assert(rows1[i] == s.rows[i]);
                }
            }
        }
    }
}

/// A relational-only update leaves a well-formed store.
pub proof fn lemma_pg_update_preserves_wf(s: StoreV, cur: RefundV, u: RefundUpdateV)
    requires
        store_wf(s),
    ensures
        store_wf(pg_update_step(s, cur, u).0),
{
    if row_has(s.rows, cur.merchant_id, cur.refund_id) {
        let i = row_idx(s.rows, cur.merchant_id, cur.refund_id);
        assert(0 <= i < s.rows.len() && s.rows[i].merchant_id == cur.merchant_id
            && s.rows[i].refund_id == cur.refund_id);
        let rows1 = s.rows.update(i, spec_apply_changeset(u, s.rows[i]));
        assert(rows_distinct(rows1)) by {
            assert forall|x: int, y: int| 0 <= x < y < rows1.len() implies !((
            #[trigger] rows1[x]).merchant_id == (#[trigger] rows1[y]).merchant_id
                && rows1[x].refund_id == rows1[y].refund_id) by {
                assert(rows1[x].merchant_id == s.rows[x].merchant_id && rows1[x].refund_id
                    == s.rows[x].refund_id);
                assert(rows1[y].merchant_id == s.rows[y].merchant_id && rows1[y].refund_id
                    == s.rows[y].refund_id);
            }
        }
    }
}

/// Inserting the same refund id a second time under key-value-first routing
/// is rejected with `DuplicateValue`, and the store is left exactly as the
/// first insert left it.
pub proof fn lemma_duplicate_insert_rejected(s: StoreV, new: RefundNewV)
    requires
        store_wf(s),
        kv_insert_step(s, new).1 is Ok,
    ensures
        ({
            let s1 = kv_insert_step(s, new).0;
            kv_insert_step(s1, new) == (
                s1,
                Result::<RefundV, StorageErrorV>::Err(
                    StorageErrorV::DuplicateValue(spec_dup_msg(new.refund_id)),
                ),
            )
        }),
{
    let key = spec_shard_key(new.payment_id, new.merchant_id);
    let fname = spec_field_name(new.payment_id, new.refund_id);
    let fields = shard_fields(s, key);
    let payload = spec_encode(spec_fresh_refund(new, s.clock));
    let fields1 = alist_put(fields, fname, payload);
    let s1 = kv_insert_step(s, new).0;
    assert(!alist_has(fields, fname));
    assert(s1.shards == alist_put(s.shards, key, fields1));
    lemma_shard_fields_distinct(s, key);
    lemma_alist_put_distinct(fields, fname, payload);
    lemma_alist_put_distinct(s.shards, key, fields1);
    assert(alist_has(s1.shards, key));
    assert(alist_get(s1.shards, key) == fields1);
    assert(alist_has(fields1, fname));
    assert(kv_insert_step(s1, new).0 == s1);
    assert(kv_insert_step(s1, new).1 == Result::<RefundV, StorageErrorV>::Err(
        StorageErrorV::DuplicateValue(spec_dup_msg(new.refund_id)),
    ));
}

/// Read-your-write: after a successful key-value-first insert, the point
/// lookup under the refund's alternate id returns exactly the inserted
/// record, and the transaction-id scan returns it as its latest entry.
pub proof fn lemma_read_your_write(s: StoreV, new: RefundNewV)
    requires
        store_wf(s),
        valid_new(new),
        kv_insert_step(s, new).1 is Ok,
    ensures
        ({
            let s1 = kv_insert_step(s, new).0;
            let created = spec_fresh_refund(new, s.clock);
            &&& kv_insert_step(s, new).1 == Result::<RefundV, StorageErrorV>::Ok(created)
            &&& kv_find_by_refund_id(s1, new.merchant_id, new.refund_id) == Result::<
                RefundV,
                StorageErrorV,
            >::Ok(created)
            &&& (match kv_find_many(s1, spec_lookup_id(new.transaction_id, new.merchant_id)) {
                Result::Ok(rs) => rs.len() > 0 && rs.last() == created,
                Result::Err(_) => false,
            })
        }),
{
    let key = spec_shard_key(new.payment_id, new.merchant_id);
    let fname = spec_field_name(new.payment_id, new.refund_id);
    let fields = shard_fields(s, key);
    let created = spec_fresh_refund(new, s.clock);
    let payload = spec_encode(created);
    let fields1 = alist_put(fields, fname, payload);
    let s1 = kv_insert_step(s, new).0;
    let l1 = spec_lookup_id(new.refund_id, new.merchant_id);
    let l2 = spec_lookup_id(new.transaction_id, new.merchant_id);
    let e1 = LookupV { lookup_id: l1, linked_id: new.refund_id, result_id: key, tag: "ref"@ };
    let e2 = LookupV { lookup_id: l2, linked_id: new.refund_id, result_id: key, tag: "ref"@ };

    // The success path pins every branch condition.
    assert(!alist_has(fields, fname));
    assert(!lkp_has(s.lookups, l1));
    assert(!lkp_has(s.lookups.push(e1), l2));
    assert(s1.lookups == s.lookups.push(e1).push(e2));
    assert(s1.shards == alist_put(s.shards, key, fields1));

    // The two new lookup identifiers are distinct from each other and from
    // everything already present.
    assert(l1 != l2) by {
        if l1 == l2 {
            assert(s.lookups.push(e1)[s.lookups.len() as int] == e1);
        }
    }
    assert(crate::store::lkp_distinct(s1.lookups)) by {
        assert forall|i: int, j: int| 0 <= i < j < s1.lookups.len() implies (
        #[trigger] s1.lookups[i]).lookup_id != (#[trigger] s1.lookups[j]).lookup_id by {
            if j < s.lookups.len() {
                assert(s1.lookups[i] == s.lookups[i] && s1.lookups[j] == s.lookups[j]);
            } else if j == s.lookups.len() {
                assert(s1.lookups[j] == e1);
                assert(s1.lookups[i] == s.lookups[i]);
            } else {
                assert(s1.lookups[j] == e2);
                if i < s.lookups.len() {
                    assert(s1.lookups[i] == s.lookups[i]);
                    assert(!lkp_has(s.lookups.push(e1), l2)) by {}
                    assert(s.lookups.push(e1)[i] == s.lookups[i]);
                } else {
                    assert(s1.lookups[i] == e1);
                }
            }
        }
    }
    lemma_lkp_at(s1.lookups, l1, s.lookups.len() as int);
    lemma_lkp_at(s1.lookups, l2, s.lookups.len() as int + 1);

    // The shard key splits back into the payment id.
    assert(is_first_seg(key, new.payment_id)) by {
        assert(key.subrange(0, new.payment_id.len() as int) =~= new.payment_id);
        assert(key[new.payment_id.len() as int] == '_');
        assert(forall|k: int|
            0 <= k < new.payment_id.len() ==> key[k] == new.payment_id[k]);
    }
    assert(exists|rr: Seq<char>| is_first_seg(key, rr));
    lemma_first_seg_shard_key(new.payment_id, new.merchant_id, spec_first_seg_of(key));

    // The stored payload decodes back to the inserted record.
    lemma_shard_fields_distinct(s, key);
    lemma_alist_put_distinct(fields, fname, payload);
    lemma_alist_put_distinct(s.shards, key, fields1);
    assert(codec_wf(created));
    lemma_encode_decode_round_trip(created);
    assert(kv_find_by_refund_id(s1, new.merchant_id, new.refund_id) == Result::<
        RefundV,
        StorageErrorV,
    >::Ok(created));

    // The transaction-id scan sees the new field as its latest entry.
    assert(fields1 == fields.push((fname, payload)));
    let prefix = spec_scan_prefix(spec_first_seg_of(key));
    assert(crate::store::is_prefix_of(prefix, fname)) by {
        assert(fname.subrange(0, prefix.len() as int) =~= prefix);
    }
    assert(fields1.drop_last() =~= fields);
    assert(fields1.last() == (fname, payload));
    assert(scan_decoded(fields1, prefix) == scan_decoded(fields, prefix).push(created));
    assert(kv_find_many(s1, l2) == Result::<Seq<RefundV>, StorageErrorV>::Ok(
        scan_decoded(fields, prefix).push(created),
    ));
}

} // verus!

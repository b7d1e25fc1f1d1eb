//! The storage-scheme router over the modeled stores.
//!
//! A [`Store`] holds the in-memory model of everything this layer touches:
//! the key-value shards (hash structures of encoded refunds), the per-shard
//! drain streams, the plain cache entries, the relational rows, and the
//! reverse-lookup index. Every operation is specified as a pure transition
//! on the store's ghost image, and the executable code is proved to follow
//! that transition exactly.

use vstd::prelude::*;
use vstd::string::*;
use crate::types::{
    DatabaseError, MerchantStorageScheme, Refund, RefundNew, RefundNewV, RefundUpdate,
    RefundUpdateV, RefundV, StorageError, StorageErrorV, spec_apply_changeset, spec_fresh_refund,
};
use crate::codec::{
    codec_wf, decode_refund, encode_refund, opt_sep_free, sep_free, spec_decode, spec_encode,
};
use crate::keys::{
    drainer_stream_name, field_name, first_seg, is_first_seg, lemma_first_seg_unique, lookup_id,
    shard_key, spec_field_name, spec_lookup_id, spec_shard_key, spec_stream_name, underscore_free,
};

verus! {

/// Whether a drain record replays as a relational insert or update.
#[derive(Clone, Copy, PartialEq, Eq, Structural, Debug)]
pub enum DrainKind {
    Insert,
    Update,
}

/// One record of a per-shard drain stream: the operation kind and the
/// encoded record, to be replayed by the out-of-scope drain consumer.
#[derive(Debug, PartialEq)]
pub struct DrainEntry {
    pub kind: DrainKind,
    pub payload: String,
}

/// Ghost image of a [`DrainEntry`].
#[verifier::ext_equal]
pub ghost struct DrainEntryV {
    pub kind: DrainKind,
    pub payload: Seq<char>,
}

impl View for DrainEntry {
    type V = DrainEntryV;

    open spec fn view(&self) -> DrainEntryV {
        DrainEntryV { kind: self.kind, payload: self.payload@ }
    }
}

/// One row of the reverse-lookup index: an alternate lookup identifier, the
/// business identifier it was created for, the shard key it resolves to, and
/// a classification tag.
#[derive(Debug, PartialEq)]
pub struct ReverseLookup {
    pub lookup_id: String,
    pub linked_id: String,
    pub result_id: String,
    pub tag: String,
}

/// Ghost image of a [`ReverseLookup`].
#[verifier::ext_equal]
pub ghost struct LookupV {
    pub lookup_id: Seq<char>,
    pub linked_id: Seq<char>,
    pub result_id: Seq<char>,
    pub tag: Seq<char>,
}

impl View for ReverseLookup {
    type V = LookupV;

    open spec fn view(&self) -> LookupV {
        LookupV {
            lookup_id: self.lookup_id@,
            linked_id: self.linked_id@,
            result_id: self.result_id@,
            tag: self.tag@,
        }
    }
}

/// The in-memory model of the storage backends.
pub struct Store {
    /// Key-value shards: shard key to hash of field name to encoded record.
    pub shards: Vec<(String, Vec<(String, String)>)>,
    /// Per-shard drain streams, in append order.
    pub streams: Vec<(String, Vec<DrainEntry>)>,
    /// Plain key-to-payload entries used by the cache-aside helper.
    pub cache_entries: Vec<(String, String)>,
    /// Relational rows, in insertion order.
    pub rows: Vec<Refund>,
    /// Reverse-lookup index rows.
    pub lookups: Vec<ReverseLookup>,
    /// Next relational sequence value.
    pub next_id: i64,
    /// The store's clock, used for defaulted creation times.
    pub clock: i64,
    /// How many physical drain logs exist.
    pub drainer_num_partitions: u64,
}

/// Ghost image of a [`Store`].
#[verifier::ext_equal]
pub ghost struct StoreV {
    pub shards: Seq<(Seq<char>, Seq<(Seq<char>, Seq<char>)>)>,
    pub streams: Seq<(Seq<char>, Seq<DrainEntryV>)>,
    pub cache_entries: Seq<(Seq<char>, Seq<char>)>,
    pub rows: Seq<RefundV>,
    pub lookups: Seq<LookupV>,
    pub next_id: int,
    pub clock: int,
    pub drainer_num_partitions: int,
}

pub open spec fn fields_view(v: Seq<(String, String)>) -> Seq<(Seq<char>, Seq<char>)> {
    v.map_values(|q: (String, String)| (q.0@, q.1@))
}

pub open spec fn shards_view(v: Seq<(String, Vec<(String, String)>)>) -> Seq<
    (Seq<char>, Seq<(Seq<char>, Seq<char>)>),
> {
    v.map_values(|p: (String, Vec<(String, String)>)| (p.0@, fields_view(p.1@)))
}

pub open spec fn streams_view(v: Seq<(String, Vec<DrainEntry>)>) -> Seq<
    (Seq<char>, Seq<DrainEntryV>),
> {
    v.map_values(|p: (String, Vec<DrainEntry>)| (p.0@, p.1@.map_values(|e: DrainEntry| e@)))
}

pub open spec fn rows_view(v: Seq<Refund>) -> Seq<RefundV> {
    v.map_values(|r: Refund| r@)
}

pub open spec fn lookups_view(v: Seq<ReverseLookup>) -> Seq<LookupV> {
    v.map_values(|l: ReverseLookup| l@)
}

impl View for Store {
    type V = StoreV;

    open spec fn view(&self) -> StoreV {
        StoreV {
            shards: shards_view(self.shards@),
            streams: streams_view(self.streams@),
            cache_entries: fields_view(self.cache_entries@),
            rows: rows_view(self.rows@),
            lookups: lookups_view(self.lookups@),
            next_id: self.next_id as int,
            clock: self.clock as int,
            drainer_num_partitions: self.drainer_num_partitions as int,
        }
    }
}

// ---------------------------------------------------------------------------
// Association lists keyed by character strings.
// ---------------------------------------------------------------------------

pub open spec fn alist_has<T>(s: Seq<(Seq<char>, T)>, k: Seq<char>) -> bool {
    exists|i: int| 0 <= i < s.len() && (#[trigger] s[i]).0 == k
}

pub open spec fn alist_idx<T>(s: Seq<(Seq<char>, T)>, k: Seq<char>) -> int {
    choose|i: int| 0 <= i < s.len() && (#[trigger] s[i]).0 == k
}

pub open spec fn alist_get<T>(s: Seq<(Seq<char>, T)>, k: Seq<char>) -> T {
    s[alist_idx(s, k)].1
}

pub open spec fn alist_put<T>(s: Seq<(Seq<char>, T)>, k: Seq<char>, v: T) -> Seq<
    (Seq<char>, T),
> {
    if alist_has(s, k) {
        s.update(alist_idx(s, k), (k, v))
    } else {
        s.push((k, v))
    }
}

pub open spec fn alist_remove<T>(s: Seq<(Seq<char>, T)>, k: Seq<char>) -> Seq<(Seq<char>, T)> {
    if alist_has(s, k) {
        s.remove(alist_idx(s, k))
    } else {
        s
    }
}

pub open spec fn keys_distinct<T>(s: Seq<(Seq<char>, T)>) -> bool {
    forall|i: int, j: int| 0 <= i < j < s.len() ==> (#[trigger] s[i]).0 != (#[trigger] s[j]).0
}

/// In a duplicate-free list, any matching index is the looked-up one.
pub proof fn lemma_alist_at<T>(s: Seq<(Seq<char>, T)>, k: Seq<char>, i: int)
    requires
        keys_distinct(s),
        0 <= i < s.len(),
        s[i].0 == k,
    ensures
        alist_has(s, k),
        alist_idx(s, k) == i,
        alist_get(s, k) == s[i].1,
{
    assert(alist_has(s, k));
    let j = alist_idx(s, k);
    if i != j {
        assert(s[i].0 == s[j].0);
        assert(false);
    }
}

pub proof fn lemma_alist_put_distinct<T>(s: Seq<(Seq<char>, T)>, k: Seq<char>, v: T)
    requires
        keys_distinct(s),
    ensures
        keys_distinct(alist_put(s, k, v)),
        alist_has(alist_put(s, k, v), k),
        alist_get(alist_put(s, k, v), k) == v,
    decreases s.len(),
{
    let t = alist_put(s, k, v);
    if alist_has(s, k) {
        let i = alist_idx(s, k);
        assert(t == s.update(i, (k, v)));
        assert(keys_distinct(t)) by {
            assert forall|x: int, y: int| 0 <= x < y < t.len() implies (#[trigger] t[x]).0 != (
            #[trigger] t[y]).0 by {
                assert(t[x].0 == if x == i { k } else { s[x].0 });
                assert(t[y].0 == if y == i { k } else { s[y].0 });
                assert(s[i].0 == k);
            }
        }
        lemma_alist_at(t, k, i);
    } else {
        assert(t == s.push((k, v)));
        assert(keys_distinct(t)) by {
            assert forall|x: int, y: int| 0 <= x < y < t.len() implies (#[trigger] t[x]).0 != (
            #[trigger] t[y]).0 by {
                if y < s.len() {
                    assert(t[x] == s[x] && t[y] == s[y]);
                } else {
                    assert(t[y].0 == k);
                    assert(t[x] == s[x]);
                    assert(!(s[x].0 == k));
                }
            }
        }
        lemma_alist_at(t, k, s.len() as int);
    }
}

/// A put leaves every other key's binding as it was.
pub proof fn lemma_alist_put_frame<T>(s: Seq<(Seq<char>, T)>, k: Seq<char>, v: T, k2: Seq<char>)
    requires
        keys_distinct(s),
        k2 != k,
    ensures
        alist_has(alist_put(s, k, v), k2) == alist_has(s, k2),
        alist_has(s, k2) ==> alist_get(alist_put(s, k, v), k2) == alist_get(s, k2),
{
    let t = alist_put(s, k, v);
    if alist_has(s, k) {
        let i = alist_idx(s, k);
        if alist_has(s, k2) {
            let j = alist_idx(s, k2);
            assert(s[j].0 == k2);
            assert(j != i);
            assert(t[j].0 == k2);
            lemma_alist_put_distinct(s, k, v);
            lemma_alist_at(t, k2, j);
        }
        if alist_has(t, k2) {
            let j = alist_idx(t, k2);
            assert(t[j].0 == k2);
            assert(j != i);
            assert(s[j].0 == k2);
        }
    } else {
        if alist_has(s, k2) {
            let j = alist_idx(s, k2);
            assert(t[j].0 == k2);
            lemma_alist_put_distinct(s, k, v);
            lemma_alist_at(t, k2, j);
        }
        if alist_has(t, k2) {
            let j = alist_idx(t, k2);
            assert(t[j].0 == k2);
            assert(j < s.len());
            assert(s[j].0 == k2);
        }
    }
}

/// Removing a key leaves a duplicate-free list without that key.
pub proof fn lemma_alist_remove<T>(s: Seq<(Seq<char>, T)>, k: Seq<char>)
    requires
        keys_distinct(s),
    ensures
        keys_distinct(alist_remove(s, k)),
        !alist_has(alist_remove(s, k), k),
{
    let t = alist_remove(s, k);
    if alist_has(s, k) {
        let i = alist_idx(s, k);
        assert(s[i].0 == k);
        assert(keys_distinct(t)) by {
            assert forall|x: int, y: int| 0 <= x < y < t.len() implies (#[trigger] t[x]).0 != (
            #[trigger] t[y]).0 by {
                let sx: int = if x < i { x } else { x + 1 };
                let sy: int = if y < i { y } else { y + 1 };
                assert(t[x] == s[sx]);
                assert(t[y] == s[sy]);
            }
        }
        assert(!alist_has(t, k)) by {
            if alist_has(t, k) {
                let j = alist_idx(t, k);
                let sj: int = if j < i { j } else { j + 1 };
                assert(t[j] == s[sj]);
                assert(s[sj].0 == k && s[i].0 == k && sj != i);
            }
        }
    }
}

/// Removes the binding of `k` from a field list, if present.
pub(crate) fn fields_remove(list: &mut Vec<(String, String)>, k: &String)
    requires
        keys_distinct(fields_view(old(list)@)),
    ensures
        fields_view(final(list)@) == alist_remove(fields_view(old(list)@), k@),
        keys_distinct(fields_view(final(list)@)),
        !alist_has(fields_view(final(list)@), k@),
{
    let ghost ov = fields_view(old(list)@);
    match alist_find(list, k) {
        Option::Some(i) => {
            proof {
                lemma_alist_at(ov, k@, i as int);
            }
            let _ = list.remove(i);
            proof {
                lemma_alist_remove(ov, k@);
                assert(fields_view(list@) =~= alist_remove(ov, k@));
            }
        },
        Option::None => {
            proof {
                assert(!alist_has(ov, k@)) by {
                    if alist_has(ov, k@) {
                        let j = alist_idx(ov, k@);
                        assert(old(list)@[j].0@ == k@);
                    }
                }
                lemma_alist_remove(ov, k@);
            }
        },
    }
}

pub open spec fn lkp_has(ls: Seq<LookupV>, id: Seq<char>) -> bool {
    exists|i: int| 0 <= i < ls.len() && (#[trigger] ls[i]).lookup_id == id
}

pub open spec fn lkp_idx(ls: Seq<LookupV>, id: Seq<char>) -> int {
    choose|i: int| 0 <= i < ls.len() && (#[trigger] ls[i]).lookup_id == id
}

pub open spec fn lkp_get(ls: Seq<LookupV>, id: Seq<char>) -> LookupV {
    ls[lkp_idx(ls, id)]
}

pub open spec fn lkp_distinct(ls: Seq<LookupV>) -> bool {
    forall|i: int, j: int|
        0 <= i < j < ls.len() ==> (#[trigger] ls[i]).lookup_id != (#[trigger] ls[j]).lookup_id
}

pub proof fn lemma_lkp_at(ls: Seq<LookupV>, id: Seq<char>, i: int)
    requires
        lkp_distinct(ls),
        0 <= i < ls.len(),
        ls[i].lookup_id == id,
    ensures
        lkp_has(ls, id),
        lkp_idx(ls, id) == i,
        lkp_get(ls, id) == ls[i],
{
    assert(lkp_has(ls, id));
    let j = lkp_idx(ls, id);
    if i != j {
        assert(ls[i].lookup_id == ls[j].lookup_id);
        assert(false);
    }
}

pub open spec fn row_has(rows: Seq<RefundV>, mid: Seq<char>, rid: Seq<char>) -> bool {
    exists|i: int|
        0 <= i < rows.len() && (#[trigger] rows[i]).merchant_id == mid && rows[i].refund_id == rid
}

pub open spec fn row_idx(rows: Seq<RefundV>, mid: Seq<char>, rid: Seq<char>) -> int {
    choose|i: int|
        0 <= i < rows.len() && (#[trigger] rows[i]).merchant_id == mid && rows[i].refund_id == rid
}

pub open spec fn row_get(rows: Seq<RefundV>, mid: Seq<char>, rid: Seq<char>) -> RefundV {
    rows[row_idx(rows, mid, rid)]
}

pub open spec fn rows_distinct(rows: Seq<RefundV>) -> bool {
    forall|i: int, j: int|
        0 <= i < j < rows.len() ==> !((#[trigger] rows[i]).merchant_id == (
        #[trigger] rows[j]).merchant_id && rows[i].refund_id == rows[j].refund_id)
}

pub proof fn lemma_row_at(rows: Seq<RefundV>, mid: Seq<char>, rid: Seq<char>, i: int)
    requires
        rows_distinct(rows),
        0 <= i < rows.len(),
        rows[i].merchant_id == mid,
        rows[i].refund_id == rid,
    ensures
        row_has(rows, mid, rid),
        row_idx(rows, mid, rid) == i,
        row_get(rows, mid, rid) == rows[i],
{
    assert(row_has(rows, mid, rid));
    let j = row_idx(rows, mid, rid);
    if i != j {
        assert(false);
    }
}

// ---------------------------------------------------------------------------
// Well-formedness of the modeled store.
// ---------------------------------------------------------------------------

/// Internal invariant of the store model: no duplicate keys anywhere, no
/// duplicate lookup identifiers, at most one row per (merchant id, refund
/// id), every reverse-lookup entry resolves to an existing shard, and the
/// machine-level fields are in range.
pub open spec fn store_wf(s: StoreV) -> bool {
    &&& keys_distinct(s.shards)
    &&& forall|i: int| 0 <= i < s.shards.len() ==> keys_distinct((#[trigger] s.shards[i]).1)
    &&& keys_distinct(s.streams)
    &&& keys_distinct(s.cache_entries)
    &&& lkp_distinct(s.lookups)
    &&& rows_distinct(s.rows)
    &&& forall|i: int|
        0 <= i < s.lookups.len() ==> alist_has(s.shards, (#[trigger] s.lookups[i]).result_id)
    &&& 0 <= s.clock <= i64::MAX
    &&& 0 <= s.next_id <= i64::MAX
    &&& 1 <= s.drainer_num_partitions
}

/// An insertable record the router accepts: its fields satisfy the codec's
/// conditions and the payment id contains no `'_'`, so the shard key can be
/// split back into its parts.
pub open spec fn valid_new(n: RefundNewV) -> bool {
    &&& sep_free(n.refund_id)
    &&& sep_free(n.merchant_id)
    &&& sep_free(n.internal_reference_id)
    &&& sep_free(n.payment_id)
    &&& sep_free(n.transaction_id)
    &&& opt_sep_free(n.pg_refund_id)
    &&& opt_sep_free(n.refund_error_message)
    &&& 0 <= n.total_amount <= i64::MAX
    &&& 0 <= n.refund_amount <= i64::MAX
    &&& (match n.created_at {
        Option::Some(t) => 0 <= t <= i64::MAX,
        Option::None => true,
    })
    &&& underscore_free(n.payment_id)
}

/// A changeset the router accepts: replacement strings carry no terminator.
pub open spec fn valid_update(u: RefundUpdateV) -> bool {
    match u {
        RefundUpdateV::Update { pg_refund_id, refund_error_message, .. } => opt_sep_free(
            pg_refund_id,
        ) && opt_sep_free(refund_error_message),
        RefundUpdateV::StatusUpdate { .. } => true,
        RefundUpdateV::ErrorUpdate { refund_error_message } => opt_sep_free(refund_error_message),
    }
}

/// Message carried by a duplicate-insert rejection.
pub open spec fn spec_dup_msg(rid: Seq<char>) -> Seq<char> {
    "Refund already exists refund_id: "@ + rid
}

/// Ghost image of an operation result.
pub open spec fn res_view(r: Result<Refund, StorageError>) -> Result<RefundV, StorageErrorV> {
    match r {
        Result::Ok(x) => Result::Ok(x@),
        Result::Err(e) => Result::Err(e@),
    }
}

/// Ghost image of a multi-record result.
pub open spec fn vec_res_view(r: Result<Vec<Refund>, StorageError>) -> Result<
    Seq<RefundV>,
    StorageErrorV,
> {
    match r {
        Result::Ok(x) => Result::Ok(rows_view(x@)),
        Result::Err(e) => Result::Err(e@),
    }
}

// ---------------------------------------------------------------------------
// Pure transitions of each operation.
// ---------------------------------------------------------------------------

/// Row written to the relational store for a fresh insert.
pub open spec fn spec_row_refund(new: RefundNewV, now: int, id: int) -> RefundV {
    RefundV { id, ..spec_fresh_refund(new, now) }
}

/// Relational-only insert: the row is appended if no row with the same
/// (merchant id, refund id) exists; nothing else is touched.
pub open spec fn pg_insert_step(s: StoreV, new: RefundNewV) -> (StoreV, Result<
    RefundV,
    StorageErrorV,
>) {
    if row_has(s.rows, new.merchant_id, new.refund_id) {
        (s, Result::Err(StorageErrorV::DatabaseError(DatabaseError::UniqueViolation)))
    } else {
        let row = spec_row_refund(new, s.clock, s.next_id);
        (
            StoreV { rows: s.rows.push(row), next_id: s.next_id + 1, ..s },
            Result::Ok(row),
        )
    }
}

/// Key-value-first insert: an atomic create-if-absent of the encoded record,
/// then the relational replica, then both reverse-lookup entries, then the
/// drain record. Failures after the key-value write leave it in place.
pub open spec fn kv_insert_step(s: StoreV, new: RefundNewV) -> (StoreV, Result<
    RefundV,
    StorageErrorV,
>) {
    let key = spec_shard_key(new.payment_id, new.merchant_id);
    let fields = if alist_has(s.shards, key) {
        alist_get(s.shards, key)
    } else {
        Seq::empty()
    };
    let fname = spec_field_name(new.payment_id, new.refund_id);
    if alist_has(fields, fname) {
        (s, Result::Err(StorageErrorV::DuplicateValue(spec_dup_msg(new.refund_id))))
    } else {
        let created = spec_fresh_refund(new, s.clock);
        let payload = spec_encode(created);
        let s1 = StoreV {
            shards: alist_put(s.shards, key, alist_put(fields, fname, payload)),
            ..s
        };
        if row_has(s.rows, new.merchant_id, new.refund_id) {
            (s1, Result::Err(StorageErrorV::KVError))
        } else {
            let row = spec_row_refund(new, s.clock, s.next_id);
            let s2 = StoreV { rows: s1.rows.push(row), next_id: s1.next_id + 1, ..s1 };
            let l1 = spec_lookup_id(new.refund_id, new.merchant_id);
            if lkp_has(s2.lookups, l1) {
                (s2, Result::Err(StorageErrorV::DatabaseError(DatabaseError::UniqueViolation)))
            } else {
                let e1 = LookupV {
                    lookup_id: l1,
                    linked_id: new.refund_id,
                    result_id: key,
                    tag: "ref"@,
                };
                let s3 = StoreV { lookups: s2.lookups.push(e1), ..s2 };
                let l2 = spec_lookup_id(new.transaction_id, new.merchant_id);
                if lkp_has(s3.lookups, l2) {
                    (
                        s3,
                        Result::Err(
                            StorageErrorV::DatabaseError(DatabaseError::UniqueViolation),
                        ),
                    )
                } else {
                    let e2 = LookupV {
                        lookup_id: l2,
                        linked_id: new.refund_id,
                        result_id: key,
                        tag: "ref"@,
                    };
                    let s4 = StoreV { lookups: s3.lookups.push(e2), ..s3 };
                    let sname = spec_stream_name(key, s.drainer_num_partitions);
                    let entries = if alist_has(s.streams, sname) {
                        alist_get(s.streams, sname)
                    } else {
                        Seq::empty()
                    };
                    let entry = DrainEntryV { kind: DrainKind::Insert, payload };
                    let s5 = StoreV {
                        streams: alist_put(s.streams, sname, entries.push(entry)),
                        ..s4
                    };
                    (s5, Result::Ok(created))
                }
            }
        }
    }
}

/// Relational-only update: the single matching row gets the changeset; a
/// missing row is `NotFound`.
pub open spec fn pg_update_step(s: StoreV, cur: RefundV, u: RefundUpdateV) -> (StoreV, Result<
    RefundV,
    StorageErrorV,
>) {
    if !row_has(s.rows, cur.merchant_id, cur.refund_id) {
        (s, Result::Err(StorageErrorV::DatabaseError(DatabaseError::NotFound)))
    } else {
        let i = row_idx(s.rows, cur.merchant_id, cur.refund_id);
        let updated = spec_apply_changeset(u, s.rows[i]);
        (StoreV { rows: s.rows.update(i, updated), ..s }, Result::Ok(updated))
    }
}

/// Key-value-first update: overwrite the field with the updated record, then
/// the relational replica, then the drain record. A missing relational row
/// surfaces as `KVError` with the key-value write already in place.
pub open spec fn kv_update_step(s: StoreV, cur: RefundV, u: RefundUpdateV) -> (StoreV, Result<
    RefundV,
    StorageErrorV,
>) {
    let key = spec_shard_key(cur.payment_id, cur.merchant_id);
    let fields = if alist_has(s.shards, key) {
        alist_get(s.shards, key)
    } else {
        Seq::empty()
    };
    let fname = spec_field_name(cur.payment_id, cur.refund_id);
    let updated = spec_apply_changeset(u, cur);
    let payload = spec_encode(updated);
    let s1 = StoreV {
        shards: alist_put(s.shards, key, alist_put(fields, fname, payload)),
        ..s
    };
    if !row_has(s.rows, cur.merchant_id, cur.refund_id) {
        (s1, Result::Err(StorageErrorV::KVError))
    } else {
        let i = row_idx(s.rows, cur.merchant_id, cur.refund_id);
        let row1 = spec_apply_changeset(u, s.rows[i]);
        let s2 = StoreV { rows: s.rows.update(i, row1), ..s1 };
        let sname = spec_stream_name(key, s.drainer_num_partitions);
        let entries = if alist_has(s.streams, sname) {
            alist_get(s.streams, sname)
        } else {
            Seq::empty()
        };
        let entry = DrainEntryV { kind: DrainKind::Update, payload };
        let s3 = StoreV { streams: alist_put(s.streams, sname, entries.push(entry)), ..s2 };
        (s3, Result::Ok(updated))
    }
}

/// Key-value-first point lookup by (merchant id, refund id): resolve the
/// lookup identifier, derive the field name, read and decode.
pub open spec fn kv_find_by_refund_id(s: StoreV, mid: Seq<char>, rid: Seq<char>) -> Result<
    RefundV,
    StorageErrorV,
> {
    let lid = spec_lookup_id(rid, mid);
    if !lkp_has(s.lookups, lid) {
        Result::Err(StorageErrorV::DatabaseError(DatabaseError::NotFound))
    } else {
        let key = lkp_get(s.lookups, lid).result_id;
        let pid = spec_first_seg_of(key);
        let fname = spec_field_name(pid, rid);
        if !alist_has(s.shards, key) {
            Result::Err(StorageErrorV::KVError)
        } else {
            let fields = alist_get(s.shards, key);
            if !alist_has(fields, fname) {
                Result::Err(StorageErrorV::KVError)
            } else {
                match spec_decode(alist_get(fields, fname)) {
                    Option::Some(v) => Result::Ok(v),
                    Option::None => Result::Err(StorageErrorV::KVError),
                }
            }
        }
    }
}

/// The prefix of `s` before its first `'_'`.
pub open spec fn spec_first_seg_of(s: Seq<char>) -> Seq<char> {
    choose|r: Seq<char>| is_first_seg(s, r)
}

pub open spec fn is_prefix_of(p: Seq<char>, s: Seq<char>) -> bool {
    p.len() <= s.len() && s.subrange(0, p.len() as int) == p
}

/// Field-name pattern of one payment's refunds: `pa_{payment_id}_ref_`.
pub open spec fn spec_scan_prefix(pid: Seq<char>) -> Seq<char> {
    "pa_"@ + pid + "_ref_"@
}

/// Decoded records of the shard fields matching the pattern, in field
/// order; entries that fail to decode are dropped (documented lossy
/// behavior of the multi-record scan).
pub open spec fn scan_decoded(fields: Seq<(Seq<char>, Seq<char>)>, prefix: Seq<char>) -> Seq<
    RefundV,
>
    decreases fields.len(),
{
    if fields.len() == 0 {
        Seq::empty()
    } else {
        let init = scan_decoded(fields.drop_last(), prefix);
        if is_prefix_of(prefix, fields.last().0) {
            match spec_decode(fields.last().1) {
                Option::Some(v) => init.push(v),
                Option::None => init,
            }
        } else {
            init
        }
    }
}

/// Key-value-first multi-record lookup: resolve the lookup identifier, scan
/// the shard for fields matching the payment pattern, decode each. An
/// unresolvable identifier or a missing shard means no records are
/// reachable by this path yet: the result is empty, not an error.
pub open spec fn kv_find_many(s: StoreV, lid: Seq<char>) -> Result<Seq<RefundV>, StorageErrorV> {
    if !lkp_has(s.lookups, lid) {
        Result::Ok(Seq::empty())
    } else {
        let key = lkp_get(s.lookups, lid).result_id;
        let prefix = spec_scan_prefix(spec_first_seg_of(key));
        if !alist_has(s.shards, key) {
            Result::Ok(Seq::empty())
        } else {
            Result::Ok(scan_decoded(alist_get(s.shards, key), prefix))
        }
    }
}

/// Relational rows of one payment, in insertion order.
pub open spec fn rows_by_payment(rows: Seq<RefundV>, pid: Seq<char>, mid: Seq<char>) -> Seq<
    RefundV,
>
    decreases rows.len(),
{
    if rows.len() == 0 {
        Seq::empty()
    } else {
        let init = rows_by_payment(rows.drop_last(), pid, mid);
        if rows.last().payment_id == pid && rows.last().merchant_id == mid {
            init.push(rows.last())
        } else {
            init
        }
    }
}

/// Relational rows of one underlying transaction, in insertion order.
pub open spec fn rows_by_txn(rows: Seq<RefundV>, mid: Seq<char>, tid: Seq<char>) -> Seq<RefundV>
    decreases rows.len(),
{
    if rows.len() == 0 {
        Seq::empty()
    } else {
        let init = rows_by_txn(rows.drop_last(), mid, tid);
        if rows.last().merchant_id == mid && rows.last().transaction_id == tid {
            init.push(rows.last())
        } else {
            init
        }
    }
}

// ---------------------------------------------------------------------------
// Executable association-list helpers.
// ---------------------------------------------------------------------------

pub(crate) fn alist_find<V>(list: &Vec<(String, V)>, k: &String) -> (r: Option<usize>)
    ensures
        match r {
            Option::Some(i) => i < list.len() && list@[i as int].0@ == k@,
            Option::None => forall|i: int| 0 <= i < list@.len() ==> (#[trigger] list@[i]).0@ != k@,
        },
{
    let mut i: usize = 0;
    while i < list.len()
        invariant
            0 <= i <= list.len(),
            forall|j: int| 0 <= j < i ==> (#[trigger] list@[j]).0@ != k@,
        decreases list.len() - i,
    {
        if list[i].0.eq(k) {
            return Option::Some(i);
        }
        i = i + 1;
    }
    Option::None
}

fn lookups_find(list: &Vec<ReverseLookup>, id: &String) -> (r: Option<usize>)
    ensures
        match r {
            Option::Some(i) => i < list.len() && list@[i as int].lookup_id@ == id@,
            Option::None => forall|i: int|
                0 <= i < list@.len() ==> (#[trigger] list@[i]).lookup_id@ != id@,
        },
{
    let mut i: usize = 0;
    while i < list.len()
        invariant
            0 <= i <= list.len(),
            forall|j: int| 0 <= j < i ==> (#[trigger] list@[j]).lookup_id@ != id@,
        decreases list.len() - i,
    {
        if list[i].lookup_id.eq(id) {
            return Option::Some(i);
        }
        i = i + 1;
    }
    Option::None
}

fn rows_find(list: &Vec<Refund>, mid: &String, rid: &String) -> (r: Option<usize>)
    ensures
        match r {
            Option::Some(i) => i < list.len() && list@[i as int].merchant_id@ == mid@ && list@[
                i as int
            ].refund_id@ == rid@,
            Option::None => forall|i: int|
                0 <= i < list@.len() ==> !((#[trigger] list@[i]).merchant_id@ == mid@ && list@[
                    i
                ].refund_id@ == rid@),
        },
{
    let mut i: usize = 0;
    while i < list.len()
        invariant
            0 <= i <= list.len(),
            forall|j: int|
                0 <= j < i ==> !((#[trigger] list@[j]).merchant_id@ == mid@ && list@[
                    j
                ].refund_id@ == rid@),
        decreases list.len() - i,
    {
        if list[i].merchant_id.eq(mid) && list[i].refund_id.eq(rid) {
            return Option::Some(i);
        }
        i = i + 1;
    }
    Option::None
}

/// A record the router accepts for the key-value path: it satisfies the
/// codec's conditions and its payment id splits back out of the shard key.
pub open spec fn valid_refund(r: RefundV) -> bool {
    codec_wf(r) && underscore_free(r.payment_id)
}

/// The entity-specific storage interface: find, insert and update refunds,
/// dispatching per call on the merchant's storage scheme.
pub trait RefundInterface {
    /// Invariant the implementation maintains across operations.
    spec fn inv(&self) -> bool;

    /// Whether one more record can be inserted without exhausting the
    /// implementation's sequence values.
    spec fn insert_ready(&self) -> bool;

    fn find_refund_by_internal_reference_id_merchant_id(
        &self,
        internal_reference_id: &str,
        merchant_id: &str,
        storage_scheme: MerchantStorageScheme,
    ) -> Result<Refund, StorageError>
        requires
            self.inv(),
    ;

    fn find_refund_by_payment_id_merchant_id(
        &self,
        payment_id: &str,
        merchant_id: &str,
        storage_scheme: MerchantStorageScheme,
    ) -> Result<Vec<Refund>, StorageError>
        requires
            self.inv(),
    ;

    fn find_refund_by_merchant_id_refund_id(
        &self,
        merchant_id: &str,
        refund_id: &str,
        storage_scheme: MerchantStorageScheme,
    ) -> Result<Refund, StorageError>
        requires
            self.inv(),
    ;

    fn update_refund(
        &mut self,
        this: Refund,
        refund: RefundUpdate,
        storage_scheme: MerchantStorageScheme,
    ) -> Result<Refund, StorageError>
        requires
            old(self).inv(),
            valid_refund(this@),
            valid_update(refund@),
    ;

    fn find_refund_by_merchant_id_transaction_id(
        &self,
        merchant_id: &str,
        txn_id: &str,
        storage_scheme: MerchantStorageScheme,
    ) -> Result<Vec<Refund>, StorageError>
        requires
            self.inv(),
    ;

    fn insert_refund(
        &mut self,
        new: RefundNew,
        storage_scheme: MerchantStorageScheme,
    ) -> Result<Refund, StorageError>
        requires
            old(self).inv(),
            old(self).insert_ready(),
            valid_new(new@),
    ;
}

/// Unconditionally binds `k` to `v` in a field list.
pub(crate) fn fields_put(list: &mut Vec<(String, String)>, k: &String, v: &String)
    requires
        keys_distinct(fields_view(old(list)@)),
    ensures
        fields_view(final(list)@) == alist_put(fields_view(old(list)@), k@, v@),
        keys_distinct(fields_view(final(list)@)),
{
    let ghost ov = fields_view(old(list)@);
    let idx = alist_find(list, k);
    match idx {
        Option::Some(i) => {
            let _ = list.remove(i);
            list.insert(i, (k.clone(), v.clone()));
            proof {
                lemma_alist_at(ov, k@, i as int);
                lemma_alist_put_distinct(ov, k@, v@);
                assert(fields_view(list@) =~= alist_put(ov, k@, v@));
            }
        },
        Option::None => {
            list.push((k.clone(), v.clone()));
            proof {
                assert(!alist_has(ov, k@)) by {
                    if alist_has(ov, k@) {
                        let j = alist_idx(ov, k@);
                        assert(old(list)@[j].0@ == k@);
                    }
                }
                lemma_alist_put_distinct(ov, k@, v@);
                assert(fields_view(list@) =~= alist_put(ov, k@, v@));
            }
        },
    }
}

/// Binds `fname` to `payload` inside the shard at `key`, creating the shard
/// if it is absent.
fn shards_put_field(
    shards: &mut Vec<(String, Vec<(String, String)>)>,
    key: &String,
    fname: &String,
    payload: &String,
)
    requires
        keys_distinct(shards_view(old(shards)@)),
        forall|i: int|
            0 <= i < old(shards)@.len() ==> keys_distinct(
                (#[trigger] shards_view(old(shards)@)[i]).1,
            ),
    ensures
        ({
            let ov = shards_view(old(shards)@);
            let fields = if alist_has(ov, key@) {
                alist_get(ov, key@)
            } else {
                Seq::empty()
            };
            shards_view(final(shards)@) == alist_put(
                ov,
                key@,
                alist_put(fields, fname@, payload@),
            )
        }),
        keys_distinct(shards_view(final(shards)@)),
        forall|i: int|
            0 <= i < final(shards)@.len() ==> keys_distinct(
                (#[trigger] shards_view(final(shards)@)[i]).1,
            ),
{
    let ghost ov = shards_view(old(shards)@);
    let idx = alist_find(shards, key);
    match idx {
        Option::Some(i) => {
            proof {
                lemma_alist_at(ov, key@, i as int);
            }
            let mut entry = shards.remove(i);
            let ghost fields = fields_view(entry.1@);
            fields_put(&mut entry.1, fname, payload);
            shards.insert(i, entry);
            proof {
                assert(fields == alist_get(ov, key@));
                lemma_alist_put_distinct(ov, key@, alist_put(fields, fname@, payload@));
                assert(shards_view(shards@) =~= alist_put(
                    ov,
                    key@,
                    alist_put(fields, fname@, payload@),
                ));
                assert forall|j: int|
                    0 <= j < shards@.len() implies keys_distinct(
                    (#[trigger] shards_view(shards@)[j]).1,
                ) by {
                    assert(shards_view(shards@) == alist_put(
                        ov,
                        key@,
                        alist_put(fields, fname@, payload@),
                    ));
                    if j == i {
                    } else {
                        assert(shards_view(shards@)[j] == ov[j]);
                    }
                }
            }
        },
        Option::None => {
            proof {
                assert(!alist_has(ov, key@)) by {
                    if alist_has(ov, key@) {
                        let j = alist_idx(ov, key@);
                        assert(old(shards)@[j].0@ == key@);
                    }
                }
            }
            let mut fields_vec: Vec<(String, String)> = Vec::new();
            proof {
                assert(fields_view(fields_vec@) =~= Seq::<(Seq<char>, Seq<char>)>::empty());
            }
            fields_put(&mut fields_vec, fname, payload);
            shards.push((key.clone(), fields_vec));
            proof {
                lemma_alist_put_distinct(
                    ov,
                    key@,
                    alist_put(Seq::empty(), fname@, payload@),
                );
                assert(shards_view(shards@) =~= alist_put(
                    ov,
                    key@,
                    alist_put(Seq::empty(), fname@, payload@),
                ));
                assert forall|j: int|
                    0 <= j < shards@.len() implies keys_distinct(
                    (#[trigger] shards_view(shards@)[j]).1,
                ) by {
                    if j < shards@.len() - 1 {
                        assert(shards_view(shards@)[j] == ov[j]);
                    }
                }
            }
        },
    }
}

/// Appends a drain record to the stream at `name`, creating the stream if
/// it is absent.
fn streams_append(
    streams: &mut Vec<(String, Vec<DrainEntry>)>,
    name: &String,
    kind: DrainKind,
    payload: &String,
)
    requires
        keys_distinct(streams_view(old(streams)@)),
    ensures
        ({
            let ov = streams_view(old(streams)@);
            let entries = if alist_has(ov, name@) {
                alist_get(ov, name@)
            } else {
                Seq::empty()
            };
            streams_view(final(streams)@) == alist_put(
                ov,
                name@,
                entries.push(DrainEntryV { kind, payload: payload@ }),
            )
        }),
        keys_distinct(streams_view(final(streams)@)),
{
    let ghost ov = streams_view(old(streams)@);
    let entry = DrainEntry { kind, payload: payload.clone() };
    let idx = alist_find(streams, name);
    match idx {
        Option::Some(i) => {
            proof {
                lemma_alist_at(ov, name@, i as int);
            }
            let mut pair = streams.remove(i);
            let ghost entries = pair.1@.map_values(|e: DrainEntry| e@);
            pair.1.push(entry);
            proof {
                assert(pair.1@.map_values(|e: DrainEntry| e@) =~= entries.push(
                    DrainEntryV { kind, payload: payload@ },
                ));
            }
            streams.insert(i, pair);
            proof {
                lemma_alist_put_distinct(
                    ov,
                    name@,
                    entries.push(DrainEntryV { kind, payload: payload@ }),
                );
                assert(streams_view(streams@) =~= alist_put(
                    ov,
                    name@,
                    entries.push(DrainEntryV { kind, payload: payload@ }),
                ));
            }
        },
        Option::None => {
            proof {
                assert(!alist_has(ov, name@)) by {
                    if alist_has(ov, name@) {
                        let j = alist_idx(ov, name@);
                        assert(old(streams)@[j].0@ == name@);
                    }
                }
            }
            let mut entries_vec: Vec<DrainEntry> = Vec::new();
            entries_vec.push(entry);
            proof {
                assert(entries_vec@.map_values(|e: DrainEntry| e@) =~= Seq::<
                    DrainEntryV,
                >::empty().push(DrainEntryV { kind, payload: payload@ }));
            }
            streams.push((name.clone(), entries_vec));
            proof {
                lemma_alist_put_distinct(
                    ov,
                    name@,
                    Seq::<DrainEntryV>::empty().push(DrainEntryV { kind, payload: payload@ }),
                );
                assert(streams_view(streams@) =~= alist_put(
                    ov,
                    name@,
                    Seq::<DrainEntryV>::empty().push(
                        DrainEntryV { kind, payload: payload@ },
                    ),
                ));
            }
        },
    }
}

/// Relational point lookup by (merchant id, refund id).
pub open spec fn pg_find_by_refund_id(s: StoreV, mid: Seq<char>, rid: Seq<char>) -> Result<
    RefundV,
    StorageErrorV,
> {
    if row_has(s.rows, mid, rid) {
        Result::Ok(row_get(s.rows, mid, rid))
    } else {
        Result::Err(StorageErrorV::DatabaseError(DatabaseError::NotFound))
    }
}

pub open spec fn ref_match(r: RefundV, iref: Seq<char>, mid: Seq<char>) -> bool {
    r.internal_reference_id == iref && r.merchant_id == mid
}

/// `i` is the first relational row matching (internal reference id,
/// merchant id).
pub open spec fn first_ref_idx(rows: Seq<RefundV>, iref: Seq<char>, mid: Seq<char>, i: int) -> bool {
    &&& 0 <= i < rows.len()
    &&& ref_match(rows[i], iref, mid)
    &&& forall|j: int| 0 <= j < i ==> !ref_match(#[trigger] rows[j], iref, mid)
}

fn rows_find_by_ref(list: &Vec<Refund>, iref: &String, mid: &String) -> (r: Option<usize>)
    ensures
        match r {
            Option::Some(i) => i < list.len() && first_ref_idx(
                rows_view(list@),
                iref@,
                mid@,
                i as int,
            ),
            Option::None => forall|i: int|
                0 <= i < list@.len() ==> !ref_match(#[trigger] rows_view(list@)[i], iref@, mid@),
        },
{
    let mut i: usize = 0;
    while i < list.len()
        invariant
            0 <= i <= list.len(),
            forall|j: int| 0 <= j < i ==> !ref_match(#[trigger] rows_view(list@)[j], iref@, mid@),
        decreases list.len() - i,
    {
        if list[i].internal_reference_id.eq(iref) && list[i].merchant_id.eq(mid) {
            return Option::Some(i);
        }
        i = i + 1;
    }
    Option::None
}

fn str_has_prefix(p: &String, s: &String) -> (r: bool)
    ensures
        r == is_prefix_of(p@, s@),
{
    let plen = p.as_str().unicode_len();
    let slen = s.as_str().unicode_len();
    if plen > slen {
        return false;
    }
    let mut i: usize = 0;
    while i < plen
        invariant
            0 <= i <= plen <= slen,
            plen == p@.len(),
            slen == s@.len(),
            forall|k: int| 0 <= k < i ==> s@[k] == p@[k],
        decreases plen - i,
    {
        if s.as_str().get_char(i) != p.as_str().get_char(i) {
            proof {
                if is_prefix_of(p@, s@) {
                    assert(s@.subrange(0, p@.len() as int)[i as int] == s@[i as int]);
                    assert(false);
                }
            }
            return false;
        }
        i = i + 1;
    }
    proof {
        assert(s@.subrange(0, plen as int) =~= p@);
    }
    true
}

fn dup_msg(rid: &String) -> (r: String)
    ensures
        r@ == spec_dup_msg(rid@),
{
    let mut m = String::from_str("Refund already exists refund_id: ");
    m.append(rid.as_str());
    m
}

impl Store {
    /// An empty store with the given clock and drain-partition count.
    pub fn new(clock: i64, drainer_num_partitions: u64) -> (s: Store)
        requires
            0 <= clock,
            1 <= drainer_num_partitions,
        ensures
            store_wf(s@),
            s@ == (StoreV {
                shards: Seq::empty(),
                streams: Seq::empty(),
                cache_entries: Seq::empty(),
                rows: Seq::empty(),
                lookups: Seq::empty(),
                next_id: 1,
                clock: clock as int,
                drainer_num_partitions: drainer_num_partitions as int,
            }),
    {
        let s = Store {
            shards: Vec::new(),
            streams: Vec::new(),
            cache_entries: Vec::new(),
            rows: Vec::new(),
            lookups: Vec::new(),
            next_id: 1,
            clock,
            drainer_num_partitions,
        };
        proof {
            assert(s@.shards =~= Seq::<(Seq<char>, Seq<(Seq<char>, Seq<char>)>)>::empty());
            assert(s@.streams =~= Seq::<(Seq<char>, Seq<DrainEntryV>)>::empty());
            assert(s@.cache_entries =~= Seq::<(Seq<char>, Seq<char>)>::empty());
            assert(s@.rows =~= Seq::<RefundV>::empty());
            assert(s@.lookups =~= Seq::<LookupV>::empty());
            assert(s@ =~= (StoreV {
                shards: Seq::empty(),
                streams: Seq::empty(),
                cache_entries: Seq::empty(),
                rows: Seq::empty(),
                lookups: Seq::empty(),
                next_id: 1,
                clock: clock as int,
                drainer_num_partitions: drainer_num_partitions as int,
            }));
        }
        s
    }
}

impl RefundInterface for Store {
    open spec fn inv(&self) -> bool {
        store_wf(self@)
    }

    open spec fn insert_ready(&self) -> bool {
        self.next_id < i64::MAX
    }

    fn find_refund_by_internal_reference_id_merchant_id(
        &self,
        internal_reference_id: &str,
        merchant_id: &str,
        storage_scheme: MerchantStorageScheme,
    ) -> (r: Result<Refund, StorageError>)
        ensures
            match r {
                Result::Ok(x) => exists|i: int|
                    #[trigger] first_ref_idx(
                        self@.rows,
                        internal_reference_id@,
                        merchant_id@,
                        i,
                    ) && self@.rows[i] == x@,
                Result::Err(e) => e@ == StorageErrorV::DatabaseError(DatabaseError::NotFound)
                    && forall|i: int|
                    0 <= i < self@.rows.len() ==> !ref_match(
                        #[trigger] self@.rows[i],
                        internal_reference_id@,
                        merchant_id@,
                    ),
            },
    {
        let iref = String::from_str(internal_reference_id);
        let mid = String::from_str(merchant_id);
        match rows_find_by_ref(&self.rows, &iref, &mid) {
            Option::Some(i) => Result::Ok(self.rows[i].clone()),
            Option::None => Result::Err(
                StorageError::DatabaseError(DatabaseError::NotFound),
            ),
        }
    }

    fn insert_refund(
        &mut self,
        new: RefundNew,
        storage_scheme: MerchantStorageScheme,
    ) -> (r: Result<Refund, StorageError>)
        ensures
            ({
                let step = match storage_scheme {
                    MerchantStorageScheme::PostgresOnly => pg_insert_step(old(self)@, new@),
                    MerchantStorageScheme::RedisKv => kv_insert_step(old(self)@, new@),
                };
                final(self)@ == step.0 && res_view(r) == step.1
            }),
            store_wf(final(self)@),
    {
        proof {
            crate::laws::lemma_pg_insert_preserves_wf(self@, new@);
            crate::laws::lemma_kv_insert_preserves_wf(self@, new@);
        }
        let ghost s0 = self@;
        match storage_scheme {
            MerchantStorageScheme::PostgresOnly => {
                match rows_find(&self.rows, &new.merchant_id, &new.refund_id) {
                    Option::Some(w) => {
                        proof {
                            assert(rows_view(self.rows@)[w as int] == self.rows@[w as int]@);
                            assert(row_has(s0.rows, new.merchant_id@, new.refund_id@));
                        }
                        Result::Err(StorageError::DatabaseError(DatabaseError::UniqueViolation))
                    },
                    Option::None => {
                        proof {
                            assert(!row_has(s0.rows, new.merchant_id@, new.refund_id@)) by {
                                if row_has(s0.rows, new.merchant_id@, new.refund_id@) {
                                    let j = row_idx(s0.rows, new.merchant_id@, new.refund_id@);
                                    assert(rows_view(self.rows@)[j] == self.rows@[j]@);
                                }
                            }
                        }
                        let mut row = new.fresh_refund(self.clock);
                        row.id = self.next_id;
                        let ret = row.clone();
                        self.rows.push(row);
                        self.next_id = self.next_id + 1;
                        proof {
                            assert(rows_view(self.rows@) =~= s0.rows.push(
                                spec_row_refund(new@, s0.clock, s0.next_id),
                            ));
                            assert(self@ =~= pg_insert_step(s0, new@).0);
                        }
                        Result::Ok(ret)
                    },
                }
            },
            MerchantStorageScheme::RedisKv => {
                let key = shard_key(new.payment_id.as_str(), new.merchant_id.as_str());
                let fname = field_name(new.payment_id.as_str(), new.refund_id.as_str());
                let ghost fields0 = if alist_has(s0.shards, key@) {
                    alist_get(s0.shards, key@)
                } else {
                    Seq::empty()
                };
                let dup = match alist_find(&self.shards, &key) {
                    Option::Some(i) => {
                        proof {
                            lemma_alist_at(shards_view(self.shards@), key@, i as int);
                        }
                        match alist_find(&self.shards[i].1, &fname) {
                            Option::Some(j) => {
                                proof {
                                    assert(fields_view(self.shards@[i as int].1@)[j as int].0
                                        == fname@);
                                    assert(alist_has(fields0, fname@));
                                }
                                true
                            },
                            Option::None => {
                                proof {
                                    assert(!alist_has(fields0, fname@)) by {
                                        if alist_has(fields0, fname@) {
                                            let j = alist_idx(fields0, fname@);
                                            assert(self.shards@[i as int].1@[j].0@ == fname@);
                                        }
                                    }
                                }
                                false
                            },
                        }
                    },
                    Option::None => {
                        proof {
                            assert(!alist_has(s0.shards, key@)) by {
                                if alist_has(s0.shards, key@) {
                                    let j = alist_idx(s0.shards, key@);
                                    assert(self.shards@[j].0@ == key@);
                                }
                            }
                        }
                        false
                    },
                };
                if dup {
                    let msg = dup_msg(&new.refund_id);
                    proof {
                        assert(self@ =~= kv_insert_step(s0, new@).0);
                    }
                    return Result::Err(StorageError::DuplicateValue(msg));
                }
                let created = new.fresh_refund(self.clock);
                proof {
                    assert(codec_wf(created@));
                }
                let payload = encode_refund(&created);
                shards_put_field(&mut self.shards, &key, &fname, &payload);
                match rows_find(&self.rows, &new.merchant_id, &new.refund_id) {
                    Option::Some(w) => {
                        proof {
                            assert(rows_view(self.rows@)[w as int] == self.rows@[w as int]@);
                            assert(row_has(s0.rows, new.merchant_id@, new.refund_id@));
                            assert(self@ =~= kv_insert_step(s0, new@).0);
                        }
                        return Result::Err(StorageError::KVError);
                    },
                    Option::None => {
                        proof {
                            assert(!row_has(s0.rows, new.merchant_id@, new.refund_id@)) by {
                                if row_has(s0.rows, new.merchant_id@, new.refund_id@) {
                                    let j = row_idx(s0.rows, new.merchant_id@, new.refund_id@);
                                    assert(rows_view(self.rows@)[j] == self.rows@[j]@);
                                }
                            }
                        }
                    },
                }
                let mut row = new.fresh_refund(self.clock);
                row.id = self.next_id;
                self.rows.push(row);
                self.next_id = self.next_id + 1;
                proof {
                    assert(rows_view(self.rows@) =~= s0.rows.push(
                        spec_row_refund(new@, s0.clock, s0.next_id),
                    ));
                }
                let l1 = lookup_id(new.refund_id.as_str(), new.merchant_id.as_str());
                match lookups_find(&self.lookups, &l1) {
                    Option::Some(w) => {
                        proof {
                            assert(lookups_view(self.lookups@)[w as int] == self.lookups@[w as int]@);
                            assert(lkp_has(s0.lookups, l1@));
                            assert(self@ =~= kv_insert_step(s0, new@).0);
                        }
                        return Result::Err(
                            StorageError::DatabaseError(DatabaseError::UniqueViolation),
                        );
                    },
                    Option::None => {
                        proof {
                            assert(!lkp_has(s0.lookups, l1@)) by {
                                if lkp_has(s0.lookups, l1@) {
                                    let j = lkp_idx(s0.lookups, l1@);
                                    assert(lookups_view(self.lookups@)[j] == self.lookups@[j]@);
                                }
                            }
                        }
                    },
                }
                self.lookups.push(
                    ReverseLookup {
                        lookup_id: l1,
                        linked_id: new.refund_id.clone(),
                        result_id: key.clone(),
                        tag: String::from_str("ref"),
                    },
                );
                let ghost lk1 = lookups_view(self.lookups@);
                proof {
                    assert(lk1 =~= s0.lookups.push(
                        LookupV {
                            lookup_id: spec_lookup_id(new.refund_id@, new.merchant_id@),
                            linked_id: new.refund_id@,
                            result_id: key@,
                            tag: "ref"@,
                        },
                    ));
                }
                let l2 = lookup_id(new.transaction_id.as_str(), new.merchant_id.as_str());
                match lookups_find(&self.lookups, &l2) {
                    Option::Some(w) => {
                        proof {
                            assert(lookups_view(self.lookups@)[w as int] == self.lookups@[w as int]@);
                            assert(lkp_has(lk1, l2@));
                            assert(self@ =~= kv_insert_step(s0, new@).0);
                        }
                        return Result::Err(
                            StorageError::DatabaseError(DatabaseError::UniqueViolation),
                        );
                    },
                    Option::None => {
                        proof {
                            assert(!lkp_has(lk1, l2@)) by {
                                if lkp_has(lk1, l2@) {
                                    let j = lkp_idx(lk1, l2@);
                                    assert(lookups_view(self.lookups@)[j] == self.lookups@[j]@);
                                }
                            }
                        }
                    },
                }
                self.lookups.push(
                    ReverseLookup {
                        lookup_id: l2,
                        linked_id: new.refund_id.clone(),
                        result_id: key.clone(),
                        tag: String::from_str("ref"),
                    },
                );
                proof {
                    assert(lookups_view(self.lookups@) =~= lk1.push(
                        LookupV {
                            lookup_id: spec_lookup_id(new.transaction_id@, new.merchant_id@),
                            linked_id: new.refund_id@,
                            result_id: key@,
                            tag: "ref"@,
                        },
                    ));
                }
                let sname = drainer_stream_name(key.as_str(), self.drainer_num_partitions);
                streams_append(&mut self.streams, &sname, DrainKind::Insert, &payload);
                proof {
                    assert(self@ =~= kv_insert_step(s0, new@).0);
                }
                Result::Ok(created)
            },
        }
    }

    fn update_refund(
        &mut self,
        this: Refund,
        refund: RefundUpdate,
        storage_scheme: MerchantStorageScheme,
    ) -> (r: Result<Refund, StorageError>)
        ensures
            ({
                let step = match storage_scheme {
                    MerchantStorageScheme::PostgresOnly => pg_update_step(
                        old(self)@,
                        this@,
                        refund@,
                    ),
                    MerchantStorageScheme::RedisKv => kv_update_step(old(self)@, this@, refund@),
                };
                final(self)@ == step.0 && res_view(r) == step.1
            }),
            store_wf(final(self)@),
    {
        proof {
            crate::laws::lemma_pg_update_preserves_wf(self@, this@, refund@);
            crate::laws::lemma_kv_update_preserves_wf(self@, this@, refund@);
        }
        let ghost s0 = self@;
        match storage_scheme {
            MerchantStorageScheme::PostgresOnly => {
                match rows_find(&self.rows, &this.merchant_id, &this.refund_id) {
                    Option::None => {
                        proof {
                            assert(!row_has(s0.rows, this.merchant_id@, this.refund_id@)) by {
                                if row_has(s0.rows, this.merchant_id@, this.refund_id@) {
                                    let j = row_idx(s0.rows, this.merchant_id@, this.refund_id@);
                                    assert(rows_view(self.rows@)[j] == self.rows@[j]@);
                                }
                            }
                        }
                        Result::Err(StorageError::DatabaseError(DatabaseError::NotFound))
                    },
                    Option::Some(i) => {
                        proof {
                            lemma_row_at(s0.rows, this.merchant_id@, this.refund_id@, i as int);
                        }
                        let updated = refund.apply_changeset(&self.rows[i]);
                        let ret = updated.clone();
                        let _ = self.rows.remove(i);
                        self.rows.insert(i, updated);
                        proof {
                            assert(rows_view(self.rows@) =~= s0.rows.update(
                                i as int,
                                spec_apply_changeset(refund@, s0.rows[i as int]),
                            ));
                            assert(self@ =~= pg_update_step(s0, this@, refund@).0);
                        }
                        Result::Ok(ret)
                    },
                }
            },
            MerchantStorageScheme::RedisKv => {
                let key = shard_key(this.payment_id.as_str(), this.merchant_id.as_str());
                let fname = field_name(this.payment_id.as_str(), this.refund_id.as_str());
                let updated = refund.apply_changeset(&this);
                proof {
                    assert(codec_wf(updated@));
                }
                let payload = encode_refund(&updated);
                shards_put_field(&mut self.shards, &key, &fname, &payload);
                match rows_find(&self.rows, &this.merchant_id, &this.refund_id) {
                    Option::None => {
                        proof {
                            assert(!row_has(s0.rows, this.merchant_id@, this.refund_id@)) by {
                                if row_has(s0.rows, this.merchant_id@, this.refund_id@) {
                                    let j = row_idx(s0.rows, this.merchant_id@, this.refund_id@);
                                    assert(rows_view(self.rows@)[j] == self.rows@[j]@);
                                }
                            }
                            assert(self@ =~= kv_update_step(s0, this@, refund@).0);
                        }
                        Result::Err(StorageError::KVError)
                    },
                    Option::Some(i) => {
                        proof {
                            lemma_row_at(s0.rows, this.merchant_id@, this.refund_id@, i as int);
                        }
                        let row1 = refund.apply_changeset(&self.rows[i]);
                        let _ = self.rows.remove(i);
                        self.rows.insert(i, row1);
                        proof {
                            assert(rows_view(self.rows@) =~= s0.rows.update(
                                i as int,
                                spec_apply_changeset(refund@, s0.rows[i as int]),
                            ));
                        }
                        let sname = drainer_stream_name(
                            key.as_str(),
                            self.drainer_num_partitions,
                        );
                        streams_append(&mut self.streams, &sname, DrainKind::Update, &payload);
                        proof {
                            assert(self@ =~= kv_update_step(s0, this@, refund@).0);
                        }
                        Result::Ok(updated)
                    },
                }
            },
        }
    }

    fn find_refund_by_merchant_id_refund_id(
        &self,
        merchant_id: &str,
        refund_id: &str,
        storage_scheme: MerchantStorageScheme,
    ) -> (r: Result<Refund, StorageError>)
        ensures
            ({
                let want = match storage_scheme {
                    MerchantStorageScheme::PostgresOnly => pg_find_by_refund_id(
                        self@,
                        merchant_id@,
                        refund_id@,
                    ),
                    MerchantStorageScheme::RedisKv => kv_find_by_refund_id(
                        self@,
                        merchant_id@,
                        refund_id@,
                    ),
                };
                res_view(r) == want
            }),
    {
        match storage_scheme {
            MerchantStorageScheme::PostgresOnly => {
                let mid = String::from_str(merchant_id);
                let rid = String::from_str(refund_id);
                match rows_find(&self.rows, &mid, &rid) {
                    Option::Some(i) => {
                        proof {
                            lemma_row_at(self@.rows, mid@, rid@, i as int);
                        }
                        Result::Ok(self.rows[i].clone())
                    },
                    Option::None => {
                        proof {
                            assert(!row_has(self@.rows, mid@, rid@)) by {
                                if row_has(self@.rows, mid@, rid@) {
                                    let j = row_idx(self@.rows, mid@, rid@);
                                    assert(rows_view(self.rows@)[j] == self.rows@[j]@);
                                }
                            }
                        }
                        Result::Err(StorageError::DatabaseError(DatabaseError::NotFound))
                    },
                }
            },
            MerchantStorageScheme::RedisKv => {
                let lid = lookup_id(refund_id, merchant_id);
                match lookups_find(&self.lookups, &lid) {
                    Option::None => {
                        proof {
                            assert(!lkp_has(self@.lookups, lid@)) by {
                                if lkp_has(self@.lookups, lid@) {
                                    let j = lkp_idx(self@.lookups, lid@);
                                    assert(lookups_view(self.lookups@)[j] == self.lookups@[j]@);
                                }
                            }
                        }
                        Result::Err(StorageError::DatabaseError(DatabaseError::NotFound))
                    },
                    Option::Some(i) => {
                        proof {
                            lemma_lkp_at(self@.lookups, lid@, i as int);
                        }
                        let key = self.lookups[i].result_id.clone();
                        let pid = first_seg(key.as_str());
                        proof {
                            assert(exists|rr: Seq<char>| is_first_seg(key@, rr)) by {
                                assert(is_first_seg(key@, pid@));
                            }
                            lemma_first_seg_unique(key@, spec_first_seg_of(key@), pid@);
                        }
                        let fname = field_name(pid.as_str(), refund_id);
                        match alist_find(&self.shards, &key) {
                            Option::None => {
                                proof {
                                    assert(!alist_has(self@.shards, key@)) by {
                                        if alist_has(self@.shards, key@) {
                                            let j = alist_idx(self@.shards, key@);
                                            assert(self.shards@[j].0@ == key@);
                                        }
                                    }
                                }
                                Result::Err(StorageError::KVError)
                            },
                            Option::Some(si) => {
                                proof {
                                    lemma_alist_at(self@.shards, key@, si as int);
                                }
                                let ghost fv = alist_get(self@.shards, key@);
                                match alist_find(&self.shards[si].1, &fname) {
                                    Option::None => {
                                        proof {
                                            assert(!alist_has(fv, fname@)) by {
                                                if alist_has(fv, fname@) {
                                                    let j = alist_idx(fv, fname@);
                                                    assert(self.shards@[si as int].1@[j].0@
                                                        == fname@);
                                                }
                                            }
                                        }
                                        Result::Err(StorageError::KVError)
                                    },
                                    Option::Some(fj) => {
                                        proof {
                                            lemma_alist_at(fv, fname@, fj as int);
                                            assert(fv[fj as int].1
                                                == self.shards@[si as int].1@[fj as int].1@);
                                        }
                                        match decode_refund(
                                            self.shards[si].1[fj].1.as_str(),
                                        ) {
                                            Option::Some(x) => Result::Ok(x),
                                            Option::None => Result::Err(StorageError::KVError),
                                        }
                                    },
                                }
                            },
                        }
                    },
                }
            },
        }
    }

    fn find_refund_by_payment_id_merchant_id(
        &self,
        payment_id: &str,
        merchant_id: &str,
        storage_scheme: MerchantStorageScheme,
    ) -> (r: Result<Vec<Refund>, StorageError>)
        ensures
            ({
                let want = match storage_scheme {
                    MerchantStorageScheme::PostgresOnly => Result::<_, StorageErrorV>::Ok(
                        rows_by_payment(self@.rows, payment_id@, merchant_id@),
                    ),
                    MerchantStorageScheme::RedisKv => kv_find_many(
                        self@,
                        spec_lookup_id(payment_id@, merchant_id@),
                    ),
                };
                vec_res_view(r) == want
            }),
    {
        match storage_scheme {
            MerchantStorageScheme::PostgresOnly => {
                let mid = String::from_str(merchant_id);
                let pid = String::from_str(payment_id);
                let mut out: Vec<Refund> = Vec::new();
                let mut i: usize = 0;
                proof {
                    assert(self@.rows.subrange(0, 0) =~= Seq::<RefundV>::empty());
                    assert(rows_view(out@) =~= Seq::<RefundV>::empty());
                }
                while i < self.rows.len()
                    invariant
                        0 <= i <= self.rows.len(),
                        pid@ == payment_id@,
                        mid@ == merchant_id@,
                        rows_view(out@) == rows_by_payment(
                            self@.rows.subrange(0, i as int),
                            payment_id@,
                            merchant_id@,
                        ),
                    decreases self.rows.len() - i,
                {
                    proof {
                        assert(self@.rows.subrange(0, i + 1).drop_last() =~= self@.rows.subrange(
                            0,
                            i as int,
                        ));
                        assert(self@.rows.subrange(0, i + 1).last() == self@.rows[i as int]);
                    }
                    if self.rows[i].payment_id.eq(&pid) && self.rows[i].merchant_id.eq(&mid) {
                        out.push(self.rows[i].clone());
                        proof {
                            assert(rows_view(out@) =~= rows_by_payment(
                                self@.rows.subrange(0, i + 1),
                                payment_id@,
                                merchant_id@,
                            ));
                        }
                    }
                    i = i + 1;
                }
                proof {
                    assert(self@.rows.subrange(0, self.rows@.len() as int) =~= self@.rows);
                }
                Result::Ok(out)
            },
            MerchantStorageScheme::RedisKv => {
                let lid = lookup_id(payment_id, merchant_id);
                self.kv_scan(&lid)
            },
        }
    }

    fn find_refund_by_merchant_id_transaction_id(
        &self,
        merchant_id: &str,
        txn_id: &str,
        storage_scheme: MerchantStorageScheme,
    ) -> (r: Result<Vec<Refund>, StorageError>)
        ensures
            ({
                let want = match storage_scheme {
                    MerchantStorageScheme::PostgresOnly => Result::<_, StorageErrorV>::Ok(
                        rows_by_txn(self@.rows, merchant_id@, txn_id@),
                    ),
                    MerchantStorageScheme::RedisKv => kv_find_many(
                        self@,
                        spec_lookup_id(txn_id@, merchant_id@),
                    ),
                };
                vec_res_view(r) == want
            }),
    {
        match storage_scheme {
            MerchantStorageScheme::PostgresOnly => {
                let mid = String::from_str(merchant_id);
                let tid = String::from_str(txn_id);
                let mut out: Vec<Refund> = Vec::new();
                let mut i: usize = 0;
                proof {
                    assert(self@.rows.subrange(0, 0) =~= Seq::<RefundV>::empty());
                    assert(rows_view(out@) =~= Seq::<RefundV>::empty());
                }
                while i < self.rows.len()
                    invariant
                        0 <= i <= self.rows.len(),
                        mid@ == merchant_id@,
                        tid@ == txn_id@,
                        rows_view(out@) == rows_by_txn(
                            self@.rows.subrange(0, i as int),
                            merchant_id@,
                            txn_id@,
                        ),
                    decreases self.rows.len() - i,
                {
                    proof {
                        assert(self@.rows.subrange(0, i + 1).drop_last() =~= self@.rows.subrange(
                            0,
                            i as int,
                        ));
                        assert(self@.rows.subrange(0, i + 1).last() == self@.rows[i as int]);
                    }
                    if self.rows[i].merchant_id.eq(&mid) && self.rows[i].transaction_id.eq(&tid) {
                        out.push(self.rows[i].clone());
                        proof {
                            assert(rows_view(out@) =~= rows_by_txn(
                                self@.rows.subrange(0, i + 1),
                                merchant_id@,
                                txn_id@,
                            ));
                        }
                    }
                    i = i + 1;
                }
                proof {
                    assert(self@.rows.subrange(0, self.rows@.len() as int) =~= self@.rows);
                }
                Result::Ok(out)
            },
            MerchantStorageScheme::RedisKv => {
                let lid = lookup_id(txn_id, merchant_id);
                self.kv_scan(&lid)
            },
        }
    }
}

impl Store {
    /// Resolves a lookup identifier and returns every decodable record of
    /// the shard whose field matches the payment pattern.
    fn kv_scan(&self, lid: &String) -> (r: Result<Vec<Refund>, StorageError>)
        requires
            store_wf(self@),
        ensures
            vec_res_view(r) == kv_find_many(self@, lid@),
    {
        match lookups_find(&self.lookups, lid) {
            Option::None => {
                proof {
                    assert(!lkp_has(self@.lookups, lid@)) by {
                        if lkp_has(self@.lookups, lid@) {
                            let j = lkp_idx(self@.lookups, lid@);
                            assert(lookups_view(self.lookups@)[j] == self.lookups@[j]@);
                        }
                    }
                    assert(rows_view(Seq::<Refund>::empty()) =~= Seq::<RefundV>::empty());
                }
                Result::Ok(Vec::new())
            },
            Option::Some(i) => {
                proof {
                    lemma_lkp_at(self@.lookups, lid@, i as int);
                }
                let key = self.lookups[i].result_id.clone();
                let pid = first_seg(key.as_str());
                proof {
                    assert(exists|rr: Seq<char>| is_first_seg(key@, rr)) by {
                        assert(is_first_seg(key@, pid@));
                    }
                    lemma_first_seg_unique(key@, spec_first_seg_of(key@), pid@);
                }
                let mut prefix = String::from_str("pa_");
                prefix.append(pid.as_str());
                prefix.append("_ref_");
                proof {
                    assert(prefix@ == spec_scan_prefix(spec_first_seg_of(key@)));
                }
                match alist_find(&self.shards, &key) {
                    Option::None => {
                        proof {
                            assert(!alist_has(self@.shards, key@)) by {
                                if alist_has(self@.shards, key@) {
                                    let j = alist_idx(self@.shards, key@);
                                    assert(self.shards@[j].0@ == key@);
                                }
                            }
                            assert(rows_view(Seq::<Refund>::empty()) =~= Seq::<RefundV>::empty());
                        }
                        Result::Ok(Vec::new())
                    },
                    Option::Some(si) => {
                        proof {
                            lemma_alist_at(self@.shards, key@, si as int);
                        }
                        let ghost fv = alist_get(self@.shards, key@);
                        let mut out: Vec<Refund> = Vec::new();
                        let mut idx: usize = 0;
                        proof {
                            assert(fv.subrange(0, 0) =~= Seq::<(Seq<char>, Seq<char>)>::empty());
                            assert(rows_view(out@) =~= Seq::<RefundV>::empty());
                        }
                        while idx < self.shards[si].1.len()
                            invariant
                                0 <= idx <= self.shards@[si as int].1@.len(),
                                si < self.shards@.len(),
                                store_wf(self@),
                                fv == fields_view(self.shards@[si as int].1@),
                                prefix@ == spec_scan_prefix(spec_first_seg_of(key@)),
                                rows_view(out@) == scan_decoded(
                                    fv.subrange(0, idx as int),
                                    prefix@,
                                ),
                            decreases self.shards@[si as int].1@.len() - idx,
                        {
                            proof {
                                assert(fv.subrange(0, idx + 1).drop_last() =~= fv.subrange(
                                    0,
                                    idx as int,
                                ));
                                assert(fv.subrange(0, idx + 1).last() == fv[idx as int]);
                                assert(fv[idx as int].0 == self.shards@[si as int].1@[
                                    idx as int
                                ].0@);
                                assert(fv[idx as int].1 == self.shards@[si as int].1@[
                                    idx as int
                                ].1@);
                            }
                            if str_has_prefix(&prefix, &self.shards[si].1[idx].0) {
                                match decode_refund(self.shards[si].1[idx].1.as_str()) {
                                    Option::Some(x) => {
                                        out.push(x);
                                        proof {
                                            assert(rows_view(out@) =~= scan_decoded(
                                                fv.subrange(0, idx + 1),
                                                prefix@,
                                            ));
                                        }
                                    },
                                    Option::None => {
                                        proof {
                                            assert(rows_view(out@) =~= scan_decoded(
                                                fv.subrange(0, idx + 1),
                                                prefix@,
                                            ));
                                        }
                                    },
                                }
                            } else {
                                proof {
                                    assert(rows_view(out@) =~= scan_decoded(
                                        fv.subrange(0, idx + 1),
                                        prefix@,
                                    ));
                                }
                            }
                            idx = idx + 1;
                        }
                        proof {
                            assert(fv.subrange(0, fv.len() as int) =~= fv);
                        }
                        Result::Ok(out)
                    },
                }
            },
        }
    }
}

} // verus!

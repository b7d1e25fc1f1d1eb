//! Derivation of shard keys, field names, reverse-lookup identifiers and
//! drain-stream names from the record's business identifiers.

use vstd::prelude::*;
use vstd::string::*;
use crate::codec::{dec_rep, u64_dec};

verus! {

/// Holds when `'_'` occurs nowhere in `s`.
pub open spec fn underscore_free(s: Seq<char>) -> bool {
    forall|i: int| 0 <= i < s.len() ==> s[i] != '_'
}

/// Shard key grouping all refunds of one payment: `{payment_id}_{merchant_id}`.
pub open spec fn spec_shard_key(payment_id: Seq<char>, merchant_id: Seq<char>) -> Seq<char> {
    payment_id + seq!['_'] + merchant_id
}

/// Reverse-lookup identifier: `{linked business id}_{merchant_id}`.
pub open spec fn spec_lookup_id(id: Seq<char>, merchant_id: Seq<char>) -> Seq<char> {
    id + seq!['_'] + merchant_id
}

/// Field name of one refund inside its shard: `pa_{payment_id}_ref_{refund_id}`.
pub open spec fn spec_field_name(payment_id: Seq<char>, refund_id: Seq<char>) -> Seq<char> {
    "pa_"@ + payment_id + "_ref_"@ + refund_id
}

/// Character-for-character string comparison.
pub fn str_eq(a: &str, b: &str) -> (r: bool)
    ensures
        r == (a@ == b@),
{
    let sa = String::from_str(a);
    let sb = String::from_str(b);
    sa.eq(&sb)
}

fn underscore_join(a: &str, b: &str) -> (r: String)
    ensures
        r@ == a@ + seq!['_'] + b@,
{
    let mut s = String::from_str(a);
    s.append("_");
    s.append(b);
    proof {
        reveal_strlit("_");
        assert(s@ =~= a@ + seq!['_'] + b@);
    }
    s
}

/// Builds the shard key of a payment.
pub fn shard_key(payment_id: &str, merchant_id: &str) -> (r: String)
    ensures
        r@ == spec_shard_key(payment_id@, merchant_id@),
{
    underscore_join(payment_id, merchant_id)
}

/// Builds a reverse-lookup identifier.
pub fn lookup_id(id: &str, merchant_id: &str) -> (r: String)
    ensures
        r@ == spec_lookup_id(id@, merchant_id@),
{
    underscore_join(id, merchant_id)
}

/// Builds the field name of a refund inside its shard.
pub fn field_name(payment_id: &str, refund_id: &str) -> (r: String)
    ensures
        r@ == spec_field_name(payment_id@, refund_id@),
{
    let mut s = String::from_str("pa_");
    s.append(payment_id);
    s.append("_ref_");
    s.append(refund_id);
    s
}

/// Relation between a string and its prefix up to the first `'_'`.
pub open spec fn is_first_seg(s: Seq<char>, r: Seq<char>) -> bool {
    &&& r.len() <= s.len()
    &&& r == s.subrange(0, r.len() as int)
    &&& forall|k: int| 0 <= k < r.len() ==> s[k] != '_'
    &&& (r.len() == s.len() || s[r.len() as int] == '_')
}

/// The prefix of a shard key up to the first `'_'` recovers the payment id.
pub proof fn lemma_first_seg_shard_key(p: Seq<char>, m: Seq<char>, r: Seq<char>)
    requires
        underscore_free(p),
        is_first_seg(spec_shard_key(p, m), r),
    ensures
        r == p,
{
    let s = spec_shard_key(p, m);
    assert(s.len() == p.len() + 1 + m.len());
    assert(forall|k: int| 0 <= k < p.len() ==> s[k] == p[k]);
    assert((p + seq!['_'] + m)[p.len() as int] == '_');
    if r.len() < p.len() {
        assert(s[r.len() as int] == p[r.len() as int]);
        assert(s[r.len() as int] == '_');
        assert(false);
    }
    if r.len() > p.len() {
        assert(s[p.len() as int] == '_');
        assert(false);
    }
    assert(r =~= p);
}

/// The prefix before the first `'_'` is unique.
pub proof fn lemma_first_seg_unique(s: Seq<char>, a: Seq<char>, b: Seq<char>)
    requires
        is_first_seg(s, a),
        is_first_seg(s, b),
    ensures
        a == b,
{
    if a.len() < b.len() {
        assert(s[a.len() as int] == '_');
        assert(false);
    }
    if b.len() < a.len() {
        assert(s[b.len() as int] == '_');
        assert(false);
    }
    assert(a =~= b);
}

/// Extracts the segment before the first `'_'` of a key.
pub fn first_seg(s: &str) -> (r: String)
    ensures
        is_first_seg(s@, r@),
{
    let len = s.unicode_len();
    let mut j: usize = 0;
    while j < len && s.get_char(j) != '_'
        invariant
            0 <= j <= len,
            len == s@.len(),
            forall|k: int| 0 <= k < j ==> s@[k] != '_',
        decreases len - j,
    {
        j = j + 1;
    }
    let r = String::from_str(s.substring_char(0, j));
    proof {
        assert(r@ == s@.subrange(0, j as int));
    }
    r
}

/// Deterministic routing hash of a shard key, reduced modulo a large prime.
pub open spec fn spec_route_hash(s: Seq<char>) -> int
    decreases s.len(),
{
    if s.len() == 0 {
        5381
    } else {
        (spec_route_hash(s.drop_last()) * 33 + s.last() as u32) % 1000000007
    }
}

fn route_hash(s: &str) -> (h: u64)
    ensures
        h as int == spec_route_hash(s@),
        h < 1000000007 || s@.len() == 0,
{
    let len = s.unicode_len();
    let mut h: u64 = 5381;
    let mut i: usize = 0;
    while i < len
        invariant
            0 <= i <= len,
            len == s@.len(),
            h as int == spec_route_hash(s@.subrange(0, i as int)),
            h == 5381 || h < 1000000007,
        decreases len - i,
    {
        let c = s.get_char(i);
        let cv = c as u32;
        proof {
            assert(s@.subrange(0, i + 1).drop_last() =~= s@.subrange(0, i as int));
            assert(s@.subrange(0, i + 1).last() == s@[i as int]);
        }
        h = (h * 33 + cv as u64) % 1000000007;
        i = i + 1;
    }
    proof {
        assert(s@.subrange(0, len as int) =~= s@);
    }
    h
}

/// Name of the per-shard drain stream a key routes to, out of
/// `partitions` physical logs.
pub open spec fn spec_stream_name(key: Seq<char>, partitions: int) -> Seq<char> {
    "drainer_stream_"@ + dec_rep((spec_route_hash(key) % partitions) as nat)
}

/// Builds the drain-stream name a shard key routes to.
pub fn drainer_stream_name(key: &str, partitions: u64) -> (r: String)
    requires
        partitions >= 1,
    ensures
        r@ == spec_stream_name(key@, partitions as int),
{
    let h = route_hash(key);
    let p = h % partitions;
    let digits = u64_dec(p);
    let mut s = String::from_str("drainer_stream_");
    s.append(digits.as_str());
    proof {
        assert(spec_route_hash(key@) >= 0) by {
            if key@.len() > 0 {
            }
        }
        assert(p as int == spec_route_hash(key@) % partitions as int);
    }
    s
}

} // verus!

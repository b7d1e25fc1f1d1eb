//! Codec boundary: a refund is stored in the key-value shard as a
//! self-describing text payload.
//!
//! The payload is the record's fields in a fixed order, each field followed
//! by a `'|'` terminator. Identifier fields are embedded verbatim (a valid
//! record never contains the terminator), numeric fields are embedded as
//! canonical decimal digits, optional fields carry an `'N'`/`'S'` tag, and
//! enumerated fields a one-character tag. Encoding is total for any valid
//! record; decoding fails exactly on payloads no valid record encodes to.

use vstd::prelude::*;
use vstd::string::*;
use vstd::arithmetic::div_mod::*;
use vstd::seq_lib::*;
use crate::types::{opt_view, Currency, Refund, RefundStatus, RefundV};

verus! {

/// Holds when the terminator character occurs nowhere in `s`.
pub open spec fn sep_free(s: Seq<char>) -> bool {
    forall|i: int| 0 <= i < s.len() ==> s[i] != '|'
}

pub open spec fn opt_sep_free(o: Option<Seq<char>>) -> bool {
    match o {
        Option::Some(s) => sep_free(s),
        Option::None => true,
    }
}

// ---------------------------------------------------------------------------
// Decimal representation of the numeric fields.
// ---------------------------------------------------------------------------

pub open spec fn digit_char(d: nat) -> char {
    if d == 0 { '0' }
    else if d == 1 { '1' }
    else if d == 2 { '2' }
    else if d == 3 { '3' }
    else if d == 4 { '4' }
    else if d == 5 { '5' }
    else if d == 6 { '6' }
    else if d == 7 { '7' }
    else if d == 8 { '8' }
    else { '9' }
}

pub open spec fn digit_val(c: char) -> nat {
    if c == '0' { 0 }
    else if c == '1' { 1 }
    else if c == '2' { 2 }
    else if c == '3' { 3 }
    else if c == '4' { 4 }
    else if c == '5' { 5 }
    else if c == '6' { 6 }
    else if c == '7' { 7 }
    else if c == '8' { 8 }
    else { 9 }
}

pub open spec fn is_digit(c: char) -> bool {
    c == '0' || c == '1' || c == '2' || c == '3' || c == '4'
        || c == '5' || c == '6' || c == '7' || c == '8' || c == '9'
}

/// Canonical decimal digits of `n`, most significant first.
pub open spec fn dec_rep(n: nat) -> Seq<char>
    decreases n,
    via dec_rep_decreases
{
    if n < 10 {
        seq![digit_char(n)]
    } else {
        dec_rep(n / 10).push(digit_char(n % 10))
    }
}

#[via_fn]
proof fn dec_rep_decreases(n: nat) {
    if n >= 10 {
        broadcast use lemma_div_is_strictly_smaller;

        assert(n as int / 10 < n as int);
    }
}

/// Value of a digit string, read most significant first.
pub open spec fn dec_val(s: Seq<char>) -> nat
    decreases s.len(),
{
    if s.len() == 0 {
        0
    } else {
        dec_val(s.drop_last()) * 10 + digit_val(s.last())
    }
}

pub proof fn lemma_dec_rep_len(n: nat)
    ensures
        dec_rep(n).len() >= 1,
    decreases n,
{
    if n >= 10 {
        broadcast use lemma_div_is_strictly_smaller;

        lemma_dec_rep_len(n / 10);
    }
}

pub proof fn lemma_dec_rep_digits(n: nat)
    ensures
        forall|i: int| 0 <= i < dec_rep(n).len() ==> is_digit(#[trigger] dec_rep(n)[i]),
    decreases n,
{
    if n >= 10 {
        broadcast use lemma_div_is_strictly_smaller;

        lemma_dec_rep_digits(n / 10);
        assert(n % 10 < 10) by {
            lemma_mod_pos_bound(n as int, 10);
        }
        let s = dec_rep(n);
        let t = dec_rep(n / 10);
        assert forall|i: int| 0 <= i < s.len() implies is_digit(#[trigger] s[i]) by {
            if i < t.len() {
                assert(s[i] == t[i]);
            } else {
                assert(s[i] == digit_char(n % 10));
            }
        }
    }
}

pub proof fn lemma_dec_rep_sep_free(n: nat)
    ensures
        sep_free(dec_rep(n)),
{
    lemma_dec_rep_digits(n);
}

/// Reading back the canonical digits of `n` yields `n`.
pub proof fn lemma_dec_val_rep(n: nat)
    ensures
        dec_val(dec_rep(n)) == n,
    decreases n,
{
    if n < 10 {
        assert(dec_rep(n) == seq![digit_char(n)]);
        assert(dec_rep(n).drop_last() =~= Seq::<char>::empty());
        assert(dec_val(Seq::<char>::empty()) == 0);
        assert(dec_rep(n).last() == digit_char(n));
        assert(dec_val(dec_rep(n)) == 0 * 10 + digit_val(digit_char(n)));
    } else {
        broadcast use lemma_div_is_strictly_smaller;

        lemma_dec_val_rep(n / 10);
        let s = dec_rep(n);
        assert(s == dec_rep(n / 10).push(digit_char(n % 10)));
        assert(s.drop_last() =~= dec_rep(n / 10));
        assert(s.last() == digit_char(n % 10));
        assert(n % 10 < 10) by {
            lemma_mod_pos_bound(n as int, 10);
        }
        assert(digit_val(digit_char(n % 10)) == n % 10);
        assert(n / 10 * 10 + n % 10 == n) by {
            lemma_fundamental_div_mod(n as int, 10);
        }
    }
}

pub proof fn lemma_dec_rep_injective(a: nat, b: nat)
    requires
        dec_rep(a) == dec_rep(b),
    ensures
        a == b,
{
    lemma_dec_val_rep(a);
    lemma_dec_val_rep(b);
}

/// The value of a prefix of a digit string never exceeds the whole.
pub proof fn lemma_dec_val_prefix(s: Seq<char>, i: int)
    requires
        0 <= i <= s.len(),
    ensures
        dec_val(s.subrange(0, i)) <= dec_val(s),
    decreases s.len() - i,
{
    if i < s.len() {
        lemma_dec_val_prefix(s, i + 1);
        let t = s.subrange(0, i + 1);
        assert(t.drop_last() =~= s.subrange(0, i));
        assert(dec_val(s.subrange(0, i)) <= dec_val(t));
    } else {
        assert(s.subrange(0, i) =~= s);
    }
}

/// Digit characters of a literal, as executable code.
fn digit_str(d: u64) -> (r: &'static str)
    requires
        d < 10,
    ensures
        r@ == seq![digit_char(d as nat)],
{
    proof {
        reveal_strlit("0");
        reveal_strlit("1");
        reveal_strlit("2");
        reveal_strlit("3");
        reveal_strlit("4");
        reveal_strlit("5");
        reveal_strlit("6");
        reveal_strlit("7");
        reveal_strlit("8");
        reveal_strlit("9");
    }
    if d == 0 { let r = "0"; proof { assert(r@ =~= seq![digit_char(d as nat)]); } r }
    else if d == 1 { let r = "1"; proof { assert(r@ =~= seq![digit_char(d as nat)]); } r }
    else if d == 2 { let r = "2"; proof { assert(r@ =~= seq![digit_char(d as nat)]); } r }
    else if d == 3 { let r = "3"; proof { assert(r@ =~= seq![digit_char(d as nat)]); } r }
    else if d == 4 { let r = "4"; proof { assert(r@ =~= seq![digit_char(d as nat)]); } r }
    else if d == 5 { let r = "5"; proof { assert(r@ =~= seq![digit_char(d as nat)]); } r }
    else if d == 6 { let r = "6"; proof { assert(r@ =~= seq![digit_char(d as nat)]); } r }
    else if d == 7 { let r = "7"; proof { assert(r@ =~= seq![digit_char(d as nat)]); } r }
    else if d == 8 { let r = "8"; proof { assert(r@ =~= seq![digit_char(d as nat)]); } r }
    else { let r = "9"; proof { assert(r@ =~= seq![digit_char(d as nat)]); } r }
}

/// Renders `n` as its canonical decimal digits.
pub fn u64_dec(n: u64) -> (s: String)
    ensures
        s@ == dec_rep(n as nat),
    decreases n,
{
    if n < 10 {
        String::from_str(digit_str(n))
    } else {
        proof {
            broadcast use lemma_div_is_strictly_smaller;

            assert(n as int / 10 < n as int);
        }
        let mut s = u64_dec(n / 10);
        s.append(digit_str(n % 10));
        proof {
            assert((n / 10) as nat == n as nat / 10);
            assert((n % 10) as nat == n as nat % 10);
            assert(s@ =~= dec_rep(n as nat / 10).push(digit_char(n as nat % 10)));
        }
        s
    }
}

/// Parses a canonical decimal digit string; returns the value exactly when
/// `s` is `dec_rep` of some representable number.
pub fn parse_dec(s: &String) -> (r: Option<u64>)
    ensures
        match r {
            Option::Some(n) => s@ == dec_rep(n as nat),
            Option::None => forall|n: u64| s@ != dec_rep(n as nat),
        },
{
    let len = s.as_str().unicode_len();
    if len == 0 {
        proof {
            assert forall|n: u64| s@ != dec_rep(n as nat) by {
                lemma_dec_rep_len(n as nat);
            }
        }
        return Option::None;
    }
    let mut i: usize = 0;
    let mut acc: u64 = 0;
    while i < len
        invariant
            0 <= i <= len,
            len == s@.len(),
            acc as nat == dec_val(s@.subrange(0, i as int)),
        decreases len - i,
    {
        let c = s.as_str().get_char(i);
        let d: u64 = match c {
            '0' => 0,
            '1' => 1,
            '2' => 2,
            '3' => 3,
            '4' => 4,
            '5' => 5,
            '6' => 6,
            '7' => 7,
            '8' => 8,
            '9' => 9,
            _ => {
                proof {
                    assert forall|n: u64| s@ != dec_rep(n as nat) by {
                        if s@ == dec_rep(n as nat) {
                            lemma_dec_rep_digits(n as nat);
                            assert(is_digit(s@[i as int]));
                        }
                    }
                }
                return Option::None;
            },
        };
        proof {
            assert(digit_val(c) == d);
            assert(s@.subrange(0, i + 1).drop_last() =~= s@.subrange(0, i as int));
            assert(s@.subrange(0, i + 1).last() == s@[i as int]);
            assert(dec_val(s@.subrange(0, i + 1)) == acc as nat * 10 + d);
        }
        if acc > (u64::MAX - d) / 10 {
            proof {
                let m = (u64::MAX - d) as int;
                lemma_fundamental_div_mod(m, 10);
                lemma_mod_pos_bound(m, 10);
                assert(10 * (acc as int) >= 10 * (m / 10) + 10);
                assert(acc as int * 10 + d > u64::MAX);
                assert forall|n: u64| s@ != dec_rep(n as nat) by {
                    if s@ == dec_rep(n as nat) {
                        lemma_dec_val_rep(n as nat);
                        lemma_dec_val_prefix(s@, i + 1);
                        assert(dec_val(s@.subrange(0, i + 1)) <= n as nat);
                    }
                }
            }
            return Option::None;
        }
        proof {
            let m = (u64::MAX - d) as int;
            lemma_fundamental_div_mod(m, 10);
            lemma_mod_pos_bound(m, 10);
            assert(10 * (acc as int) <= 10 * (m / 10));
            assert(acc as int * 10 + d <= u64::MAX);
        }
        acc = acc * 10 + d;
        i = i + 1;
    }
    proof {
        assert(s@.subrange(0, len as int) =~= s@);
    }
    let back = u64_dec(acc);
    if back.eq(s) {
        Option::Some(acc)
    } else {
        proof {
            assert forall|n: u64| s@ != dec_rep(n as nat) by {
                if s@ == dec_rep(n as nat) {
                    lemma_dec_val_rep(n as nat);
                }
            }
        }
        Option::None
    }
}

// ---------------------------------------------------------------------------
// Joining and splitting terminator-delimited fields.
// ---------------------------------------------------------------------------

/// The fields of a payload, each followed by the terminator.
pub open spec fn spec_join(ps: Seq<Seq<char>>) -> Seq<char>
    decreases ps.len(),
{
    if ps.len() == 0 {
        Seq::empty()
    } else {
        ps[0] + seq!['|'] + spec_join(ps.subrange(1, ps.len() as int))
    }
}

pub open spec fn all_sep_free(ps: Seq<Seq<char>>) -> bool {
    forall|i: int| 0 <= i < ps.len() ==> sep_free(#[trigger] ps[i])
}

pub proof fn lemma_join_push(ps: Seq<Seq<char>>, p: Seq<char>)
    ensures
        spec_join(ps.push(p)) == spec_join(ps) + p + seq!['|'],
    decreases ps.len(),
{
    if ps.len() == 0 {
        assert(ps.push(p)[0] == p);
        assert(ps.push(p).subrange(1, 1) =~= Seq::<Seq<char>>::empty());
        assert(spec_join(Seq::<Seq<char>>::empty()) == Seq::<char>::empty());
        assert(spec_join(ps) == Seq::<char>::empty());
        assert(spec_join(ps.push(p)) =~= spec_join(ps) + p + seq!['|']);
    } else {
        lemma_join_push(ps.subrange(1, ps.len() as int), p);
        assert(ps.push(p).subrange(1, ps.push(p).len() as int) =~= ps.subrange(
            1,
            ps.len() as int,
        ).push(p));
        assert(ps.push(p)[0] == ps[0]);
        assert(spec_join(ps.push(p)) =~= spec_join(ps) + p + seq!['|']);
    }
}

/// A nonempty join ends with the terminator.
pub proof fn lemma_join_last(ps: Seq<Seq<char>>)
    requires
        ps.len() > 0,
    ensures
        spec_join(ps).len() > 0,
        spec_join(ps).last() == '|',
    decreases ps.len(),
{
    if ps.len() == 1 {
        assert(spec_join(ps.subrange(1, 1)) =~= Seq::<char>::empty());
    } else {
        lemma_join_last(ps.subrange(1, ps.len() as int));
    }
}

/// A terminator-delimited prefix is unique among terminator-free fields.
pub proof fn lemma_sep_unique(a: Seq<char>, b: Seq<char>, x: Seq<char>, y: Seq<char>)
    requires
        sep_free(a),
        sep_free(b),
        a + seq!['|'] + x == b + seq!['|'] + y,
    ensures
        a == b,
        x == y,
{
    let s = a + seq!['|'] + x;
    if a.len() < b.len() {
        assert(s[a.len() as int] == '|');
        assert((b + seq!['|'] + y)[a.len() as int] == b[a.len() as int]);
        assert(false);
    }
    if b.len() < a.len() {
        assert((b + seq!['|'] + y)[b.len() as int] == '|');
        assert(s[b.len() as int] == a[b.len() as int]);
        assert(false);
    }
    assert(a.len() == b.len());
    assert((a + seq!['|'] + x).len() == a.len() + 1 + x.len());
    assert((b + seq!['|'] + y).len() == b.len() + 1 + y.len());
    assert(x.len() == y.len());
    assert(a =~= b) by {
        assert forall|i: int| 0 <= i < a.len() implies a[i] == b[i] by {
            assert(s[i] == a[i]);
            assert((b + seq!['|'] + y)[i] == b[i]);
        }
    }
    assert(x =~= y) by {
        assert forall|i: int| 0 <= i < x.len() implies x[i] == y[i] by {
            assert(s[a.len() + 1 + i] == x[i]);
            assert((b + seq!['|'] + y)[b.len() + 1 + i] == y[i]);
        }
    }
}

/// Two terminator-free field lists with the same join are the same list.
pub proof fn lemma_join_injective(ps: Seq<Seq<char>>, qs: Seq<Seq<char>>)
    requires
        all_sep_free(ps),
        all_sep_free(qs),
        spec_join(ps) == spec_join(qs),
    ensures
        ps == qs,
    decreases ps.len(),
{
    if ps.len() == 0 {
        assert(spec_join(ps) == Seq::<char>::empty());
        if qs.len() > 0 {
            lemma_join_last(qs);
            assert(false);
        }
        assert(ps =~= qs);
    } else {
        if qs.len() == 0 {
            lemma_join_last(ps);
            assert(false);
        }
        let pt = ps.subrange(1, ps.len() as int);
        let qt = qs.subrange(1, qs.len() as int);
        assert(spec_join(ps) == ps[0] + seq!['|'] + spec_join(pt));
        assert(spec_join(qs) == qs[0] + seq!['|'] + spec_join(qt));
        lemma_sep_unique(ps[0], qs[0], spec_join(pt), spec_join(qt));
        assert(all_sep_free(pt)) by {
            assert(forall|i: int| 0 <= i < pt.len() ==> pt[i] == ps[i + 1]);
        }
        assert(all_sep_free(qt)) by {
            assert(forall|i: int| 0 <= i < qt.len() ==> qt[i] == qs[i + 1]);
        }
        lemma_join_injective(pt, qt);
        assert(ps.len() == qs.len());
        assert forall|i: int| 0 <= i < ps.len() implies ps[i] == qs[i] by {
            if i > 0 {
                assert(pt[i - 1] == ps[i]);
                assert(qt[i - 1] == qs[i]);
            }
        }
        assert(ps =~= qs);
    }
}

/// Ghost image of a list of field strings.
pub open spec fn strs_view(ss: Seq<String>) -> Seq<Seq<char>> {
    ss.map_values(|t: String| t@)
}

/// Splits a payload into its terminator-delimited fields; fails exactly when
/// the payload is not a join of terminator-free fields.
pub fn split_fields(s: &str) -> (r: Option<Vec<String>>)
    ensures
        match r {
            Option::Some(parts) => all_sep_free(strs_view(parts@)) && spec_join(
                strs_view(parts@),
            ) == s@,
            Option::None => forall|ps: Seq<Seq<char>>|
                all_sep_free(ps) ==> spec_join(ps) != s@,
        },
{
    let len = s.unicode_len();
    let mut parts: Vec<String> = Vec::new();
    let mut pos: usize = 0;
    proof {
        assert(strs_view(parts@) =~= Seq::<Seq<char>>::empty());
        assert(s@.subrange(0, 0) =~= Seq::<char>::empty());
    }
    while pos < len
        invariant
            0 <= pos <= len,
            len == s@.len(),
            all_sep_free(strs_view(parts@)),
            spec_join(strs_view(parts@)) == s@.subrange(0, pos as int),
        decreases len - pos,
    {
        let mut j = pos;
        while j < len && s.get_char(j) != '|'
            invariant
                pos <= j <= len,
                len == s@.len(),
                forall|k: int| pos <= k < j ==> s@[k] != '|',
            decreases len - j,
        {
            j = j + 1;
        }
        if j == len {
            proof {
                assert(s@[len - 1] != '|');
                assert forall|ps: Seq<Seq<char>>|
                    all_sep_free(ps) implies spec_join(ps) != s@ by {
                    if spec_join(ps) == s@ {
                        if ps.len() == 0 {
                        } else {
                            lemma_join_last(ps);
                        }
                    }
                }
            }
            return Option::None;
        }
        let part = String::from_str(s.substring_char(pos, j));
        let ghost old_parts = parts@;
        parts.push(part);
        proof {
            assert(s@[j as int] == '|');
            assert(strs_view(parts@) =~= strs_view(old_parts).push(part@));
            lemma_join_push(strs_view(old_parts), part@);
            assert(part@ == s@.subrange(pos as int, j as int));
            assert(sep_free(part@));
            assert(s@.subrange(0, j + 1) =~= s@.subrange(0, pos as int) + part@ + seq!['|']);
            assert(spec_join(strs_view(parts@)) == s@.subrange(0, j + 1));
        }
        pos = j + 1;
    }
    proof {
        assert(s@.subrange(0, len as int) =~= s@);
    }
    Option::Some(parts)
}

// ---------------------------------------------------------------------------
// Field encodings.
// ---------------------------------------------------------------------------

pub open spec fn enc_opt(o: Option<Seq<char>>) -> Seq<char> {
    match o {
        Option::None => seq!['N'],
        Option::Some(x) => seq!['S'] + x,
    }
}

pub open spec fn enc_bool(b: bool) -> Seq<char> {
    if b {
        seq!['T']
    } else {
        seq!['F']
    }
}

pub open spec fn status_char(s: RefundStatus) -> char {
    match s {
        RefundStatus::Failure => 'F',
        RefundStatus::ManualReview => 'M',
        RefundStatus::Pending => 'P',
        RefundStatus::Success => 'S',
        RefundStatus::TransactionFailure => 'X',
    }
}

pub open spec fn currency_char(c: Currency) -> char {
    match c {
        Currency::Eur => 'E',
        Currency::Gbp => 'G',
        Currency::Inr => 'I',
        Currency::Sgd => 'D',
        Currency::Usd => 'U',
    }
}

/// A record the codec can carry: identifier and message fields are free of
/// the terminator, numeric fields are nonnegative and machine-representable.
pub open spec fn codec_wf(v: RefundV) -> bool {
    &&& sep_free(v.refund_id)
    &&& sep_free(v.merchant_id)
    &&& sep_free(v.internal_reference_id)
    &&& sep_free(v.payment_id)
    &&& sep_free(v.transaction_id)
    &&& opt_sep_free(v.pg_refund_id)
    &&& opt_sep_free(v.refund_error_message)
    &&& 0 <= v.id <= i64::MAX
    &&& 0 <= v.total_amount <= i64::MAX
    &&& 0 <= v.refund_amount <= i64::MAX
    &&& 0 <= v.created_at <= i64::MAX
    &&& 0 <= v.updated_at <= i64::MAX
}

/// The payload fields of a record, in storage order.
pub open spec fn field_parts(v: RefundV) -> Seq<Seq<char>> {
    Seq::new(
        15,
        |i: int|
            if i == 0 { dec_rep(v.id as nat) }
            else if i == 1 { v.refund_id }
            else if i == 2 { v.merchant_id }
            else if i == 3 { v.internal_reference_id }
            else if i == 4 { v.payment_id }
            else if i == 5 { v.transaction_id }
            else if i == 6 { enc_opt(v.pg_refund_id) }
            else if i == 7 { dec_rep(v.total_amount as nat) }
            else if i == 8 { seq![currency_char(v.currency)] }
            else if i == 9 { dec_rep(v.refund_amount as nat) }
            else if i == 10 { seq![status_char(v.refund_status)] }
            else if i == 11 { enc_bool(v.sent_to_gateway) }
            else if i == 12 { enc_opt(v.refund_error_message) }
            else if i == 13 { dec_rep(v.created_at as nat) }
            else { dec_rep(v.updated_at as nat) },
    )
}

/// The payload a record encodes to.
pub open spec fn spec_encode(v: RefundV) -> Seq<char> {
    spec_join(field_parts(v))
}

/// The record a payload decodes to: the unique valid record encoding to it,
/// if any.
pub open spec fn spec_decode(s: Seq<char>) -> Option<RefundV> {
    if exists|v: RefundV| codec_wf(v) && spec_encode(v) == s {
        Option::Some(choose|v: RefundV| codec_wf(v) && spec_encode(v) == s)
    } else {
        Option::None
    }
}

pub proof fn lemma_field_parts_sep_free(v: RefundV)
    requires
        codec_wf(v),
    ensures
        all_sep_free(field_parts(v)),
{
    lemma_dec_rep_sep_free(v.id as nat);
    lemma_dec_rep_sep_free(v.total_amount as nat);
    lemma_dec_rep_sep_free(v.refund_amount as nat);
    lemma_dec_rep_sep_free(v.created_at as nat);
    lemma_dec_rep_sep_free(v.updated_at as nat);
    let ps = field_parts(v);
    assert forall|i: int| 0 <= i < ps.len() implies sep_free(#[trigger] ps[i]) by {
        match v.pg_refund_id {
            Option::Some(x) => {
                assert(forall|k: int| 0 <= k < x.len() ==> (seq!['S'] + x)[k + 1] == x[k]);
            },
            Option::None => {},
        }
        match v.refund_error_message {
            Option::Some(x) => {
                assert(forall|k: int| 0 <= k < x.len() ==> (seq!['S'] + x)[k + 1] == x[k]);
            },
            Option::None => {},
        }
    }
}

/// Encoding is injective on valid records.
pub proof fn lemma_encode_injective(a: RefundV, b: RefundV)
    requires
        codec_wf(a),
        codec_wf(b),
        spec_encode(a) == spec_encode(b),
    ensures
        a == b,
{
    lemma_field_parts_sep_free(a);
    lemma_field_parts_sep_free(b);
    lemma_join_injective(field_parts(a), field_parts(b));
    let pa = field_parts(a);
    let pb = field_parts(b);
    assert(pa[0] == pb[0]);
    lemma_dec_rep_injective(a.id as nat, b.id as nat);
    assert(pa[1] == pb[1]);
    assert(pa[2] == pb[2]);
    assert(pa[3] == pb[3]);
    assert(pa[4] == pb[4]);
    assert(pa[5] == pb[5]);
    assert(pa[6] == pb[6]);
    lemma_enc_opt_injective(a.pg_refund_id, b.pg_refund_id);
    assert(pa[7] == pb[7]);
    lemma_dec_rep_injective(a.total_amount as nat, b.total_amount as nat);
    assert(pa[8] == pb[8]);
    assert(seq![currency_char(a.currency)][0] == currency_char(a.currency));
    assert(seq![currency_char(b.currency)][0] == currency_char(b.currency));
    assert(currency_char(a.currency) == currency_char(b.currency));
    assert(a.currency == b.currency);
    assert(pa[9] == pb[9]);
    lemma_dec_rep_injective(a.refund_amount as nat, b.refund_amount as nat);
    assert(pa[10] == pb[10]);
    assert(seq![status_char(a.refund_status)][0] == status_char(a.refund_status));
    assert(seq![status_char(b.refund_status)][0] == status_char(b.refund_status));
    assert(status_char(a.refund_status) == status_char(b.refund_status));
    assert(a.refund_status == b.refund_status);
    assert(pa[11] == pb[11]);
    assert(enc_bool(a.sent_to_gateway)[0] == enc_bool(b.sent_to_gateway)[0]);
    assert(a.sent_to_gateway == b.sent_to_gateway);
    assert(pa[12] == pb[12]);
    lemma_enc_opt_injective(a.refund_error_message, b.refund_error_message);
    assert(pa[13] == pb[13]);
    lemma_dec_rep_injective(a.created_at as nat, b.created_at as nat);
    assert(pa[14] == pb[14]);
    lemma_dec_rep_injective(a.updated_at as nat, b.updated_at as nat);
    assert(a =~= b);
}

/// Every valid record decodes back to itself.
pub proof fn lemma_encode_decode_round_trip(v: RefundV)
    requires
        codec_wf(v),
    ensures
        spec_decode(spec_encode(v)) == Option::Some(v),
{
    let s = spec_encode(v);
    assert(codec_wf(v) && spec_encode(v) == s);
    let u = choose|u: RefundV| codec_wf(u) && spec_encode(u) == s;
    lemma_encode_injective(u, v);
}

pub proof fn lemma_enc_opt_injective(a: Option<Seq<char>>, b: Option<Seq<char>>)
    requires
        enc_opt(a) == enc_opt(b),
    ensures
        a == b,
{
    match (a, b) {
        (Option::Some(x), Option::Some(y)) => {
            assert((seq!['S'] + x).len() == 1 + x.len());
            assert((seq!['S'] + y).len() == 1 + y.len());
            assert(x.len() == y.len());
            assert(x =~= y) by {
                assert forall|i: int| 0 <= i < x.len() implies x[i] == y[i] by {
                    assert((seq!['S'] + x)[i + 1] == x[i]);
                    assert((seq!['S'] + y)[i + 1] == y[i]);
                }
            }
        },
        (Option::Some(x), Option::None) => {
            assert((seq!['S'] + x)[0] == 'S');
            assert(seq!['N'][0] == 'N');
            assert(false);
        },
        (Option::None, Option::Some(y)) => {
            assert((seq!['S'] + y)[0] == 'S');
            assert(seq!['N'][0] == 'N');
            assert(false);
        },
        (Option::None, Option::None) => {},
    }
}

// ---------------------------------------------------------------------------
// Executable encoding.
// ---------------------------------------------------------------------------

/// Appends one field and its terminator to a payload under construction.
fn append_part(s: &mut String, part: &str)
    ensures
        final(s)@ == old(s)@ + part@ + seq!['|'],
{
    s.append(part);
    s.append("|");
    proof {
        reveal_strlit("|");
        assert("|"@ =~= seq!['|']);
        assert(s@ =~= old(s)@ + part@ + seq!['|']);
    }
}

fn status_str(s: RefundStatus) -> (r: &'static str)
    ensures
        r@ == seq![status_char(s)],
{
    proof {
        reveal_strlit("F");
        reveal_strlit("M");
        reveal_strlit("P");
        reveal_strlit("S");
        reveal_strlit("X");
    }
    match s {
        RefundStatus::Failure => { let r = "F"; proof { assert(r@ =~= seq![status_char(s)]); } r },
        RefundStatus::ManualReview => { let r = "M"; proof { assert(r@ =~= seq![status_char(s)]); } r },
        RefundStatus::Pending => { let r = "P"; proof { assert(r@ =~= seq![status_char(s)]); } r },
        RefundStatus::Success => { let r = "S"; proof { assert(r@ =~= seq![status_char(s)]); } r },
        RefundStatus::TransactionFailure => { let r = "X"; proof { assert(r@ =~= seq![status_char(s)]); } r },
    }
}

fn currency_str(c: Currency) -> (r: &'static str)
    ensures
        r@ == seq![currency_char(c)],
{
    proof {
        reveal_strlit("E");
        reveal_strlit("G");
        reveal_strlit("I");
        reveal_strlit("D");
        reveal_strlit("U");
    }
    match c {
        Currency::Eur => { let r = "E"; proof { assert(r@ =~= seq![currency_char(c)]); } r },
        Currency::Gbp => { let r = "G"; proof { assert(r@ =~= seq![currency_char(c)]); } r },
        Currency::Inr => { let r = "I"; proof { assert(r@ =~= seq![currency_char(c)]); } r },
        Currency::Sgd => { let r = "D"; proof { assert(r@ =~= seq![currency_char(c)]); } r },
        Currency::Usd => { let r = "U"; proof { assert(r@ =~= seq![currency_char(c)]); } r },
    }
}

fn bool_str(b: bool) -> (r: &'static str)
    ensures
        r@ == enc_bool(b),
{
    proof {
        reveal_strlit("T");
        reveal_strlit("F");
    }
    if b {
        let r = "T";
        proof { assert(r@ =~= enc_bool(b)); }
        r
    } else {
        let r = "F";
        proof { assert(r@ =~= enc_bool(b)); }
        r
    }
}

fn opt_string(o: &Option<String>) -> (r: String)
    ensures
        r@ == enc_opt(opt_view(*o)),
{
    proof {
        reveal_strlit("N");
        reveal_strlit("S");
    }
    match o {
        Option::None => {
            let r = String::from_str("N");
            proof { assert(r@ =~= enc_opt(opt_view(*o))); }
            r
        },
        Option::Some(x) => {
            let mut r = String::from_str("S");
            r.append(x.as_str());
            proof { assert(r@ =~= enc_opt(opt_view(*o))); }
            r
        },
    }
}

/// Encodes a valid record to its payload.
pub fn encode_refund(r: &Refund) -> (s: String)
    requires
        codec_wf(r@),
    ensures
        s@ == spec_encode(r@),
{
    let ghost parts = field_parts(r@);
    let mut s = String::new();
    proof {
        assert(spec_join(parts.subrange(0, 0)) == Seq::<char>::empty()) by {
            assert(parts.subrange(0, 0) =~= Seq::<Seq<char>>::empty());
        }
    }
    let p_id = u64_dec(r.id as u64);
    append_part(&mut s, p_id.as_str());
    proof {
        assert(parts.subrange(0, 0).push(parts[0]) =~= parts.subrange(0, 1));
        lemma_join_push(parts.subrange(0, 0), parts[0]);
        assert(s@ == spec_join(parts.subrange(0, 1)));
    }
    append_part(&mut s, r.refund_id.as_str());
    proof {
        assert(parts.subrange(0, 1).push(parts[1]) =~= parts.subrange(0, 2));
        lemma_join_push(parts.subrange(0, 1), parts[1]);
        assert(s@ == spec_join(parts.subrange(0, 2)));
    }
    append_part(&mut s, r.merchant_id.as_str());
    proof {
        assert(parts.subrange(0, 2).push(parts[2]) =~= parts.subrange(0, 3));
        lemma_join_push(parts.subrange(0, 2), parts[2]);
        assert(s@ == spec_join(parts.subrange(0, 3)));
    }
    append_part(&mut s, r.internal_reference_id.as_str());
    proof {
        assert(parts.subrange(0, 3).push(parts[3]) =~= parts.subrange(0, 4));
        lemma_join_push(parts.subrange(0, 3), parts[3]);
        assert(s@ == spec_join(parts.subrange(0, 4)));
    }
    append_part(&mut s, r.payment_id.as_str());
    proof {
        assert(parts.subrange(0, 4).push(parts[4]) =~= parts.subrange(0, 5));
        lemma_join_push(parts.subrange(0, 4), parts[4]);
        assert(s@ == spec_join(parts.subrange(0, 5)));
    }
    append_part(&mut s, r.transaction_id.as_str());
    proof {
        assert(parts.subrange(0, 5).push(parts[5]) =~= parts.subrange(0, 6));
        lemma_join_push(parts.subrange(0, 5), parts[5]);
        assert(s@ == spec_join(parts.subrange(0, 6)));
    }
    let p_pg = opt_string(&r.pg_refund_id);
    append_part(&mut s, p_pg.as_str());
    proof {
        assert(parts.subrange(0, 6).push(parts[6]) =~= parts.subrange(0, 7));
        lemma_join_push(parts.subrange(0, 6), parts[6]);
        assert(s@ == spec_join(parts.subrange(0, 7)));
    }
    let p_total = u64_dec(r.total_amount as u64);
    append_part(&mut s, p_total.as_str());
    proof {
        assert(parts.subrange(0, 7).push(parts[7]) =~= parts.subrange(0, 8));
        lemma_join_push(parts.subrange(0, 7), parts[7]);
        assert(s@ == spec_join(parts.subrange(0, 8)));
    }
    append_part(&mut s, currency_str(r.currency));
    proof {
        assert(parts.subrange(0, 8).push(parts[8]) =~= parts.subrange(0, 9));
        lemma_join_push(parts.subrange(0, 8), parts[8]);
        assert(s@ == spec_join(parts.subrange(0, 9)));
    }
    let p_amount = u64_dec(r.refund_amount as u64);
    append_part(&mut s, p_amount.as_str());
    proof {
        assert(parts.subrange(0, 9).push(parts[9]) =~= parts.subrange(0, 10));
        lemma_join_push(parts.subrange(0, 9), parts[9]);
        assert(s@ == spec_join(parts.subrange(0, 10)));
    }
    append_part(&mut s, status_str(r.refund_status));
    proof {
        assert(parts.subrange(0, 10).push(parts[10]) =~= parts.subrange(0, 11));
        lemma_join_push(parts.subrange(0, 10), parts[10]);
        assert(s@ == spec_join(parts.subrange(0, 11)));
    }
    append_part(&mut s, bool_str(r.sent_to_gateway));
    proof {
        assert(parts.subrange(0, 11).push(parts[11]) =~= parts.subrange(0, 12));
        lemma_join_push(parts.subrange(0, 11), parts[11]);
        assert(s@ == spec_join(parts.subrange(0, 12)));
    }
    let p_err = opt_string(&r.refund_error_message);
    append_part(&mut s, p_err.as_str());
    proof {
        assert(parts.subrange(0, 12).push(parts[12]) =~= parts.subrange(0, 13));
        lemma_join_push(parts.subrange(0, 12), parts[12]);
        assert(s@ == spec_join(parts.subrange(0, 13)));
    }
    let p_created = u64_dec(r.created_at as u64);
    append_part(&mut s, p_created.as_str());
    proof {
        assert(parts.subrange(0, 13).push(parts[13]) =~= parts.subrange(0, 14));
        lemma_join_push(parts.subrange(0, 13), parts[13]);
        assert(s@ == spec_join(parts.subrange(0, 14)));
    }
    let p_updated = u64_dec(r.updated_at as u64);
    append_part(&mut s, p_updated.as_str());
    proof {
        assert(parts.subrange(0, 14).push(parts[14]) =~= parts.subrange(0, 15));
        lemma_join_push(parts.subrange(0, 14), parts[14]);
        assert(parts.subrange(0, 15) =~= parts);
        assert(s@ == spec_join(parts));
    }
    s
}

// ---------------------------------------------------------------------------
// Executable decoding.
// ---------------------------------------------------------------------------

fn parse_i64(part: &String) -> (r: Option<i64>)
    ensures
        match r {
            Option::Some(n) => 0 <= n && part@ == dec_rep(n as nat),
            Option::None => forall|n: i64| 0 <= n ==> part@ != #[trigger] dec_rep(n as nat),
        },
{
    match parse_dec(part) {
        Option::Some(u) => {
            if u <= i64::MAX as u64 {
                Option::Some(u as i64)
            } else {
                proof {
                    assert forall|n: i64| 0 <= n implies part@ != #[trigger] dec_rep(n as nat) by {
                        if part@ == dec_rep(n as nat) {
                            lemma_dec_rep_injective(u as nat, n as nat);
                        }
                    }
                }
                Option::None
            }
        },
        Option::None => {
            proof {
                assert forall|n: i64| 0 <= n implies part@ != #[trigger] dec_rep(n as nat) by {
                    if part@ == dec_rep(n as nat) {
                        assert(part@ == dec_rep((n as u64) as nat));
                    }
                }
            }
            Option::None
        },
    }
}

fn parse_opt(part: &String) -> (r: Option<Option<String>>)
    ensures
        match r {
            Option::Some(o) => part@ == enc_opt(opt_view(o)),
            Option::None => forall|o: Option<Seq<char>>| part@ != enc_opt(o),
        },
{
    let len = part.as_str().unicode_len();
    if len == 0 {
        proof {
            assert forall|o: Option<Seq<char>>| part@ != enc_opt(o) by {
                match o {
                    Option::None => assert(enc_opt(o).len() == 1),
                    Option::Some(x) => assert(enc_opt(o).len() == 1 + x.len()),
                }
            }
        }
        return Option::None;
    }
    let c0 = part.as_str().get_char(0);
    if c0 == 'N' {
        if len == 1 {
            proof {
                assert(part@ =~= seq!['N']);
            }
            Option::Some(Option::None)
        } else {
            proof {
                assert forall|o: Option<Seq<char>>| part@ != enc_opt(o) by {
                    match o {
                        Option::None => assert(enc_opt(o).len() == 1),
                        Option::Some(x) => assert(enc_opt(o)[0] == 'S'),
                    }
                }
            }
            Option::None
        }
    } else if c0 == 'S' {
        let rest = String::from_str(part.as_str().substring_char(1, len));
        proof {
            assert(part@ =~= seq!['S'] + rest@);
        }
        Option::Some(Option::Some(rest))
    } else {
        proof {
            assert forall|o: Option<Seq<char>>| part@ != enc_opt(o) by {
                match o {
                    Option::None => assert(enc_opt(o)[0] == 'N'),
                    Option::Some(x) => assert(enc_opt(o)[0] == 'S'),
                }
            }
        }
        Option::None
    }
}

fn parse_bool(part: &String) -> (r: Option<bool>)
    ensures
        match r {
            Option::Some(b) => part@ == enc_bool(b),
            Option::None => forall|b: bool| part@ != enc_bool(b),
        },
{
    let len = part.as_str().unicode_len();
    if len == 1 {
        let c0 = part.as_str().get_char(0);
        if c0 == 'T' {
            proof { assert(part@ =~= enc_bool(true)); }
            return Option::Some(true);
        }
        if c0 == 'F' {
            proof { assert(part@ =~= enc_bool(false)); }
            return Option::Some(false);
        }
    }
    proof {
        assert(enc_bool(true).len() == 1 && enc_bool(true)[0] == 'T');
        assert(enc_bool(false).len() == 1 && enc_bool(false)[0] == 'F');
    }
    Option::None
}

fn parse_status(part: &String) -> (r: Option<RefundStatus>)
    ensures
        match r {
            Option::Some(st) => part@ == seq![status_char(st)],
            Option::None => forall|st: RefundStatus| part@ != seq![status_char(st)],
        },
{
    let len = part.as_str().unicode_len();
    if len == 1 {
        let c0 = part.as_str().get_char(0);
        if c0 == 'F' {
            proof { assert(part@ =~= seq![status_char(RefundStatus::Failure)]); }
            return Option::Some(RefundStatus::Failure);
        }
        if c0 == 'M' {
            proof { assert(part@ =~= seq![status_char(RefundStatus::ManualReview)]); }
            return Option::Some(RefundStatus::ManualReview);
        }
        if c0 == 'P' {
            proof { assert(part@ =~= seq![status_char(RefundStatus::Pending)]); }
            return Option::Some(RefundStatus::Pending);
        }
        if c0 == 'S' {
            proof { assert(part@ =~= seq![status_char(RefundStatus::Success)]); }
            return Option::Some(RefundStatus::Success);
        }
        if c0 == 'X' {
            proof { assert(part@ =~= seq![status_char(RefundStatus::TransactionFailure)]); }
            return Option::Some(RefundStatus::TransactionFailure);
        }
    }
    proof {
        assert forall|st: RefundStatus| part@ != seq![status_char(st)] by {
            assert(seq![status_char(st)].len() == 1);
            assert(seq![status_char(st)][0] == status_char(st));
        }
    }
    Option::None
}

fn parse_currency(part: &String) -> (r: Option<Currency>)
    ensures
        match r {
            Option::Some(c) => part@ == seq![currency_char(c)],
            Option::None => forall|c: Currency| part@ != seq![currency_char(c)],
        },
{
    let len = part.as_str().unicode_len();
    if len == 1 {
        let c0 = part.as_str().get_char(0);
        if c0 == 'E' {
            proof { assert(part@ =~= seq![currency_char(Currency::Eur)]); }
            return Option::Some(Currency::Eur);
        }
        if c0 == 'G' {
            proof { assert(part@ =~= seq![currency_char(Currency::Gbp)]); }
            return Option::Some(Currency::Gbp);
        }
        if c0 == 'I' {
            proof { assert(part@ =~= seq![currency_char(Currency::Inr)]); }
            return Option::Some(Currency::Inr);
        }
        if c0 == 'D' {
            proof { assert(part@ =~= seq![currency_char(Currency::Sgd)]); }
            return Option::Some(Currency::Sgd);
        }
        if c0 == 'U' {
            proof { assert(part@ =~= seq![currency_char(Currency::Usd)]); }
            return Option::Some(Currency::Usd);
        }
    }
    proof {
        assert forall|c: Currency| part@ != seq![currency_char(c)] by {
            assert(seq![currency_char(c)].len() == 1);
            assert(seq![currency_char(c)][0] == currency_char(c));
        }
    }
    Option::None
}

/// The chosen witness of a decodable payload has exactly the split fields.
proof fn lemma_decode_parts(s: Seq<char>, parts: Seq<Seq<char>>)
    requires
        all_sep_free(parts),
        spec_join(parts) == s,
        exists|v: RefundV| codec_wf(v) && spec_encode(v) == s,
    ensures
        parts == field_parts(choose|v: RefundV| codec_wf(v) && spec_encode(v) == s),
{
    let v = choose|v: RefundV| codec_wf(v) && spec_encode(v) == s;
    lemma_field_parts_sep_free(v);
    lemma_join_injective(field_parts(v), parts);
}

/// Ghost image of a decode result.
pub open spec fn decoded_view(r: Option<Refund>) -> Option<RefundV> {
    match r {
        Option::Some(x) => Option::Some(x@),
        Option::None => Option::None,
    }
}

/// Decodes a payload; succeeds exactly on payloads some valid record encodes
/// to, and then returns that record.
pub fn decode_refund(s: &str) -> (r: Option<Refund>)
    ensures
        decoded_view(r) == spec_decode(s@),
{
    let parts_opt = split_fields(s);
    let parts = match parts_opt {
        Option::Some(p) => p,
        Option::None => {
            proof {
                if exists|v: RefundV| codec_wf(v) && spec_encode(v) == s@ {
                    let v = choose|v: RefundV| codec_wf(v) && spec_encode(v) == s@;
                    lemma_field_parts_sep_free(v);
                }
            }
            return Option::None;
        },
    };
    if parts.len() != 15 {
        proof {
            if exists|v: RefundV| codec_wf(v) && spec_encode(v) == s@ {
                lemma_decode_parts(s@, strs_view(parts@));
            }
        }
        return Option::None;
    }
    let id = match parse_i64(&parts[0]) {
        Option::Some(n) => n,
        Option::None => {
            proof {
                if exists|v: RefundV| codec_wf(v) && spec_encode(v) == s@ {
                    let v = choose|v: RefundV| codec_wf(v) && spec_encode(v) == s@;
                    lemma_decode_parts(s@, strs_view(parts@));
                    assert(strs_view(parts@)[0] == parts@[0]@);
                    assert(field_parts(v)[0] == dec_rep(v.id as nat));
                    assert(parts@[0]@ == dec_rep(v.id as nat));
                    assert(parts@[0]@ == dec_rep((v.id as i64) as nat));
                    assert(false);
                }
            }
            return Option::None;
        },
    };
    let pg_refund_id = match parse_opt(&parts[6]) {
        Option::Some(o) => o,
        Option::None => {
            proof {
                if exists|v: RefundV| codec_wf(v) && spec_encode(v) == s@ {
                    let v = choose|v: RefundV| codec_wf(v) && spec_encode(v) == s@;
                    lemma_decode_parts(s@, strs_view(parts@));
                    assert(strs_view(parts@)[6] == parts@[6]@);
                    assert(field_parts(v)[6] == enc_opt(v.pg_refund_id));
                    assert(parts@[6]@ == enc_opt(v.pg_refund_id));
                    assert(false);
                }
            }
            return Option::None;
        },
    };
    let total_amount = match parse_i64(&parts[7]) {
        Option::Some(n) => n,
        Option::None => {
            proof {
                if exists|v: RefundV| codec_wf(v) && spec_encode(v) == s@ {
                    let v = choose|v: RefundV| codec_wf(v) && spec_encode(v) == s@;
                    lemma_decode_parts(s@, strs_view(parts@));
                    assert(strs_view(parts@)[7] == parts@[7]@);
                    assert(field_parts(v)[7] == dec_rep(v.total_amount as nat));
                    assert(parts@[7]@ == dec_rep((v.total_amount as i64) as nat));
                    assert(false);
                }
            }
            return Option::None;
        },
    };
    let currency = match parse_currency(&parts[8]) {
        Option::Some(c) => c,
        Option::None => {
            proof {
                if exists|v: RefundV| codec_wf(v) && spec_encode(v) == s@ {
                    let v = choose|v: RefundV| codec_wf(v) && spec_encode(v) == s@;
                    lemma_decode_parts(s@, strs_view(parts@));
                    assert(strs_view(parts@)[8] == parts@[8]@);
                    assert(field_parts(v)[8] == seq![currency_char(v.currency)]);
                    assert(parts@[8]@ == seq![currency_char(v.currency)]);
                    assert(false);
                }
            }
            return Option::None;
        },
    };
    let refund_amount = match parse_i64(&parts[9]) {
        Option::Some(n) => n,
        Option::None => {
            proof {
                if exists|v: RefundV| codec_wf(v) && spec_encode(v) == s@ {
                    let v = choose|v: RefundV| codec_wf(v) && spec_encode(v) == s@;
                    lemma_decode_parts(s@, strs_view(parts@));
                    assert(strs_view(parts@)[9] == parts@[9]@);
                    assert(field_parts(v)[9] == dec_rep(v.refund_amount as nat));
                    assert(parts@[9]@ == dec_rep((v.refund_amount as i64) as nat));
                    assert(false);
                }
            }
            return Option::None;
        },
    };
    let refund_status = match parse_status(&parts[10]) {
        Option::Some(st) => st,
        Option::None => {
            proof {
                if exists|v: RefundV| codec_wf(v) && spec_encode(v) == s@ {
                    let v = choose|v: RefundV| codec_wf(v) && spec_encode(v) == s@;
                    lemma_decode_parts(s@, strs_view(parts@));
                    assert(strs_view(parts@)[10] == parts@[10]@);
                    assert(field_parts(v)[10] == seq![status_char(v.refund_status)]);
                    assert(parts@[10]@ == seq![status_char(v.refund_status)]);
                    assert(false);
                }
            }
            return Option::None;
        },
    };
    let sent_to_gateway = match parse_bool(&parts[11]) {
        Option::Some(b) => b,
        Option::None => {
            proof {
                if exists|v: RefundV| codec_wf(v) && spec_encode(v) == s@ {
                    let v = choose|v: RefundV| codec_wf(v) && spec_encode(v) == s@;
                    lemma_decode_parts(s@, strs_view(parts@));
                    assert(strs_view(parts@)[11] == parts@[11]@);
                    assert(field_parts(v)[11] == enc_bool(v.sent_to_gateway));
                    assert(parts@[11]@ == enc_bool(v.sent_to_gateway));
                    assert(false);
                }
            }
            return Option::None;
        },
    };
    let refund_error_message = match parse_opt(&parts[12]) {
        Option::Some(o) => o,
        Option::None => {
            proof {
                if exists|v: RefundV| codec_wf(v) && spec_encode(v) == s@ {
                    let v = choose|v: RefundV| codec_wf(v) && spec_encode(v) == s@;
                    lemma_decode_parts(s@, strs_view(parts@));
                    assert(strs_view(parts@)[12] == parts@[12]@);
                    assert(field_parts(v)[12] == enc_opt(v.refund_error_message));
                    assert(parts@[12]@ == enc_opt(v.refund_error_message));
                    assert(false);
                }
            }
            return Option::None;
        },
    };
    let created_at = match parse_i64(&parts[13]) {
        Option::Some(n) => n,
        Option::None => {
            proof {
                if exists|v: RefundV| codec_wf(v) && spec_encode(v) == s@ {
                    let v = choose|v: RefundV| codec_wf(v) && spec_encode(v) == s@;
                    lemma_decode_parts(s@, strs_view(parts@));
                    assert(strs_view(parts@)[13] == parts@[13]@);
                    assert(field_parts(v)[13] == dec_rep(v.created_at as nat));
                    assert(parts@[13]@ == dec_rep((v.created_at as i64) as nat));
                    assert(false);
                }
            }
            return Option::None;
        },
    };
    let updated_at = match parse_i64(&parts[14]) {
        Option::Some(n) => n,
        Option::None => {
            proof {
                if exists|v: RefundV| codec_wf(v) && spec_encode(v) == s@ {
                    let v = choose|v: RefundV| codec_wf(v) && spec_encode(v) == s@;
                    lemma_decode_parts(s@, strs_view(parts@));
                    assert(strs_view(parts@)[14] == parts@[14]@);
                    assert(field_parts(v)[14] == dec_rep(v.updated_at as nat));
                    assert(parts@[14]@ == dec_rep((v.updated_at as i64) as nat));
                    assert(false);
                }
            }
            return Option::None;
        },
    };
    let x = Refund {
        id,
        refund_id: parts[1].clone(),
        merchant_id: parts[2].clone(),
        internal_reference_id: parts[3].clone(),
        payment_id: parts[4].clone(),
        transaction_id: parts[5].clone(),
        pg_refund_id,
        total_amount,
        currency,
        refund_amount,
        refund_status,
        sent_to_gateway,
        refund_error_message,
        created_at,
        updated_at,
    };
    proof {
        let w = x@;
        assert(field_parts(w) =~= strs_view(parts@)) by {
            assert(strs_view(parts@).len() == 15);
            assert(field_parts(w)[0] == strs_view(parts@)[0]);
            assert(field_parts(w)[1] == strs_view(parts@)[1]);
            assert(field_parts(w)[2] == strs_view(parts@)[2]);
            assert(field_parts(w)[3] == strs_view(parts@)[3]);
            assert(field_parts(w)[4] == strs_view(parts@)[4]);
            assert(field_parts(w)[5] == strs_view(parts@)[5]);
            assert(field_parts(w)[6] == strs_view(parts@)[6]);
            assert(field_parts(w)[7] == strs_view(parts@)[7]);
            assert(field_parts(w)[8] == strs_view(parts@)[8]);
            assert(field_parts(w)[9] == strs_view(parts@)[9]);
            assert(field_parts(w)[10] == strs_view(parts@)[10]);
            assert(field_parts(w)[11] == strs_view(parts@)[11]);
            assert(field_parts(w)[12] == strs_view(parts@)[12]);
            assert(field_parts(w)[13] == strs_view(parts@)[13]);
            assert(field_parts(w)[14] == strs_view(parts@)[14]);
        }
        assert(spec_encode(w) == s@);
        assert(codec_wf(w)) by {
            assert(sep_free(strs_view(parts@)[1]));
            assert(sep_free(strs_view(parts@)[2]));
            assert(sep_free(strs_view(parts@)[3]));
            assert(sep_free(strs_view(parts@)[4]));
            assert(sep_free(strs_view(parts@)[5]));
            assert(sep_free(strs_view(parts@)[6]));
            assert(sep_free(strs_view(parts@)[12]));
            match w.pg_refund_id {
                Option::Some(c) => {
                    assert forall|i: int| 0 <= i < c.len() implies c[i] != '|' by {
                        assert((seq!['S'] + c)[i + 1] == c[i]);
                    }
                },
                Option::None => {},
            }
            match w.refund_error_message {
                Option::Some(c) => {
                    assert forall|i: int| 0 <= i < c.len() implies c[i] != '|' by {
                        assert((seq!['S'] + c)[i + 1] == c[i]);
                    }
                },
                Option::None => {},
            }
        }
        let u = choose|v: RefundV| codec_wf(v) && spec_encode(v) == s@;
        lemma_encode_injective(u, w);
    }
    Option::Some(x)
}

} // verus!

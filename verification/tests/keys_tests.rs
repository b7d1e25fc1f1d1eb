use refund_store::keys::{drainer_stream_name, field_name, first_seg, lookup_id, shard_key, str_eq};

#[test]
fn shard_key_joins_payment_and_merchant() {
    assert_eq!(shard_key("p1", "m1"), "p1_m1");
}

#[test]
fn field_name_embeds_payment_and_refund() {
    assert_eq!(field_name("p1", "r1"), "pa_p1_ref_r1");
}

#[test]
fn lookup_id_joins_id_and_merchant() {
    assert_eq!(lookup_id("r1", "m1"), "r1_m1");
    assert_eq!(lookup_id("t1", "m1"), "t1_m1");
}

#[test]
fn first_seg_takes_prefix_before_underscore() {
    assert_eq!(first_seg("p1_m1"), "p1");
    assert_eq!(first_seg("abc"), "abc");
    assert_eq!(first_seg("_x"), "");
}

#[test]
fn drainer_stream_name_is_deterministic() {
    let a = drainer_stream_name("p1_m1", 4);
    let b = drainer_stream_name("p1_m1", 4);
    assert_eq!(a, b);
    assert!(a.starts_with("drainer_stream_"));
    let suffix: u64 = a["drainer_stream_".len()..].parse().expect("digits");
    assert!(suffix < 4);
}

#[test]
fn str_eq_compares_by_characters() {
    assert!(str_eq("abc", "abc"));
    assert!(!str_eq("abc", "abd"));
    assert!(!str_eq("abc", "ab"));
    assert!(str_eq("", ""));
}

use refund_store::codec::{decode_refund, encode_refund, u64_dec};
use refund_store::types::{Currency, Refund, RefundStatus};

fn sample_refund() -> Refund {
    Refund {
        id: 0,
        refund_id: "r1".to_string(),
        merchant_id: "m1".to_string(),
        internal_reference_id: "ir1".to_string(),
        payment_id: "p1".to_string(),
        transaction_id: "t1".to_string(),
        pg_refund_id: None,
        total_amount: 500,
        currency: Currency::Usd,
        refund_amount: 500,
        refund_status: RefundStatus::Pending,
        sent_to_gateway: false,
        refund_error_message: None,
        created_at: 1000,
        updated_at: 1000,
    }
}

#[test]
fn encode_has_exact_format() {
    let payload = encode_refund(&sample_refund());
    assert_eq!(payload, "0|r1|m1|ir1|p1|t1|N|500|U|500|P|F|N|1000|1000|");
}

#[test]
fn encode_decode_round_trip() {
    let r = sample_refund();
    let payload = encode_refund(&r);
    let back = decode_refund(payload.as_str()).expect("decodes");
    assert_eq!(back, r);
}

#[test]
fn encode_decode_round_trip_with_options() {
    let mut r = sample_refund();
    r.pg_refund_id = Some("pg_77".to_string());
    r.refund_error_message = Some("card declined".to_string());
    r.refund_status = RefundStatus::Failure;
    r.sent_to_gateway = true;
    r.currency = Currency::Eur;
    r.id = 42;
    let payload = encode_refund(&r);
    let back = decode_refund(payload.as_str()).expect("decodes");
    assert_eq!(back, r);
}

#[test]
fn decode_rejects_malformed() {
    assert!(decode_refund("").is_none());
    assert!(decode_refund("garbage").is_none());
    assert!(decode_refund("0|r1|m1").is_none());
    // no trailing terminator
    assert!(decode_refund("0|r1|m1|ir1|p1|t1|N|500|U|500|P|F|N|1000|1000").is_none());
    // bad currency tag
    assert!(decode_refund("0|r1|m1|ir1|p1|t1|N|500|Z|500|P|F|N|1000|1000|").is_none());
    // bad option tag
    assert!(decode_refund("0|r1|m1|ir1|p1|t1|Q|500|U|500|P|F|N|1000|1000|").is_none());
    // non-digit amount
    assert!(decode_refund("0|r1|m1|ir1|p1|t1|N|5x0|U|500|P|F|N|1000|1000|").is_none());
}

#[test]
fn decode_rejects_non_canonical_numbers() {
    // leading zero is not the canonical decimal form
    assert!(decode_refund("00|r1|m1|ir1|p1|t1|N|500|U|500|P|F|N|1000|1000|").is_none());
    assert!(decode_refund("0|r1|m1|ir1|p1|t1|N|0500|U|500|P|F|N|1000|1000|").is_none());
    // out of range for the amount field
    assert!(
        decode_refund("0|r1|m1|ir1|p1|t1|N|99999999999999999999|U|500|P|F|N|1000|1000|")
            .is_none()
    );
}

#[test]
fn decimal_rendering_is_canonical() {
    assert_eq!(u64_dec(0), "0");
    assert_eq!(u64_dec(7), "7");
    assert_eq!(u64_dec(1234567890), "1234567890");
    assert_eq!(u64_dec(u64::MAX), "18446744073709551615");
}

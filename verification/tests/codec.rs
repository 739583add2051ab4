use hoops_app::amount::{encode_amount, parse_amount, Amount};
use hoops_app::ids::{encode_id, fresh_id, parse_id, TransactionId};
use hoops_app::timestamp::{encode_ts, parse_ts, Timestamp};

fn ts(
    year: u16,
    month: u8,
    day: u8,
    hour: u8,
    minute: u8,
    second: u8,
) -> Timestamp {
    Timestamp::new(year, month, day, hour, minute, second).unwrap()
}

#[test]
fn id_encodes_canonically() {
    let id = TransactionId(0x550e8400e29b41d4a716446655440000);
    assert_eq!(
        encode_id(id),
        "550e8400-e29b-41d4-a716-446655440000"
    );
}

#[test]
fn id_encoding_matches_uuid_crate() {
    for x in [
        0u128,
        1,
        0x550e8400e29b41d4a716446655440000,
        u128::MAX,
        0x00000000000000000000000000000fff,
    ] {
        let ours = encode_id(TransactionId(x));
        let theirs = uuid::Uuid::from_u128(x).hyphenated().to_string();
        assert_eq!(ours, theirs);
        assert_eq!(parse_id(&ours), Some(TransactionId(x)));
        assert_eq!(uuid::Uuid::parse_str(&ours).unwrap().as_u128(), x);
    }
}

#[test]
fn id_round_trips_for_fresh_ids() {
    for _ in 0..32 {
        let id = fresh_id();
        let s = encode_id(id);
        assert_eq!(s.len(), 36);
        // a version-4 identifier: the version nibble is 4
        assert_eq!(s.as_bytes()[14], b'4');
        assert_eq!(parse_id(&s), Some(id));
    }
}

#[test]
fn id_parse_accepts_uppercase_and_rejects_malformed() {
    let id = parse_id("550E8400-E29B-41D4-A716-446655440000").unwrap();
    assert_eq!(id, TransactionId(0x550e8400e29b41d4a716446655440000));
    assert_eq!(parse_id("not-a-uuid"), None);
    assert_eq!(parse_id(""), None);
    assert_eq!(parse_id("550e8400e29b41d4a716446655440000"), None);
    assert_eq!(parse_id("550e8400-e29b-41d4-a716-44665544000g"), None);
    assert_eq!(parse_id("550e8400+e29b-41d4-a716-446655440000"), None);
}

#[test]
fn amount_encodes_exactly() {
    let cases: [(bool, u128, u32, &str); 8] = [
        (false, 0, 0, "0"),
        (false, 5, 2, "0.05"),
        (false, 5, 1, "0.5"),
        (true, 5, 1, "-0.5"),
        (false, 110, 2, "1.10"),
        (false, 19999999999, 9, "19.999999999"),
        (false, 123456, 0, "123456"),
        (true, 1, 28, "-0.0000000000000000000000000001"),
    ];
    for (negative, mantissa, scale, expected) in cases {
        let a = Amount { negative, mantissa, scale };
        assert_eq!(encode_amount(&a), expected);
        assert_eq!(parse_amount(expected), Some(a));
    }
}

#[test]
fn amount_encoding_matches_rust_decimal() {
    let cases: [(i128, u32); 6] = [
        (0, 0),
        (5, 2),
        (-5, 1),
        (110, 2),
        (19999999999, 9),
        (79228162514264337593543950335, 0),
    ];
    for (m, scale) in cases {
        let d = rust_decimal::Decimal::from_i128_with_scale(m, scale);
        let a = Amount {
            negative: m < 0,
            mantissa: m.unsigned_abs(),
            scale,
        };
        assert_eq!(encode_amount(&a), d.to_string());
    }
}

#[test]
fn amount_parsing_matches_rust_decimal() {
    for s in ["19.999999999", "0.05", "-3.14", "42", "1.10"] {
        let ours = parse_amount(s).unwrap();
        let theirs = rust_decimal::Decimal::from_str_exact(s).unwrap();
        assert_eq!(ours.mantissa, theirs.mantissa().unsigned_abs());
        assert_eq!(ours.scale, theirs.scale());
        assert_eq!(ours.negative, theirs.is_sign_negative());
    }
}

#[test]
fn amount_rejects_malformed_and_overflow() {
    assert_eq!(parse_amount(""), None);
    assert_eq!(parse_amount("-"), None);
    assert_eq!(parse_amount("."), None);
    assert_eq!(parse_amount("1."), None);
    assert_eq!(parse_amount(".5"), None);
    assert_eq!(parse_amount("12a"), None);
    assert_eq!(parse_amount("1.2.3"), None);
    // more fractional digits than the largest scale
    assert_eq!(parse_amount("0.00000000000000000000000000001"), None);
    // the mantissa no longer fits in 96 bits
    assert_eq!(parse_amount("79228162514264337593543950336"), None);
    assert!(parse_amount("79228162514264337593543950335").is_some());
    assert!(rust_decimal::Decimal::from_str_exact("79228162514264337593543950336").is_err());
}

#[test]
fn amount_constructors_enforce_bounds() {
    assert!(Amount::from_scaled(false, 1 << 96, 0).is_none());
    assert!(Amount::from_scaled(false, 1, 29).is_none());
    let a = Amount::from_integer(true, 7);
    assert_eq!(encode_amount(&a), "-7");
}

#[test]
fn timestamp_encodes_as_rfc3339_at_utc() {
    let t = ts(2023, 10, 9, 12, 34, 56);
    assert_eq!(encode_ts(&t), "2023-10-09T12:34:56+00:00");
    assert_eq!(parse_ts("2023-10-09T12:34:56+00:00"), Some(t));
    assert_eq!(parse_ts("2023-10-09T12:34:56Z"), Some(t));
    assert_eq!(parse_ts("2023-10-09t12:34:56z"), Some(t));
}

#[test]
fn timestamp_encoding_matches_chrono() {
    let cases: [(u16, u8, u8, u8, u8, u8); 4] = [
        (2023, 10, 9, 12, 34, 56),
        (2024, 2, 29, 0, 0, 0),
        (1970, 1, 1, 0, 0, 0),
        (9999, 12, 31, 23, 59, 59),
    ];
    for (y, mo, d, h, mi, s) in cases {
        let ours = encode_ts(&ts(y, mo, d, h, mi, s));
        let theirs = chrono::NaiveDate::from_ymd_opt(y as i32, mo as u32, d as u32)
            .unwrap()
            .and_hms_opt(h as u32, mi as u32, s as u32)
            .unwrap()
            .and_utc()
            .to_rfc3339();
        assert_eq!(ours, theirs);
        let parsed = chrono::DateTime::parse_from_rfc3339(&ours).unwrap();
        assert_eq!(parsed.timestamp(), theirs.parse::<chrono::DateTime<chrono::Utc>>().unwrap().timestamp());
    }
}

#[test]
fn timestamp_rejects_impossible_dates() {
    assert_eq!(parse_ts("2023-02-29T00:00:00Z"), None);
    assert!(parse_ts("2024-02-29T00:00:00Z").is_some());
    assert_eq!(parse_ts("2100-02-29T00:00:00Z"), None);
    assert!(parse_ts("2000-02-29T00:00:00Z").is_some());
    assert_eq!(parse_ts("2023-13-01T00:00:00Z"), None);
    assert_eq!(parse_ts("2023-00-01T00:00:00Z"), None);
    assert_eq!(parse_ts("2023-04-31T00:00:00Z"), None);
    assert_eq!(parse_ts("2023-01-01T24:00:00Z"), None);
    assert_eq!(parse_ts("2023-01-01T00:60:00Z"), None);
    assert_eq!(parse_ts("2023-01-01T00:00:60Z"), None);
    assert_eq!(parse_ts("2023-01-01T00:00:00+01:00"), None);
    assert_eq!(parse_ts("2023-01-01T00:00:00"), None);
    assert_eq!(parse_ts("2023-01-01 00:00:00Z"), Some(ts(2023, 1, 1, 0, 0, 0)));
    assert_eq!(parse_ts("garbage"), None);
    assert_eq!(Timestamp::new(2023, 2, 29, 0, 0, 0), None);
}

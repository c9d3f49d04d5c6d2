use player_store::codec::{decode_timestamp, decode_u64, encode_timestamp, encode_u64,
    parse_prefixed, push_prefixed, read_prefixed_string, u64_to_dec, write_prefixed_string,
    Timestamp};
use player_store::errors::StorageError;

fn ts(year: u16, month: u8, day: u8, hour: u8, minute: u8, second: u8) -> Timestamp {
    Timestamp { year, month, day, hour, minute, second }
}

#[test]
fn u64_codec_round_trips() {
    for n in [0u64, 1, 255, 256, 0x0102030405060708, u64::MAX] {
        let bytes = encode_u64(n);
        assert_eq!(bytes.len(), 8);
        assert_eq!(decode_u64(&bytes), Ok(n));
    }
    assert_eq!(encode_u64(1), vec![0, 0, 0, 0, 0, 0, 0, 1]);
}

#[test]
fn u64_decode_rejects_short_input() {
    assert_eq!(decode_u64(&[1, 2, 3]), Err(StorageError::CorruptData));
    assert_eq!(decode_u64(&[]), Err(StorageError::CorruptData));
}

#[test]
fn timestamp_codec_round_trips() {
    let t = ts(2024, 2, 29, 23, 59, 59);
    let bytes = encode_timestamp(t);
    assert_eq!(bytes.len(), 7);
    assert_eq!(decode_timestamp(&bytes), Ok(t));
    let t2 = ts(1999, 12, 31, 0, 0, 0);
    assert_eq!(decode_timestamp(&encode_timestamp(t2)), Ok(t2));
}

#[test]
fn timestamp_decode_rejects_short_input() {
    assert_eq!(decode_timestamp(&[0, 0, 1, 1, 0, 0]), Err(StorageError::CorruptData));
    assert_eq!(decode_timestamp(&[]), Err(StorageError::CorruptData));
}

#[test]
fn timestamp_decode_rejects_bad_calendar() {
    // month 13
    let bad = vec![0x07u8, 0xE8, 13, 1, 0, 0, 0];
    assert_eq!(decode_timestamp(&bad), Err(StorageError::CorruptData));
    // February 29 of a non-leap year
    let feb29 = encode_timestamp(ts(2023, 2, 29, 0, 0, 0));
    assert_eq!(decode_timestamp(&feb29), Err(StorageError::CorruptData));
}

#[test]
fn timestamp_new_checks_validity() {
    assert!(Timestamp::new(2024, 2, 29, 0, 0, 0).is_some());
    assert!(Timestamp::new(2023, 2, 29, 0, 0, 0).is_none());
    assert!(Timestamp::new(2023, 13, 1, 0, 0, 0).is_none());
    assert!(Timestamp::new(2023, 6, 1, 24, 0, 0).is_none());
}

#[test]
fn prefixed_bytes_round_trip() {
    let mut out: Vec<u8> = Vec::new();
    assert!(push_prefixed(&mut out, b"hello"));
    assert_eq!(out, vec![0, 5, b'h', b'e', b'l', b'l', b'o']);
    let parsed = parse_prefixed(&out, 0).unwrap();
    assert_eq!(parsed.0, b"hello".to_vec());
    assert_eq!(parsed.1, 7);
    assert!(parse_prefixed(&out[..6], 0).is_none());
}

#[test]
fn prefixed_string_round_trip() {
    let mut out: Vec<u8> = Vec::new();
    write_prefixed_string("salut", &mut out).unwrap();
    let (s, end) = read_prefixed_string(&out, 0).unwrap();
    assert_eq!(s, "salut");
    assert_eq!(end, out.len());
}

#[test]
fn prefixed_string_caps_length() {
    let long = "x".repeat(1025);
    let mut out: Vec<u8> = Vec::new();
    let err = write_prefixed_string(&long, &mut out).unwrap_err();
    assert_eq!(*err.get_status(), 400);
    assert!(out.is_empty());
}

#[test]
fn decimal_rendering() {
    assert_eq!(u64_to_dec(0), "0");
    assert_eq!(u64_to_dec(7), "7");
    assert_eq!(u64_to_dec(1234567890), "1234567890");
    assert_eq!(u64_to_dec(u64::MAX), "18446744073709551615");
}

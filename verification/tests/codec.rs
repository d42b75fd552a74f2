use pgbackuproll::codec::decode;
use pgbackuproll::codec::encode;
use pgbackuproll::timestamp::Timestamp;

fn ts(year: u32, month: u32, day: u32, hour: u32, minute: u32, second: u32) -> Timestamp {
    Timestamp::new(year, month, day, hour, minute, second).unwrap()
}

#[test]
fn encode_uncompressed_exact() {
    assert_eq!(encode(&ts(2024, 1, 2, 3, 4, 5), false), "2024-01-02_03-04-05.sql");
}

#[test]
fn encode_compressed_exact() {
    assert_eq!(encode(&ts(1999, 12, 31, 23, 59, 59), true), "1999-12-31_23-59-59.sql.gz");
}

#[test]
fn decode_uncompressed_exact() {
    let (t, compressed) = decode("2021-06-07_08-09-10.sql").unwrap();
    assert_eq!(t, ts(2021, 6, 7, 8, 9, 10));
    assert!(!compressed);
}

#[test]
fn decode_compressed_exact() {
    let (t, compressed) = decode("2021-06-07_08-09-10.sql.gz").unwrap();
    assert_eq!(t, ts(2021, 6, 7, 8, 9, 10));
    assert!(compressed);
}

#[test]
fn round_trip_uncompressed() {
    let t = ts(2024, 2, 29, 23, 59, 59);
    let (back, compressed) = decode(encode(&t, false).as_str()).unwrap();
    assert_eq!(back, t);
    assert!(!compressed);
}

#[test]
fn round_trip_compressed() {
    let t = ts(1, 1, 1, 0, 0, 0);
    let (back, compressed) = decode(encode(&t, true).as_str()).unwrap();
    assert_eq!(back, t);
    assert!(compressed);
}

#[test]
fn decode_rejects_bad_calendar_fields() {
    assert!(decode("2024-13-01_00-00-00.sql").is_err());
    assert!(decode("2024-00-01_00-00-00.sql").is_err());
    assert!(decode("2024-02-30_00-00-00.sql").is_err());
    assert!(decode("2023-02-29_00-00-00.sql").is_err());
    assert!(decode("1900-02-29_00-00-00.sql").is_err());
    assert!(decode("2024-04-31_00-00-00.sql").is_err());
    assert!(decode("2024-01-00_00-00-00.sql").is_err());
    assert!(decode("2024-01-01_24-00-00.sql").is_err());
    assert!(decode("2024-01-01_00-60-00.sql").is_err());
    assert!(decode("2024-01-01_00-00-60.sql").is_err());
}

#[test]
fn decode_accepts_century_leap_day() {
    let (t, compressed) = decode("2000-02-29_12-00-00.sql").unwrap();
    assert_eq!(t, ts(2000, 2, 29, 12, 0, 0));
    assert!(!compressed);
}

#[test]
fn decode_rejects_bad_shape() {
    assert!(decode("").is_err());
    assert!(decode("backup.sql").is_err());
    assert!(decode("2024-01-02_03-04-05.txt").is_err());
    assert!(decode("2024-01-02_03-04-05.gz").is_err());
    assert!(decode("2024-01-02_03-04-05.sql.bz").is_err());
    assert!(decode("2024-01-02 03-04-05.sql").is_err());
    assert!(decode("2024-01-02_03:04:05.sql").is_err());
    assert!(decode("2024-01-02_03-04-0x.sql").is_err());
    assert!(decode("x024-01-02_03-04-05.sql").is_err());
    assert!(decode("2024-01-02_03-04-05.sql ").is_err());
    assert!(decode(" 2024-01-02_03-04-05.sql").is_err());
    assert!(decode("2024-01-02_03-04-05.sqlgz").is_err());
}

#[test]
fn timestamp_new_rejects_invalid() {
    assert!(Timestamp::new(10000, 1, 1, 0, 0, 0).is_none());
    assert!(Timestamp::new(2024, 2, 30, 0, 0, 0).is_none());
    assert!(Timestamp::new(2024, 1, 1, 0, 0, 60).is_none());
    assert!(Timestamp::new(2024, 1, 1, 24, 0, 0).is_none());
    assert!(Timestamp::new(0, 1, 1, 0, 0, 0).is_some());
}

#[test]
fn seconds_since_year_zero() {
    // 719528 days lie before 1970-01-01 in the proleptic Gregorian
    // calendar counted from year 0.
    assert_eq!(ts(1970, 1, 1, 0, 0, 0).to_secs(), 719528 * 86400);
    assert_eq!(ts(0, 1, 1, 0, 0, 0).to_secs(), 0);
    assert_eq!(ts(0, 1, 1, 0, 0, 1).to_secs(), 1);
}

#[test]
fn seconds_span_leap_boundary() {
    let leap = ts(2024, 3, 1, 0, 0, 0).to_secs() - ts(2024, 2, 28, 0, 0, 0).to_secs();
    assert_eq!(leap, 2 * 86400);
    let plain = ts(2023, 3, 1, 0, 0, 0).to_secs() - ts(2023, 2, 28, 0, 0, 0).to_secs();
    assert_eq!(plain, 86400);
}

use note_lsm::note::{DecodeError, Note};
use note_lsm::{RecordId, Zone, ZonedTimestamp};

fn hex(s: &str) -> Vec<u8> {
    let digits: Vec<u8> = s.bytes().filter(|c| !c.is_ascii_whitespace()).collect();
    digits
        .chunks(2)
        .map(|p| u8::from_str_radix(std::str::from_utf8(p).unwrap(), 16).unwrap())
        .collect()
}

fn id(s: &str) -> RecordId {
    RecordId(uuid::Uuid::parse_str(s).unwrap().as_u128())
}

fn zoned(z: &jiff::Zoned) -> ZonedTimestamp {
    let ts = z.timestamp();
    let zone = match z.time_zone().iana_name() {
        Some(name) => Zone::Named(name.to_string()),
        None => Zone::Fixed(z.offset().seconds() / 60),
    };
    ZonedTimestamp::from_parts(ts.as_second(), ts.subsec_nanosecond(), zone)
}

fn paris(y: i16, mo: i8, d: i8, h: i8, mi: i8, s: i8) -> ZonedTimestamp {
    let tz = jiff::tz::TimeZone::get("Europe/Paris").unwrap();
    zoned(&jiff::civil::datetime(y, mo, d, h, mi, s, 0).to_zoned(tz).unwrap())
}

const CHILDREN_HEX: &str = "83
    d8 25 50 b7d8ac794e914af8b1646e14212531a8
    d8 25 50 4692437180e241ab85acc44d9cb90d81
    d8 25 50 3965e843d386424d9c32f5d0d4234641";

fn three_children() -> Vec<RecordId> {
    vec![
        id("b7d8ac79-4e91-4af8-b164-6e14212531a8"),
        id("46924371-80e2-41ab-85ac-c44d9cb90d81"),
        id("3965e843-d386-424d-9c32-f5d0d4234641"),
    ]
}

fn note_with(seconds: i64, nanos: u32, zone: Zone, children: Vec<RecordId>) -> Note {
    Note {
        note: "Hello world".to_string(),
        datetime: ZonedTimestamp { seconds, nanos, zone },
        children,
    }
}

fn round_trips(n: &Note) {
    assert!(n.is_valid());
    let buf = n.ser_v0_to_vec();
    assert_eq!(Note::deser_v0(&buf).unwrap(), *n);
    assert_eq!(Note::parse_v0(&buf).unwrap(), *n);
}

#[test]
fn ser_deser1() {
    let note = Note {
        note: "This is my note".to_owned(),
        datetime: paris(2024, 11, 9, 12, 19, 22),
        children: three_children(),
    };

    let buf = note.ser_v0_to_vec();
    let note2 = Note::deser_v0(&buf).unwrap();
    assert_eq!(note, note2);

    let expected = format!(
        "83 6f 54686973206973206d79206e6f7465
         d9 03e9 a3 01 1a 672f453a 28 00 0a 6c 4575726f70652f5061726973
         {CHILDREN_HEX}"
    );
    assert_eq!(buf, hex(&expected));
}

#[test]
fn ser_deser2() {
    let tz = jiff::tz::TimeZone::get("America/New_York").unwrap();
    let note = Note {
        note: "This is my note".to_owned(),
        datetime: zoned(&jiff::civil::datetime(2024, 11, 9, 6, 19, 22, 0).to_zoned(tz).unwrap()),
        children: three_children(),
    };

    let buf = note.ser_v0_to_vec();
    let note2 = Note::deser_v0(&buf).unwrap();
    assert_eq!(note, note2);

    let expected = format!(
        "83 6f 54686973206973206d79206e6f7465
         d9 03e9 a3 01 1a 672f453a 28 00 0a 70 416d65726963612f4e65775f596f726b
         {CHILDREN_HEX}"
    );
    assert_eq!(buf, hex(&expected));
}

#[test]
fn round_trip_utc_zone_no_children() {
    round_trips(&note_with(0, 0, Zone::Named("UTC".to_string()), vec![]));
}

#[test]
fn round_trip_named_zone_with_children() {
    round_trips(&note_with(1_731_151_162, 123_456_789, Zone::Named("Asia/Tokyo".to_string()), three_children()));
}

#[test]
fn round_trip_fixed_offsets() {
    for m in [0, 330, -180, 1559, -1559, 59, -1] {
        round_trips(&note_with(1_700_000_000, 5, Zone::Fixed(m), vec![]));
    }
}

#[test]
fn round_trip_before_epoch() {
    let ts = ZonedTimestamp::from_parts(-1, -500_000_000, Zone::Named("Europe/London".to_string()));
    assert_eq!(ts.seconds, -2);
    assert_eq!(ts.nanos, 500_000_000);
    round_trips(&Note { note: String::new(), datetime: ts, children: three_children() });
    round_trips(&note_with(-377_705_023_201, 0, Zone::Fixed(-300), vec![]));
    round_trips(&note_with(253_402_207_200, 999_999_999, Zone::Fixed(60), vec![]));
}

#[test]
fn round_trip_long_text() {
    let mut n = note_with(1, 1, Zone::Named("Europe/Paris".to_string()), vec![RecordId(u128::MAX), RecordId(0)]);
    n.note = "é✓🙂".repeat(100);
    round_trips(&n);
}

#[test]
fn encodes_negative_seconds_and_fixed_offset() {
    let n = note_with(-1, 7, Zone::Fixed(-330), vec![]);
    let buf = n.ser_v0_to_vec();
    let expected = "83 6b 48656c6c6f20776f726c64
        d9 03e9 a3 01 20 28 07 0a 66 2d30353a3330
        80";
    assert_eq!(buf, hex(expected));
}

#[test]
fn from_parts_keeps_positive_parts() {
    let ts = ZonedTimestamp::from_parts(10, 20, Zone::Fixed(0));
    assert_eq!((ts.seconds, ts.nanos), (10, 20));
}

#[test]
fn rejects_wrong_top_level_array_length() {
    let mut buf = note_with(0, 0, Zone::Fixed(0), vec![]).ser_v0_to_vec();
    buf[0] = 0x82;
    assert_eq!(Note::deser_v0(&buf), Err(DecodeError::Malformed));
    buf[0] = 0x84;
    assert_eq!(Note::deser_v0(&buf), Err(DecodeError::Malformed));
}

#[test]
fn rejects_wrong_map_size() {
    let mut buf = note_with(0, 0, Zone::Fixed(0), vec![]).ser_v0_to_vec();
    // 83, 6b + 11 text bytes, d9 03 e9, then the map head.
    assert_eq!(buf[16], 0xa3);
    buf[16] = 0xa2;
    assert_eq!(Note::deser_v0(&buf), Err(DecodeError::Malformed));
    buf[16] = 0xa4;
    assert_eq!(Note::deser_v0(&buf), Err(DecodeError::Malformed));
}

#[test]
fn rejects_identifier_of_other_length() {
    let good = note_with(0, 0, Zone::Fixed(0), vec![RecordId(7)]).ser_v0_to_vec();
    let at = good.len() - 17;
    assert_eq!(good[at], 0x50);
    let mut short = good.clone();
    short[at] = 0x4f;
    short.pop();
    assert_eq!(Note::deser_v0(&short), Err(DecodeError::Malformed));
    let mut long = good.clone();
    long[at] = 0x51;
    long.push(0);
    assert_eq!(Note::deser_v0(&long), Err(DecodeError::Malformed));
}

#[test]
fn rejects_truncated_and_empty_input() {
    let good = note_with(5, 5, Zone::Named("Europe/Paris".to_string()), three_children()).ser_v0_to_vec();
    for n in 0..good.len() {
        assert_eq!(Note::deser_v0(&good[..n]), Err(DecodeError::Malformed), "prefix {n}");
    }
}

#[test]
fn ignores_bytes_after_the_note() {
    let n = note_with(5, 5, Zone::Fixed(10), vec![]);
    let mut buf = n.ser_v0_to_vec();
    buf.push(0xff);
    assert_eq!(Note::deser_v0(&buf).unwrap(), n);
}

#[test]
fn accepts_wider_heads_than_needed() {
    // The top-level array head written with a one-byte argument.
    let n = note_with(5, 5, Zone::Fixed(10), vec![]);
    let mut buf = vec![0x98, 0x03];
    buf.extend_from_slice(&n.ser_v0_to_vec()[1..]);
    assert_eq!(Note::deser_v0(&buf).unwrap(), n);
}

#[test]
fn rejects_invalid_utf8_text() {
    let mut buf = note_with(0, 0, Zone::Fixed(0), vec![]).ser_v0_to_vec();
    buf[2] = 0xff;
    assert_eq!(Note::deser_v0(&buf), Err(DecodeError::InvalidUtf8));
}

#[test]
fn rejects_invalid_utf8_zone_name() {
    let mut buf = note_with(0, 0, Zone::Named("Europe/Paris".to_string()), vec![]).ser_v0_to_vec();
    let at = buf.len() - 2;
    buf[at] = 0xc3;
    assert_eq!(Note::deser_v0(&buf), Err(DecodeError::InvalidUtf8));
}

#[test]
fn rejects_timestamp_out_of_range() {
    let mut buf = note_with(253_402_207_200, 0, Zone::Fixed(0), vec![]).ser_v0_to_vec();
    // The base time 253402207200 becomes 253402207201.
    let expected = hex("01 1b 0000003a fff2d3e0");
    let at = buf.windows(expected.len()).position(|w| w == expected.as_slice()).unwrap();
    buf[at + expected.len() - 1] = 0xe1;
    assert_eq!(Note::deser_v0(&buf), Err(DecodeError::TimestampOutOfRange));

    let mut buf = note_with(0, 999_999_999, Zone::Fixed(0), vec![]).ser_v0_to_vec();
    let nanos = hex("28 1a 3b9ac9ff");
    let at = buf.windows(nanos.len()).position(|w| w == nanos.as_slice()).unwrap();
    buf[at + 5] = 0x00;
    buf[at + 4] = 0xca;
    assert_eq!(Note::deser_v0(&buf), Err(DecodeError::TimestampOutOfRange));
}

#[test]
fn rejects_negative_nanoseconds() {
    let mut buf = note_with(0, 3, Zone::Fixed(0), vec![]).ser_v0_to_vec();
    let nanos = hex("28 03");
    let at = buf.windows(2).position(|w| w == nanos.as_slice()).unwrap();
    buf[at + 1] = 0x23;
    assert_eq!(Note::deser_v0(&buf), Err(DecodeError::Malformed));
}

#[test]
fn rejects_offset_out_of_range() {
    let mut buf = note_with(0, 0, Zone::Fixed(1559), vec![]).ser_v0_to_vec();
    let text = b"+25:59";
    let at = buf.windows(6).position(|w| w == text).unwrap();
    buf[at + 2] = b'6';
    assert_eq!(Note::deser_v0(&buf), Err(DecodeError::OffsetOutOfRange));
}

#[test]
fn rejects_unknown_zone_name() {
    let buf = note_with(0, 0, Zone::Named("Mars/Olympus_Mons".to_string()), vec![]).ser_v0_to_vec();
    assert_eq!(Note::deser_v0(&buf), Err(DecodeError::UnknownZone));
    assert_eq!(Note::deser_v0_with(&buf, false), Err(DecodeError::UnknownZone));
    let parsed = Note::parse_v0(&buf).unwrap();
    assert_eq!(parsed.datetime.zone, Zone::Named("Mars/Olympus_Mons".to_string()));
    assert_eq!(Note::deser_v0_with(&buf, true).unwrap(), parsed);
}

#[test]
fn offset_shaped_names_are_not_valid() {
    let n = note_with(0, 0, Zone::Named("+01:00".to_string()), vec![]);
    assert!(!n.is_valid());
    assert!(!note_with(0, 0, Zone::Fixed(1560), vec![]).is_valid());
    assert!(!note_with(0, 1_000_000_000, Zone::Fixed(0), vec![]).is_valid());
    assert!(!note_with(253_402_207_201, 0, Zone::Fixed(0), vec![]).is_valid());
}

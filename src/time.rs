//! Zoned timestamps: an instant as whole seconds and nanoseconds since the
//! Unix epoch, with either a named time zone or a fixed offset in minutes.
use vstd::prelude::*;
use vstd::utf8::*;

use crate::cbor::{push_head, push_text, Head, head_bytes};

verus! {

/// The least second of the range of instants that this library accepts.
pub const MIN_SECONDS: i64 = -377705023201;

/// The greatest second of the range of instants that this library accepts.
pub const MAX_SECONDS: i64 = 253402207200;

/// The largest magnitude of a fixed offset, in seconds (25:59:59).
pub const MAX_OFFSET_SECONDS: i32 = 93599;

/// One second in nanoseconds.
pub const NANOS_PER_SECOND: u32 = 1_000_000_000;

/// The time zone of a timestamp.
#[derive(Clone, Debug, PartialEq, Eq)]
pub enum Zone {
    /// A zone of the time-zone database, by name (`Europe/Paris`).
    Named(String),
    /// A fixed offset from UTC, in whole minutes east of it.
    Fixed(i32),
}

/// What a zone is, as a mathematical value.
pub enum ZoneView {
    Named(Seq<char>),
    Fixed(int),
}

impl View for Zone {
    type V = ZoneView;

    open spec fn view(&self) -> ZoneView {
        match self {
            Zone::Named(s) => ZoneView::Named(s@),
            Zone::Fixed(m) => ZoneView::Fixed(*m as int),
        }
    }
}

/// An instant with a time zone.
#[derive(Clone, Debug, PartialEq, Eq)]
pub struct ZonedTimestamp {
    /// Whole seconds since the Unix epoch, rounded down.
    pub seconds: i64,
    /// Nanoseconds past `seconds`, below one second.
    pub nanos: u32,
    pub zone: Zone,
}

/// What a zoned timestamp is, as a mathematical value.
pub struct ZonedView {
    pub seconds: int,
    pub nanos: int,
    pub zone: ZoneView,
}

impl View for ZonedTimestamp {
    type V = ZonedView;

    open spec fn view(&self) -> ZonedView {
        ZonedView { seconds: self.seconds as int, nanos: self.nanos as int, zone: self.zone@ }
    }
}

/// The ASCII digit of `d` (0 to 9).
pub open spec fn digit(d: int) -> u8 {
    (48 + d) as u8
}

pub open spec fn is_digit(c: u8) -> bool {
    48 <= c <= 57
}

/// The text of a fixed offset of `m` minutes: a sign, two digits of hours,
/// a colon and two digits of minutes (`+01:00`, `-05:30`).
pub open spec fn offset_text(m: int) -> Seq<u8> {
    let a = if m < 0 { -m } else { m };
    let h = a / 60;
    let mm = a % 60;
    seq![
        if m < 0 { 45u8 } else { 43u8 },
        digit(h / 10),
        digit(h % 10),
        58u8,
        digit(mm / 10),
        digit(mm % 10),
    ]
}

/// Whether text has the shape of a fixed offset: exactly six bytes, a sign,
/// two digits, a colon and two digits.
pub open spec fn is_offset_text(t: Seq<u8>) -> bool {
    &&& t.len() == 6
    &&& (t[0] == 43u8 || t[0] == 45u8)
    &&& is_digit(t[1])
    &&& is_digit(t[2])
    &&& t[3] == 58u8
    &&& is_digit(t[4])
    &&& is_digit(t[5])
}

/// The offset in minutes that offset-shaped text spells.
pub open spec fn offset_minutes(t: Seq<u8>) -> int {
    let a = ((t[1] - 48) * 10 + (t[2] - 48)) * 60 + (t[4] - 48) * 10 + (t[5] - 48);
    if t[0] == 45u8 { -a } else { a }
}

/// The text that stands for a zone: its name, or its offset.
pub open spec fn zone_text(z: ZoneView) -> Seq<u8> {
    match z {
        ZoneView::Named(s) => encode_utf8(s),
        ZoneView::Fixed(m) => offset_text(m),
    }
}

/// A fixed offset in minutes that this library accepts.
pub open spec fn offset_in_range(m: int) -> bool {
    -(MAX_OFFSET_SECONDS as int) <= m * 60 <= MAX_OFFSET_SECONDS as int
}

/// A valid zone: a fixed offset in range, or a name that is not offset text
/// (and whose UTF-8 length fits a `usize`, as that of any `String` does).
pub open spec fn zone_wf(z: ZoneView) -> bool {
    match z {
        ZoneView::Named(s) => !is_offset_text(encode_utf8(s)) && encode_utf8(s).len() <= usize::MAX,
        ZoneView::Fixed(m) => offset_in_range(m),
    }
}

/// A valid zoned timestamp: an instant in range, nanoseconds below one
/// second, and a valid zone.
pub open spec fn zoned_wf(t: ZonedView) -> bool {
    &&& MIN_SECONDS <= t.seconds <= MAX_SECONDS
    &&& 0 <= t.nanos < NANOS_PER_SECOND
    &&& zone_wf(t.zone)
}

/// The instant of a timestamp in nanoseconds since the Unix epoch.
pub open spec fn total_nanos(seconds: int, nanos: int) -> int {
    seconds * NANOS_PER_SECOND + nanos
}

impl ZonedTimestamp {
    /// The timestamp of the instant `seconds` plus `nanos` nanoseconds, where
    /// both may be negative (as a signed duration since the epoch gives
    /// them): the nanoseconds are brought into `0..1_000_000_000` and the
    /// seconds adjusted.
    pub fn from_parts(seconds: i64, nanos: i32, zone: Zone) -> (r: ZonedTimestamp)
        requires
            -(NANOS_PER_SECOND as int) < nanos < NANOS_PER_SECOND,
            nanos < 0 ==> seconds > i64::MIN,
        ensures
            total_nanos(r.seconds as int, r.nanos as int) == total_nanos(seconds as int, nanos as int),
            0 <= r.nanos < NANOS_PER_SECOND,
            r.zone@ == zone@,
    {
        if nanos < 0 {
            ZonedTimestamp { seconds: seconds - 1, nanos: (nanos + 1_000_000_000) as u32, zone }
        } else {
            ZonedTimestamp { seconds, nanos: nanos as u32, zone }
        }
    }
}

impl ZonedTimestamp {
    /// Whether the timestamp is valid: in range, and with a zone that is a
    /// fixed offset in range or a name that is not offset text.
    pub fn is_valid(&self) -> (r: bool)
        ensures
            r == zoned_wf(self@),
    {
        let zone_ok = match &self.zone {
            Zone::Named(s) => {
                let bytes = s.as_str().as_bytes();
                let _ = bytes.len();
                !offset_shaped(bytes)
            },
            Zone::Fixed(m) => -1559 <= *m && *m <= 1559,
        };
        MIN_SECONDS <= self.seconds && self.seconds <= MAX_SECONDS && self.nanos < NANOS_PER_SECOND
            && zone_ok
    }
}

/// Whether the 6 bytes of `t` have the shape of a fixed offset.
pub fn offset_shaped(t: &[u8]) -> (r: bool)
    ensures
        r == is_offset_text(t@),
{
    t.len() == 6 && (t[0] == 43u8 || t[0] == 45u8) && 48 <= t[1] && t[1] <= 57 && 48 <= t[2]
        && t[2] <= 57 && t[3] == 58u8 && 48 <= t[4] && t[4] <= 57 && 48 <= t[5] && t[5] <= 57
}

/// The offset in minutes that offset-shaped text spells.
pub fn parse_offset(t: &[u8]) -> (r: i32)
    requires
        is_offset_text(t@),
    ensures
        r == offset_minutes(t@),
{
    let a: i32 = ((t[1] - 48) as i32 * 10 + (t[2] - 48) as i32) * 60 + (t[4] - 48) as i32 * 10
        + (t[5] - 48) as i32;
    if t[0] == 45u8 {
        -a
    } else {
        a
    }
}

/// Appends the text item of a zone: its name, or its offset text.
pub fn push_zone(buf: &mut Vec<u8>, z: &Zone)
    requires
        zone_wf(z@),
    ensures
        final(buf)@ == old(buf)@ + head_bytes(Head::Text(zone_text(z@).len() as u64)) + zone_text(
            z@,
        ),
{
    match z {
        Zone::Named(s) => {
            push_text(buf, s.as_str());
        },
        Zone::Fixed(m) => {
            let a: i32 = if *m < 0 { -*m } else { *m };
            let h: i32 = a / 60;
            let mm: i32 = a % 60;
            push_head(buf, Head::Text(6));
            buf.push(if *m < 0 { 45u8 } else { 43u8 });
            buf.push((48 + h / 10) as u8);
            buf.push((48 + h % 10) as u8);
            buf.push(58u8);
            buf.push((48 + mm / 10) as u8);
            buf.push((48 + mm % 10) as u8);
            assert(final(buf)@ =~= old(buf)@ + head_bytes(Head::Text(6)) + offset_text(*m as int));
        },
    }
}

/// Relies on jiff's `Timestamp::new`: it accepts seconds from `MIN_SECONDS`
/// to `MAX_SECONDS` and nanoseconds of magnitude below one second, except
/// negative nanoseconds at `MIN_SECONDS`.
#[verifier::external_body]
pub(crate) fn timestamp_accepted(seconds: i64, nanos: i32) -> (r: bool)
    ensures
        r == (MIN_SECONDS <= seconds <= MAX_SECONDS && -(NANOS_PER_SECOND as int) < nanos
            < NANOS_PER_SECOND && !(seconds == MIN_SECONDS && nanos < 0)),
{
    jiff::Timestamp::new(seconds, nanos).is_ok()
}

/// Relies on jiff's `Offset::from_seconds`: it accepts offsets of at most
/// `MAX_OFFSET_SECONDS` in magnitude.
#[verifier::external_body]
pub(crate) fn offset_accepted(seconds: i32) -> (r: bool)
    ensures
        r == (-MAX_OFFSET_SECONDS <= seconds <= MAX_OFFSET_SECONDS),
{
    jiff::tz::Offset::from_seconds(seconds).is_ok()
}

/// Relies on jiff's `TimeZone::get`: whether the time-zone database knows
/// the name. The answer depends on the database at hand.
#[verifier::external_body]
pub(crate) fn zone_known(name: &str) -> (r: bool) {
    jiff::tz::TimeZone::get(name).is_ok()
}

} // verus!

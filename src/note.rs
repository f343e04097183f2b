//! The note payload: a CBOR array of the text, an extended time (RFC 9581,
//! tag 1001, with base time, nanoseconds and time-zone hint) and the child
//! identifiers, each a 16-byte string under tag 37.
use vstd::prelude::*;
use vstd::utf8::*;

use crate::cbor::{be_bytes, be_value, head_bytes, lemma_be_round_trip, lemma_parse_head_bytes, pow256, parse_head, pull_head, push_head, push_text, utf8_string, Head};
use crate::ids::{push_be, read_be16, RecordId};
use crate::time::{
    is_offset_text, offset_accepted, offset_text, zone_wf, offset_in_range, offset_minutes, offset_shaped, parse_offset,
    push_zone, timestamp_accepted, zone_known, zone_text, zoned_wf, Zone, ZoneView, ZonedTimestamp,
    ZonedView, MAX_SECONDS, MIN_SECONDS, NANOS_PER_SECOND,
};

verus! {

/// The tag of a byte string that holds a UUID.
pub const UUID_BYTES_TAG: u64 = 37;

/// The tag of an extended time.
pub const EXTENDED_TIME_TAG: u64 = 1001;

/// The map key of the base time: the positive integer 1.
pub const BASE_TIME_KEY: u64 = 1;

/// The map key of the nanoseconds: the negative integer -9, whose CBOR
/// argument is 8.
pub const NANOSECONDS_KEY: u64 = 8;

/// The map key of the time-zone hint: the positive integer 10.
pub const TIME_ZONE_KEY: u64 = 10;

/// Why a payload could not be read as a note.
#[derive(Clone, Copy, Debug, PartialEq, Eq, Structural)]
pub enum DecodeError {
    /// A head is missing, truncated or not the one the layout has there, or
    /// a string runs past the end.
    Malformed,
    /// A text is not well-formed UTF-8.
    InvalidUtf8,
    /// The instant is outside the accepted range, or the nanoseconds are
    /// not below one second.
    TimestampOutOfRange,
    /// An offset-shaped zone is more than 25:59:59 from UTC.
    OffsetOutOfRange,
    /// The time-zone database does not know the zone name.
    UnknownZone,
}

/// A note: its text, when and where it was written, and the earlier notes
/// that it supersedes or links to.
#[derive(Clone, Debug, PartialEq, Eq)]
pub struct Note {
    pub note: String,
    pub datetime: ZonedTimestamp,
    pub children: Vec<RecordId>,
}

/// What a note is, as a mathematical value.
pub struct NoteView {
    pub text: Seq<char>,
    pub datetime: ZonedView,
    pub children: Seq<RecordId>,
}

impl View for Note {
    type V = NoteView;

    open spec fn view(&self) -> NoteView {
        NoteView { text: self.note@, datetime: self.datetime@, children: self.children@ }
    }
}

/// A note that can be encoded: its timestamp is valid (and its text and
/// children have lengths that fit a `usize`, as those of any `Note` do).
pub open spec fn note_wf(n: NoteView) -> bool {
    &&& zoned_wf(n.datetime)
    &&& encode_utf8(n.text).len() <= usize::MAX
    &&& n.children.len() <= usize::MAX
}

/// A text item: the head of its length, then its bytes.
pub open spec fn text_item(t: Seq<u8>) -> Seq<u8> {
    head_bytes(Head::Text(t.len() as u64)) + t
}

/// The head of an integer: positive as itself, negative `v` as `-1 - v`.
pub open spec fn int_head(v: int) -> Head {
    if v >= 0 {
        Head::Positive(v as u64)
    } else {
        Head::Negative((-1 - v) as u64)
    }
}

/// The extended time of a zoned timestamp: tag 1001, a map of three pairs
/// in the order base time, nanoseconds, time-zone hint.
pub open spec fn time_item(t: ZonedView) -> Seq<u8> {
    head_bytes(Head::Tag(EXTENDED_TIME_TAG)) + (head_bytes(Head::Pairs(3)) + (head_bytes(
        Head::Positive(BASE_TIME_KEY),
    ) + (head_bytes(int_head(t.seconds)) + (head_bytes(Head::Negative(NANOSECONDS_KEY)) + (
    head_bytes(Head::Positive(t.nanos as u64)) + (head_bytes(Head::Positive(TIME_ZONE_KEY))
        + text_item(zone_text(t.zone))))))))
}

/// A child identifier: tag 37 on a 16-byte string of the identifier, most
/// significant byte first.
pub open spec fn id_item(id: RecordId) -> Seq<u8> {
    head_bytes(Head::Tag(UUID_BYTES_TAG)) + (head_bytes(Head::Bytes(16)) + be_bytes(id.0 as nat, 16))
}

/// The child identifiers one after the other.
pub open spec fn ids_items(s: Seq<RecordId>) -> Seq<u8>
    decreases s.len(),
{
    if s.len() == 0 {
        seq![]
    } else {
        id_item(s[0]) + ids_items(s.drop_first())
    }
}

/// The payload of a note: an array of three items, the text, the extended
/// time and the array of child identifiers.
pub open spec fn encode_note(n: NoteView) -> Seq<u8> {
    head_bytes(Head::Array(3)) + (text_item(encode_utf8(n.text)) + (time_item(n.datetime) + (
    head_bytes(Head::Array(n.children.len() as u64)) + ids_items(n.children))))
}

proof fn lemma_ids_items_push(s: Seq<RecordId>, id: RecordId)
    ensures
        ids_items(s.push(id)) == ids_items(s) + id_item(id),
    decreases s.len(),
{
    if s.len() == 0 {
        assert(s.push(id).drop_first() =~= Seq::<RecordId>::empty());
        assert(ids_items(s.push(id).drop_first()) == Seq::<u8>::empty());
        assert(ids_items(s) == Seq::<u8>::empty());
        assert(ids_items(s.push(id)) =~= ids_items(s) + id_item(id));
    } else {
        assert(s.push(id).drop_first() =~= s.drop_first().push(id));
        lemma_ids_items_push(s.drop_first(), id);
        assert(ids_items(s.push(id)) =~= ids_items(s) + id_item(id));
    }
}

/// The head at position `p` of `b` and the position after it.
pub open spec fn head_at(b: Seq<u8>, p: int) -> Option<(Head, int)> {
    if 0 <= p <= b.len() {
        match parse_head(b.subrange(p, b.len() as int)) {
            Some((h, n)) => Some((h, p + n)),
            None => None,
        }
    } else {
        None
    }
}

/// The position after head `h` at `p`, where it stands there.
pub open spec fn expect_at(b: Seq<u8>, p: int, h: Head) -> Result<int, DecodeError> {
    match head_at(b, p) {
        Some((g, q)) => if g == h {
            Ok(q)
        } else {
            Err(DecodeError::Malformed)
        },
        None => Err(DecodeError::Malformed),
    }
}

/// The bytes of the text item at `p` and the position after it.
pub open spec fn text_at(b: Seq<u8>, p: int) -> Result<(Seq<u8>, int), DecodeError> {
    match head_at(b, p) {
        Some((Head::Text(n), q)) => if q + n <= b.len() {
            Ok((b.subrange(q, q + n), q + n))
        } else {
            Err(DecodeError::Malformed)
        },
        _ => Err(DecodeError::Malformed),
    }
}

/// The zone that time-zone text stands for: a fixed offset where it has
/// the offset shape, else a name.
pub open spec fn zone_of_text(t: Seq<u8>) -> Result<ZoneView, DecodeError> {
    if is_offset_text(t) {
        if offset_in_range(offset_minutes(t)) {
            Ok(ZoneView::Fixed(offset_minutes(t)))
        } else {
            Err(DecodeError::OffsetOutOfRange)
        }
    } else if valid_utf8(t) {
        Ok(ZoneView::Named(decode_utf8(t)))
    } else {
        Err(DecodeError::InvalidUtf8)
    }
}

/// The extended time at `p` and the position after it.
#[verifier::opaque]
pub open spec fn time_at(b: Seq<u8>, p: int) -> Result<(ZonedView, int), DecodeError> {
    match expect_at(b, p, Head::Tag(EXTENDED_TIME_TAG)) {
        Err(e) => Err(e),
        Ok(pos1) => match expect_at(b, pos1, Head::Pairs(3)) {
            Err(e) => Err(e),
            Ok(pos2) => match expect_at(b, pos2, Head::Positive(BASE_TIME_KEY)) {
                Err(e) => Err(e),
                Ok(pos3) => match head_at(b, pos3) {
                    Some((Head::Positive(v), pos4)) => time_rest_at(b, pos4, v as int),
                    Some((Head::Negative(v), pos4)) => time_rest_at(b, pos4, -1 - v),
                    _ => Err(DecodeError::Malformed),
                },
            },
        },
    }
}

/// The rest of an extended time whose base time is `seconds`, from the
/// nanoseconds key at `p` on.
pub open spec fn time_rest_at(b: Seq<u8>, p: int, seconds: int) -> Result<(ZonedView, int), DecodeError> {
    match expect_at(b, p, Head::Negative(NANOSECONDS_KEY)) {
        Err(e) => Err(e),
        Ok(pos1) => match head_at(b, pos1) {
            Some((Head::Positive(ns), pos2)) => if !(MIN_SECONDS <= seconds <= MAX_SECONDS && ns
                < NANOS_PER_SECOND) {
                Err(DecodeError::TimestampOutOfRange)
            } else {
                match expect_at(b, pos2, Head::Positive(TIME_ZONE_KEY)) {
                    Err(e) => Err(e),
                    Ok(pos3) => match text_at(b, pos3) {
                        Err(e) => Err(e),
                        Ok((t, pos4)) => match zone_of_text(t) {
                            Err(e) => Err(e),
                            Ok(z) => Ok((ZonedView { seconds, nanos: ns as int, zone: z }, pos4)),
                        },
                    },
                }
            },
            _ => Err(DecodeError::Malformed),
        },
    }
}

/// The child identifier at `p` and the position after it.
pub open spec fn id_at(b: Seq<u8>, p: int) -> Result<(RecordId, int), DecodeError> {
    match expect_at(b, p, Head::Tag(UUID_BYTES_TAG)) {
        Err(e) => Err(e),
        Ok(pos1) => match expect_at(b, pos1, Head::Bytes(16)) {
            Err(e) => Err(e),
            Ok(pos2) => if pos2 + 16 <= b.len() {
                Ok((RecordId(be_value(b.subrange(pos2, pos2 + 16)) as u128), pos2 + 16))
            } else {
                Err(DecodeError::Malformed)
            },
        },
    }
}

/// The `n` child identifiers from `p` on and the position after them.
pub open spec fn ids_at(b: Seq<u8>, p: int, n: nat) -> Result<(Seq<RecordId>, int), DecodeError>
    decreases n,
{
    if n == 0 {
        Ok((seq![], p))
    } else {
        match id_at(b, p) {
            Err(e) => Err(e),
            Ok((id, q)) => match ids_at(b, q, (n - 1) as nat) {
                Err(e) => Err(e),
                Ok((rest, r)) => Ok((seq![id] + rest, r)),
            },
        }
    }
}

/// The note that a payload holds, or why it holds none. Bytes after the
/// note are not read.
pub open spec fn note_at(b: Seq<u8>) -> Result<NoteView, DecodeError> {
    match expect_at(b, 0, Head::Array(3)) {
        Err(e) => Err(e),
        Ok(pos1) => match text_at(b, pos1) {
            Err(e) => Err(e),
            Ok((t, pos2)) => if !valid_utf8(t) {
                Err(DecodeError::InvalidUtf8)
            } else {
                match time_at(b, pos2) {
                    Err(e) => Err(e),
                    Ok((dt, pos3)) => match head_at(b, pos3) {
                        Some((Head::Array(n), pos4)) => match ids_at(b, pos4, n as nat) {
                            Err(e) => Err(e),
                            Ok((ids, _)) => Ok(
                                NoteView { text: decode_utf8(t), datetime: dt, children: ids },
                            ),
                        },
                        _ => Err(DecodeError::Malformed),
                    },
                }
            },
        },
    }
}

/// What a decoder that resolves zone names returns on a payload: the note,
/// or why there is none; a named zone that the database does not know
/// gives `UnknownZone`.
pub open spec fn decode_result(b: Seq<u8>, known: bool) -> Result<NoteView, DecodeError> {
    match note_at(b) {
        Ok(n) => match n.datetime.zone {
            ZoneView::Named(_) => if known {
                Ok(n)
            } else {
                Err(DecodeError::UnknownZone)
            },
            ZoneView::Fixed(_) => Ok(n),
        },
        Err(e) => Err(e),
    }
}

/// The head at `p` and the position after it.
fn head(b: &[u8], p: usize) -> (r: Option<(Head, usize)>)
    requires
        p <= b@.len(),
    ensures
        match head_at(b@, p as int) {
            Some((h, q)) => r matches Some((hh, qq)) && hh == h && qq == q && q <= b@.len(),
            None => r is None,
        },
{
    let _ = b.len();
    match pull_head(b, p) {
        Some((h, n)) => Some((h, p + n)),
        None => None,
    }
}

/// The position after head `h` at `p`.
fn expect(b: &[u8], p: usize, h: Head) -> (r: Result<usize, DecodeError>)
    requires
        p <= b@.len(),
    ensures
        match expect_at(b@, p as int, h) {
            Ok(q) => r matches Ok(qq) && qq == q && q <= b@.len(),
            Err(e) => r == Err::<usize, DecodeError>(e),
        },
{
    match head(b, p) {
        Some((g, q)) => if g == h {
            Ok(q)
        } else {
            Err(DecodeError::Malformed)
        },
        None => Err(DecodeError::Malformed),
    }
}

/// Where the bytes of the text item at `p` start and end.
fn text(b: &[u8], p: usize) -> (r: Result<(usize, usize), DecodeError>)
    requires
        p <= b@.len(),
    ensures
        match text_at(b@, p as int) {
            Ok((t, q)) => r matches Ok((s, e)) && e == q && s <= e <= b@.len() && b@.subrange(
                s as int,
                e as int,
            ) == t,
            Err(e) => r == Err::<(usize, usize), DecodeError>(e),
        },
{
    match head(b, p) {
        Some((Head::Text(n), q)) => if n <= (b.len() - q) as u64 {
            Ok((q, q + n as usize))
        } else {
            Err(DecodeError::Malformed)
        },
        _ => Err(DecodeError::Malformed),
    }
}

/// The zone that time-zone text stands for.
fn zone_from_text(t: &[u8]) -> (r: Result<Zone, DecodeError>)
    ensures
        match zone_of_text(t@) {
            Ok(z) => r matches Ok(zz) && zz@ == z,
            Err(e) => r == Err::<Zone, DecodeError>(e),
        },
{
    if offset_shaped(t) {
        let m = parse_offset(t);
        if offset_accepted(m * 60) {
            Ok(Zone::Fixed(m))
        } else {
            Err(DecodeError::OffsetOutOfRange)
        }
    } else {
        match utf8_string(t) {
            Some(s) => Ok(Zone::Named(s)),
            None => Err(DecodeError::InvalidUtf8),
        }
    }
}

/// Reads the extended time at `p`: the zoned timestamp and the position
/// after it.
pub fn zoned_cbor_9581_deser(b: &[u8], p: usize) -> (r: Result<(ZonedTimestamp, usize), DecodeError>)
    requires
        p <= b@.len(),
    ensures
        match time_at(b@, p as int) {
            Ok((z, q)) => r matches Ok((zz, qq)) && zz@ == z && qq == q && q <= b@.len(),
            Err(e) => r == Err::<(ZonedTimestamp, usize), DecodeError>(e),
        },
{
    reveal(time_at);
    let pos1 = match expect(b, p, Head::Tag(EXTENDED_TIME_TAG)) {
        Ok(q) => q,
        Err(e) => return Err(e),
    };
    let pos2 = match expect(b, pos1, Head::Pairs(3)) {
        Ok(q) => q,
        Err(e) => return Err(e),
    };
    let pos3 = match expect(b, pos2, Head::Positive(BASE_TIME_KEY)) {
        Ok(q) => q,
        Err(e) => return Err(e),
    };
    let (seconds, pos4): (i128, usize) = match head(b, pos3) {
        Some((Head::Positive(v), q)) => (v as i128, q),
        Some((Head::Negative(v), q)) => (-1 - v as i128, q),
        _ => return Err(DecodeError::Malformed),
    };
    let pos5 = match expect(b, pos4, Head::Negative(NANOSECONDS_KEY)) {
        Ok(q) => q,
        Err(e) => return Err(e),
    };
    let (nanos, pos6): (u64, usize) = match head(b, pos5) {
        Some((Head::Positive(v), q)) => (v, q),
        _ => return Err(DecodeError::Malformed),
    };
    let in_range = if MIN_SECONDS as i128 <= seconds && seconds <= MAX_SECONDS as i128 && nanos
        < NANOS_PER_SECOND as u64 {
        timestamp_accepted(seconds as i64, nanos as i32)
    } else {
        false
    };
    if !in_range {
        return Err(DecodeError::TimestampOutOfRange);
    }
    let pos7 = match expect(b, pos6, Head::Positive(TIME_ZONE_KEY)) {
        Ok(q) => q,
        Err(e) => return Err(e),
    };
    let (s, e) = match text(b, pos7) {
        Ok(se) => se,
        Err(e) => return Err(e),
    };
    let zone = match zone_from_text(&b[s..e]) {
        Ok(z) => z,
        Err(e) => return Err(e),
    };
    Ok((ZonedTimestamp { seconds: seconds as i64, nanos: nanos as u32, zone }, e))
}

/// Reads the child identifier at `p`.
fn read_id(b: &[u8], p: usize) -> (r: Result<(RecordId, usize), DecodeError>)
    requires
        p <= b@.len(),
    ensures
        match id_at(b@, p as int) {
            Ok((id, q)) => r matches Ok((ii, qq)) && ii == id && qq == q && q <= b@.len(),
            Err(e) => r == Err::<(RecordId, usize), DecodeError>(e),
        },
{
    let pos1 = match expect(b, p, Head::Tag(UUID_BYTES_TAG)) {
        Ok(q) => q,
        Err(e) => return Err(e),
    };
    let pos2 = match expect(b, pos1, Head::Bytes(16)) {
        Ok(q) => q,
        Err(e) => return Err(e),
    };
    if b.len() - pos2 < 16 {
        return Err(DecodeError::Malformed);
    }
    Ok((RecordId(read_be16(b, pos2)), pos2 + 16))
}

/// Reads the `n` child identifiers from `p` on.
fn read_ids(b: &[u8], pos4: usize, n: u64) -> (r: Result<(Vec<RecordId>, usize), DecodeError>)
    requires
        pos4 <= b@.len(),
    ensures
        match ids_at(b@, pos4 as int, n as nat) {
            Ok((ids, q)) => r matches Ok((v, qq)) && v@ == ids && qq == q,
            Err(e) => r == Err::<(Vec<RecordId>, usize), DecodeError>(e),
        },
{
    let mut children: Vec<RecordId> = Vec::new();
    let mut q: usize = pos4;
    let mut k: u64 = 0;
    while k < n
        invariant
            k <= n,
            q <= b@.len(),
            ids_at(b@, pos4 as int, n as nat) == match ids_at(b@, q as int, (n - k) as nat) {
                Ok((rest, r)) => Ok((children@ + rest, r)),
                Err(e) => Err(e),
            },
        decreases n - k,
    {
        let ghost before = children@;
        match read_id(b, q) {
            Ok((id, q2)) => {
                children.push(id);
                proof {
                    match ids_at(b@, q2 as int, (n - k - 1) as nat) {
                        Ok((rest, r)) => {
                            assert(before + (seq![id] + rest) =~= children@ + rest);
                        },
                        Err(_) => {},
                    }
                }
                q = q2;
                k += 1;
            },
            Err(e) => {
                assert(ids_at(b@, q as int, (n - k) as nat) == Err::<
                    (Seq<RecordId>, int),
                    DecodeError,
                >(e));
                return Err(e);
            },
        }
    }
    assert(children@ + Seq::<RecordId>::empty() =~= children@);
    Ok((children, q))
}

/// Appends the extended time of a zoned timestamp.
pub fn zoned_cbor_9581_ser(zdt: &ZonedTimestamp, buf: &mut Vec<u8>)
    requires
        zoned_wf(zdt@),
    ensures
        final(buf)@ == old(buf)@ + time_item(zdt@),
{
    let ghost b0 = buf@;
    push_head(buf, Head::Tag(EXTENDED_TIME_TAG));
    push_head(buf, Head::Pairs(3));
    push_head(buf, Head::Positive(BASE_TIME_KEY));
    let ghost b1 = buf@;
    if zdt.seconds >= 0 {
        push_head(buf, Head::Positive(zdt.seconds as u64));
    } else {
        push_head(buf, Head::Negative((-1 - zdt.seconds) as u64));
    }
    assert(buf@ == b1 + head_bytes(int_head(zdt.seconds as int)));
    push_head(buf, Head::Negative(NANOSECONDS_KEY));
    push_head(buf, Head::Positive(zdt.nanos as u64));
    push_head(buf, Head::Positive(TIME_ZONE_KEY));
    let ghost b2 = buf@;
    push_zone(buf, &zdt.zone);
    proof {
        let z = zone_text(zdt.zone@);
        assert(buf@ == b2 + text_item(z));
        lemma_time_item_parts(zdt@, b0, b1, b2, buf@);
    }
}

proof fn lemma_time_item_parts(t: ZonedView, b0: Seq<u8>, b1: Seq<u8>, b2: Seq<u8>, b3: Seq<u8>)
    requires
        b1 == b0 + head_bytes(Head::Tag(EXTENDED_TIME_TAG)) + head_bytes(Head::Pairs(3))
            + head_bytes(Head::Positive(BASE_TIME_KEY)),
        b2 == b1 + head_bytes(int_head(t.seconds)) + head_bytes(Head::Negative(NANOSECONDS_KEY))
            + head_bytes(Head::Positive(t.nanos as u64)) + head_bytes(Head::Positive(TIME_ZONE_KEY)),
        b3 == b2 + text_item(zone_text(t.zone)),
    ensures
        b3 == b0 + time_item(t),
{
    assert(b3 =~= b0 + time_item(t));
}

impl Note {
    /// Whether the note can be encoded: its timestamp is valid.
    pub fn is_valid(&self) -> (r: bool)
        ensures
            r == note_wf(self@),
    {
        let _ = self.note.as_str().as_bytes().len();
        let _ = self.children.len();
        self.datetime.is_valid()
    }

    /// Appends the payload of this note.
    pub fn ser_v0(&self, buf: &mut Vec<u8>)
        requires
            note_wf(self@),
        ensures
            final(buf)@ == old(buf)@ + encode_note(self@),
    {
        let ghost start = buf@;
        push_head(buf, Head::Array(3));
        push_text(buf, self.note.as_str());
        zoned_cbor_9581_ser(&self.datetime, buf);
        push_head(buf, Head::Array(self.children.len() as u64));
        let ghost before_ids = buf@;
        let mut i: usize = 0;
        while i < self.children.len()
            invariant
                i <= self.children@.len(),
                buf@ == before_ids + ids_items(self.children@.take(i as int)),
            decreases self.children@.len() - i,
        {
            let id = self.children[i];
            push_head(buf, Head::Tag(UUID_BYTES_TAG));
            push_head(buf, Head::Bytes(16));
            push_be(buf, id.0, 16);
            proof {
                lemma_ids_items_push(self.children@.take(i as int), id);
                assert(self.children@.take(i + 1) =~= self.children@.take(i as int).push(id));
            }
            i += 1;
        }
        assert(self.children@.take(i as int) =~= self.children@);
        assert(buf@ =~= start + encode_note(self@));
    }

    /// Reads a payload as a note, taking a zone name as it stands, without
    /// looking it up.
    pub fn parse_v0(b: &[u8]) -> (r: Result<Note, DecodeError>)
        ensures
            match note_at(b@) {
                Ok(n) => r matches Ok(m) && m@ == n,
                Err(e) => r == Err::<Note, DecodeError>(e),
            },
    {
        let pos1 = match expect(b, 0, Head::Array(3)) {
            Ok(q) => q,
            Err(e) => return Err(e),
        };
        let (s, e) = match text(b, pos1) {
            Ok(se) => se,
            Err(e) => return Err(e),
        };
        let note = match utf8_string(&b[s..e]) {
            Some(t) => t,
            None => return Err(DecodeError::InvalidUtf8),
        };
        let (datetime, pos3) = match zoned_cbor_9581_deser(b, e) {
            Ok(dq) => dq,
            Err(e) => return Err(e),
        };
        let (n, pos4): (u64, usize) = match head(b, pos3) {
            Some((Head::Array(n), q)) => (n, q),
            _ => return Err(DecodeError::Malformed),
        };
        let children = match read_ids(b, pos4, n) {
            Ok((c, _)) => c,
            Err(e) => return Err(e),
        };
        Ok(Note { note, datetime, children })
    }

    /// Reads a payload as a note, given whether the time-zone database
    /// knows the zone name that the payload holds (`zone_known`; not read
    /// where the zone is a fixed offset).
    pub fn deser_v0_with(b: &[u8], zone_known: bool) -> (r: Result<Note, DecodeError>)
        ensures
            match decode_result(b@, zone_known) {
                Ok(n) => r matches Ok(m) && m@ == n,
                Err(e) => r == Err::<Note, DecodeError>(e),
            },
    {
        let note = match Note::parse_v0(b) {
            Ok(n) => n,
            Err(e) => return Err(e),
        };
        match &note.datetime.zone {
            Zone::Named(_) => if !zone_known {
                return Err(DecodeError::UnknownZone);
            },
            Zone::Fixed(_) => {},
        }
        Ok(note)
    }

    /// Reads a payload as a note, looking a zone name up in the time-zone
    /// database: the result is that of `deser_v0_with` for the database's
    /// answer.
    pub fn deser_v0(b: &[u8]) -> (r: Result<Note, DecodeError>)
        ensures
            exists|known: bool|
                match #[trigger] decode_result(b@, known) {
                    Ok(n) => r matches Ok(m) && m@ == n,
                    Err(e) => r == Err::<Note, DecodeError>(e),
                },
    {
        let note = match Note::parse_v0(b) {
            Ok(n) => n,
            Err(e) => return Err(e),
        };
        let known = match &note.datetime.zone {
            Zone::Named(name) => zone_known(name.as_str()),
            Zone::Fixed(_) => true,
        };
        let r = Note::deser_v0_with(b, known);
        assert(match decode_result(b@, known) {
            Ok(n) => r matches Ok(m) && m@ == n,
            Err(e) => r == Err::<Note, DecodeError>(e),
        });
        r
    }

    /// The payload of this note.
    pub fn ser_v0_to_vec(&self) -> (r: Vec<u8>)
        requires
            note_wf(self@),
        ensures
            r@ == encode_note(self@),
    {
        let mut buf: Vec<u8> = Vec::new();
        self.ser_v0(&mut buf);
        assert(buf@ =~= encode_note(self@));
        buf
    }
}

/// Whether `s` stands in `b` at position `p`.
pub open spec fn matches_at(b: Seq<u8>, p: int, s: Seq<u8>) -> bool {
    &&& 0 <= p
    &&& p + s.len() <= b.len()
    &&& b.subrange(p, p + s.len()) == s
}

proof fn lemma_split(b: Seq<u8>, p: int, s1: Seq<u8>, s2: Seq<u8>)
    requires
        matches_at(b, p, s1 + s2),
    ensures
        matches_at(b, p, s1),
        matches_at(b, p + s1.len(), s2),
{
    let whole = b.subrange(p, p + (s1 + s2).len());
    assert(whole == s1 + s2);
    assert(b.subrange(p, p + s1.len()) =~= whole.subrange(0, s1.len() as int));
    assert(whole.subrange(0, s1.len() as int) =~= s1);
    assert(b.subrange(p + s1.len(), p + s1.len() + s2.len()) =~= whole.subrange(
        s1.len() as int,
        whole.len() as int,
    ));
    assert(whole.subrange(s1.len() as int, whole.len() as int) =~= s2);
}

proof fn lemma_head_at(b: Seq<u8>, p: int, h: Head)
    requires
        matches_at(b, p, head_bytes(h)),
    ensures
        head_at(b, p) == Some((h, p + head_bytes(h).len())),
        expect_at(b, p, h) == Ok::<int, DecodeError>(p + head_bytes(h).len()),
{
    let hb = head_bytes(h);
    let rest = b.subrange(p + hb.len(), b.len() as int);
    assert(b.subrange(p, b.len() as int) =~= hb + rest);
    lemma_parse_head_bytes(h, rest);
}

proof fn lemma_text_at(b: Seq<u8>, p: int, t: Seq<u8>)
    requires
        matches_at(b, p, text_item(t)),
        t.len() <= u64::MAX,
    ensures
        text_at(b, p) == Ok::<(Seq<u8>, int), DecodeError>((t, p + text_item(t).len())),
{
    let h = Head::Text(t.len() as u64);
    lemma_split(b, p, head_bytes(h), t);
    lemma_head_at(b, p, h);
}

proof fn lemma_offset_round_trip(m: int)
    requires
        offset_in_range(m),
    ensures
        is_offset_text(offset_text(m)),
        offset_minutes(offset_text(m)) == m,
{
    let a = if m < 0 { -m } else { m };
    assert(0 <= a <= 1559);
    let h = a / 60;
    let mm = a % 60;
    assert(0 <= h <= 25 && 0 <= mm < 60 && h * 60 + mm == a) by (nonlinear_arith)
        requires
            0 <= a <= 1559,
            h == a / 60,
            mm == a % 60,
    ;
    assert(h / 10 * 10 + h % 10 == h && 0 <= h / 10 <= 2 && 0 <= h % 10 < 10) by (nonlinear_arith)
        requires
            0 <= h <= 25,
    ;
    assert(mm / 10 * 10 + mm % 10 == mm && 0 <= mm / 10 < 6 && 0 <= mm % 10 < 10) by (nonlinear_arith)
        requires
            0 <= mm < 60,
    ;
}

proof fn lemma_zone_round_trip(z: ZoneView)
    requires
        zone_wf(z),
    ensures
        zone_of_text(zone_text(z)) == Ok::<ZoneView, DecodeError>(z),
{
    match z {
        ZoneView::Named(s) => {
            encode_utf8_valid_utf8(s);
            encode_utf8_decode_utf8(s);
        },
        ZoneView::Fixed(m) => {
            lemma_offset_round_trip(m);
        },
    }
}

proof fn lemma_time_round_trip(b: Seq<u8>, p: int, t: ZonedView)
    requires
        matches_at(b, p, time_item(t)),
        zoned_wf(t),
    ensures
        time_at(b, p) == Ok::<(ZonedView, int), DecodeError>((t, p + time_item(t).len())),
{
    reveal(time_at);
    let h1 = head_bytes(Head::Tag(EXTENDED_TIME_TAG));
    let h2 = head_bytes(Head::Pairs(3));
    let h3 = head_bytes(Head::Positive(BASE_TIME_KEY));
    let h4 = head_bytes(int_head(t.seconds));
    let h5 = head_bytes(Head::Negative(NANOSECONDS_KEY));
    let h6 = head_bytes(Head::Positive(t.nanos as u64));
    let h7 = head_bytes(Head::Positive(TIME_ZONE_KEY));
    let zt = zone_text(t.zone);
    let h8 = text_item(zt);
    let pos1 = p + h1.len();
    let pos2 = pos1 + h2.len();
    let pos3 = pos2 + h3.len();
    let pos4 = pos3 + h4.len();
    let pos5 = pos4 + h5.len();
    let pos6 = pos5 + h6.len();
    let pos7 = pos6 + h7.len();
    lemma_split(b, p, h1, h2 + (h3 + (h4 + (h5 + (h6 + (h7 + h8))))));
    lemma_split(b, pos1, h2, h3 + (h4 + (h5 + (h6 + (h7 + h8)))));
    lemma_split(b, pos2, h3, h4 + (h5 + (h6 + (h7 + h8))));
    lemma_split(b, pos3, h4, h5 + (h6 + (h7 + h8)));
    lemma_split(b, pos4, h5, h6 + (h7 + h8));
    lemma_split(b, pos5, h6, h7 + h8);
    lemma_split(b, pos6, h7, h8);
    lemma_head_at(b, p, Head::Tag(EXTENDED_TIME_TAG));
    lemma_head_at(b, pos1, Head::Pairs(3));
    lemma_head_at(b, pos2, Head::Positive(BASE_TIME_KEY));
    lemma_head_at(b, pos3, int_head(t.seconds));
    lemma_head_at(b, pos4, Head::Negative(NANOSECONDS_KEY));
    lemma_head_at(b, pos5, Head::Positive(t.nanos as u64));
    lemma_head_at(b, pos6, Head::Positive(TIME_ZONE_KEY));
    lemma_text_at(b, pos7, zt);
    lemma_zone_round_trip(t.zone);
    assert(time_item(t).len() == h1.len() + h2.len() + h3.len() + h4.len() + h5.len() + h6.len()
        + h7.len() + h8.len());
}

proof fn lemma_pow256_16()
    ensures
        pow256(16) == 0x1_0000_0000_0000_0000_0000_0000_0000_0000,
{
    reveal_with_fuel(pow256, 17);
}

proof fn lemma_id_round_trip(b: Seq<u8>, p: int, id: RecordId)
    requires
        matches_at(b, p, id_item(id)),
    ensures
        id_at(b, p) == Ok::<(RecordId, int), DecodeError>((id, p + id_item(id).len())),
{
    let h1 = head_bytes(Head::Tag(UUID_BYTES_TAG));
    let h2 = head_bytes(Head::Bytes(16));
    let v = be_bytes(id.0 as nat, 16);
    lemma_split(b, p, h1, h2 + v);
    lemma_split(b, p + h1.len(), h2, v);
    lemma_head_at(b, p, Head::Tag(UUID_BYTES_TAG));
    lemma_head_at(b, p + h1.len(), Head::Bytes(16));
    lemma_pow256_16();
    lemma_be_round_trip(id.0 as nat, 16);
}

proof fn lemma_ids_round_trip(b: Seq<u8>, p: int, s: Seq<RecordId>)
    requires
        matches_at(b, p, ids_items(s)),
    ensures
        ids_at(b, p, s.len()) == Ok::<(Seq<RecordId>, int), DecodeError>(
            (s, p + ids_items(s).len()),
        ),
    decreases s.len(),
{
    if s.len() == 0 {
        assert(s =~= seq![]);
    } else {
        let first = id_item(s[0]);
        lemma_split(b, p, first, ids_items(s.drop_first()));
        lemma_id_round_trip(b, p, s[0]);
        lemma_ids_round_trip(b, p + first.len(), s.drop_first());
        assert(seq![s[0]] + s.drop_first() =~= s);
    }
}

/// Decoding the payload of a valid note gives the note back: its text,
/// its instant and zone (named or fixed, before or after the epoch) and
/// its children in order.
pub proof fn lemma_round_trip(n: NoteView)
    requires
        note_wf(n),
    ensures
        note_at(encode_note(n)) == Ok::<NoteView, DecodeError>(n),
{
    let b = encode_note(n);
    let t = encode_utf8(n.text);
    let h1 = head_bytes(Head::Array(3));
    let h2 = text_item(t);
    let h3 = time_item(n.datetime);
    let h4 = head_bytes(Head::Array(n.children.len() as u64));
    let h5 = ids_items(n.children);
    let pos1 = h1.len() as int;
    let pos2 = pos1 + h2.len();
    let pos3 = pos2 + h3.len();
    let pos4 = pos3 + h4.len();
    assert(b.subrange(0, b.len() as int) =~= b);
    lemma_split(b, 0, h1, h2 + (h3 + (h4 + h5)));
    lemma_split(b, pos1, h2, h3 + (h4 + h5));
    lemma_split(b, pos2, h3, h4 + h5);
    lemma_split(b, pos3, h4, h5);
    lemma_head_at(b, 0, Head::Array(3));
    lemma_text_at(b, pos1, t);
    encode_utf8_valid_utf8(n.text);
    encode_utf8_decode_utf8(n.text);
    lemma_time_round_trip(b, pos2, n.datetime);
    lemma_head_at(b, pos3, Head::Array(n.children.len() as u64));
    lemma_ids_round_trip(b, pos4, n.children);
}

/// Decoding is strict: a payload whose first head is not an array of three
/// items, an extended time whose map is not of three pairs, and a child
/// identifier whose byte string is not of 16 bytes are each rejected as
/// malformed, never read some other way.
pub proof fn lemma_strict(b: Seq<u8>, p: int)
    ensures
        head_at(b, 0) matches Some((h, _)) && h != Head::Array(3) ==> note_at(b) == Err::<
            NoteView,
            DecodeError,
        >(DecodeError::Malformed),
        expect_at(b, p, Head::Tag(EXTENDED_TIME_TAG)) matches Ok(pos1) && head_at(b, pos1) matches Some(
            (h, _),
        ) && h != Head::Pairs(3) ==> time_at(b, p) == Err::<(ZonedView, int), DecodeError>(
            DecodeError::Malformed,
        ),
        expect_at(b, p, Head::Tag(UUID_BYTES_TAG)) matches Ok(pos1) && head_at(b, pos1) matches Some(
            (Head::Bytes(n), _),
        ) && n != 16 ==> id_at(b, p) == Err::<(RecordId, int), DecodeError>(DecodeError::Malformed),
{
    reveal(time_at);
}

} // verus!

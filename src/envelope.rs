//! Log records that carry notes: wrapping a note with its identifier, host
//! and index, and reading a note back out of a record.
use vstd::prelude::*;

use crate::cbor::pow256;
use crate::ids::{unix_millis, HostId, RecordId};
use crate::note::{decode_result, encode_note, note_wf, DecodeError, Note, NoteView};

verus! {

/// The schema family of note records in the log.
pub const TAG: &'static str = "note_lsm::note";

/// The schema revision of the note payload that this library reads and
/// writes.
pub const VERSION: &'static str = "v0";

/// A record of the append-only log, as the store hands it over.
#[derive(Clone, Debug, PartialEq, Eq)]
pub struct Envelope {
    pub id: RecordId,
    pub host: HostId,
    /// The position of the record in its host's stream for the tag,
    /// counting from 0.
    pub idx: u64,
    pub tag: String,
    pub version: String,
    /// The decrypted payload, or `None` where the record could not be
    /// decrypted.
    pub payload: Option<Vec<u8>>,
}

/// What a record is, as a mathematical value.
pub struct EnvelopeView {
    pub id: RecordId,
    pub host: HostId,
    pub idx: nat,
    pub tag: Seq<char>,
    pub version: Seq<char>,
    pub payload: Option<Seq<u8>>,
}

impl View for Envelope {
    type V = EnvelopeView;

    open spec fn view(&self) -> EnvelopeView {
        EnvelopeView {
            id: self.id,
            host: self.host,
            idx: self.idx as nat,
            tag: self.tag@,
            version: self.version@,
            payload: match self.payload {
                Some(p) => Some(p@),
                None => None,
            },
        }
    }
}

/// What reading a note out of a record gives, for a given answer of the
/// time-zone database on the zone name: no note (`Ok(None)`) where the
/// record has another schema revision or could not be decrypted, else the
/// decoded note or why decoding failed.
pub open spec fn unwrap_spec(e: EnvelopeView, known: bool) -> Result<Option<NoteView>, DecodeError> {
    if e.version != VERSION@ {
        Ok(None)
    } else {
        match e.payload {
            None => Ok(None),
            Some(p) => match decode_result(p, known) {
                Ok(n) => Ok(Some(n)),
                Err(x) => Err(x),
            },
        }
    }
}

/// The view of an unwrapping result.
pub open spec fn unwrapped_view(r: Result<Option<Note>, DecodeError>) -> Result<Option<NoteView>, DecodeError> {
    match r {
        Ok(Some(n)) => Ok(Some(n@)),
        Ok(None) => Ok(None),
        Err(x) => Err(x),
    }
}

/// Whether a record has the schema revision that this library reads.
pub fn is_current_version(version: &String) -> (r: bool)
    ensures
        r == (version@ == VERSION@),
{
    *version == VERSION.to_owned()
}

/// The record that carries `note` as record `idx` of `host`.
pub fn wrap(note: &Note, id: RecordId, host: HostId, idx: u64) -> (r: Envelope)
    requires
        note_wf(note@),
    ensures
        r.id == id,
        r.host == host,
        r.idx == idx,
        r.tag@ == TAG@,
        r.version@ == VERSION@,
        r.payload matches Some(p) && p@ == encode_note(note@),
{
    Envelope {
        id,
        host,
        idx,
        tag: TAG.to_owned(),
        version: VERSION.to_owned(),
        payload: Some(note.ser_v0_to_vec()),
    }
}

/// The index of the next record of a host, after the last one it wrote
/// (`None` where it wrote none).
pub fn next_idx(last: Option<u64>) -> (r: u64)
    requires
        last != Some(u64::MAX),
    ensures
        r == match last {
            Some(i) => i + 1,
            None => 0,
        },
{
    match last {
        Some(i) => i + 1,
        None => 0,
    }
}

/// The record that `host` writes for a new note, after its record `last`
/// (`None` where it wrote none): a new time-ordered identifier whose top 48
/// bits are the note's instant in milliseconds, the next index, and the
/// note's payload.
pub fn new_record(note: &Note, host: HostId, last: Option<u64>) -> (r: Envelope)
    requires
        note_wf(note@),
        last != Some(u64::MAX),
    ensures
        r.id.0 as nat / pow256(10) == unix_millis(note.datetime.seconds as u64, note.datetime.nanos)
            % pow256(6),
        r.host == host,
        r.idx == match last {
            Some(i) => i + 1,
            None => 0,
        },
        r.tag@ == TAG@,
        r.version@ == VERSION@,
        r.payload matches Some(p) && p@ == encode_note(note@),
{
    let id = RecordId::time_ordered(note.datetime.seconds, note.datetime.nanos);
    wrap(note, id, host, next_idx(last))
}

/// Reads the note out of a record, given the time-zone database's answer
/// on the zone name (`zone_known`).
pub fn unwrap_note_with(e: &Envelope, zone_known: bool) -> (r: Result<Option<Note>, DecodeError>)
    ensures
        unwrapped_view(r) == unwrap_spec(e@, zone_known),
{
    if !is_current_version(&e.version) {
        return Ok(None);
    }
    match &e.payload {
        None => Ok(None),
        Some(p) => match Note::deser_v0_with(p.as_slice(), zone_known) {
            Ok(n) => Ok(Some(n)),
            Err(x) => Err(x),
        },
    }
}

/// Reads the note out of a record, looking its zone name up in the
/// time-zone database: no note where the record has another schema
/// revision or could not be decrypted.
pub fn unwrap_note(e: &Envelope) -> (r: Result<Option<Note>, DecodeError>)
    ensures
        exists|known: bool| unwrapped_view(r) == #[trigger] unwrap_spec(e@, known),
{
    if !is_current_version(&e.version) {
        assert(unwrapped_view(Ok(None)) == unwrap_spec(e@, true));
        return Ok(None);
    }
    match &e.payload {
        None => {
            assert(unwrapped_view(Ok(None)) == unwrap_spec(e@, true));
            Ok(None)
        },
        Some(p) => {
            let d = Note::deser_v0(p.as_slice());
            let ghost known = choose|known: bool|
                match #[trigger] decode_result(p@, known) {
                    Ok(n) => d matches Ok(m) && m@ == n,
                    Err(x) => d == Err::<Note, DecodeError>(x),
                };
            let r = match d {
                Ok(n) => Ok(Some(n)),
                Err(x) => Err(x),
            };
            assert(unwrapped_view(r) == unwrap_spec(e@, known));
            r
        },
    }
}

} // verus!

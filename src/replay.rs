//! Consuming the per-host record streams: a cursor per host (the index of
//! the next record to read), advanced past every record that is read,
//! whether or not it holds a readable note.
use vstd::prelude::*;
use vstd::std_specs::hash::group_hash_axioms;

use std::collections::HashMap;

use crate::envelope::{unwrap_note, unwrap_spec, unwrapped_view, Envelope, EnvelopeView};
use crate::ids::{HostId, RecordId};
use crate::note::{DecodeError, Note, NoteView};

verus! {

broadcast use group_hash_axioms;

/// The largest number of records to ask the store for at once.
pub const BATCH_SIZE: u64 = 100;

/// The cursors of the hosts whose streams are being replayed.
pub struct Replayer {
    cursors: HashMap<u128, u64>,
}

/// A note read out of the log: its host, its identifier and the note.
pub type Visit = (HostId, RecordId, Note);

/// The view of visits.
pub open spec fn visits_view(v: Seq<Visit>) -> Seq<(HostId, RecordId, NoteView)> {
    v.map_values(|t: Visit| (t.0, t.1, t.2@))
}

/// What replaying a batch of records gives, for the time-zone database's
/// answers on each record (`known`): the notes read, in order, up to the
/// first record that fails to decode, and that failure.
pub open spec fn replay_spec(es: Seq<EnvelopeView>, known: Seq<bool>) -> (Seq<(HostId, RecordId, NoteView)>, Option<DecodeError>)
    decreases es.len(),
{
    if es.len() == 0 || known.len() != es.len() {
        (seq![], None)
    } else {
        let (v, err) = replay_spec(es.drop_last(), known.drop_last());
        if err is Some {
            (v, err)
        } else {
            match unwrap_spec(es.last(), known.last()) {
                Ok(None) => (v, None),
                Ok(Some(n)) => (v.push((es.last().host, es.last().id, n)), None),
                Err(x) => (v, Some(x)),
            }
        }
    }
}

/// The cursor after reading the first `k` records of a batch, from `old`:
/// one past the index of the last record read.
pub open spec fn cursor_after(old: nat, es: Seq<EnvelopeView>, k: nat) -> nat {
    if k == 0 {
        old
    } else {
        es[k - 1].idx + 1
    }
}

/// The cursor of a host in a map of cursors: 0 where it has none.
pub open spec fn cursor_in(m: Map<u128, u64>, host: HostId) -> nat {
    if m.contains_key(host.0) {
        m[host.0] as nat
    } else {
        0
    }
}

/// The note of an unwrapping result that holds one.
pub open spec fn note_of(r: Result<Option<NoteView>, DecodeError>) -> NoteView
    recommends
        r matches Ok(Some(_)),
{
    match r {
        Ok(Some(n)) => n,
        _ => arbitrary(),
    }
}

/// The views of a batch of records.
pub open spec fn envelopes_view(batch: Seq<Envelope>) -> Seq<EnvelopeView> {
    batch.map_values(|e: Envelope| e@)
}

/// Replaying records `es` of `host` read the first `k` of them, with
/// `known` the time-zone database's answers on them, and gave `visited`
/// and `error`; the cursors went from `before` to `after`: the read
/// records are all of them unless one failed to decode, that one being
/// the last read, and the host's cursor is one past the last read.
pub open spec fn batch_replayed(
    before: Map<u128, u64>,
    after: Map<u128, u64>,
    host: HostId,
    es: Seq<EnvelopeView>,
    k: nat,
    known: Seq<bool>,
    visited: Seq<(HostId, RecordId, NoteView)>,
    error: Option<DecodeError>,
) -> bool {
    &&& k <= es.len()
    &&& known.len() == k
    &&& (visited, error) == replay_spec(es.take(k as int), known)
    &&& (k < es.len() ==> error is Some)
    &&& (k > 0 && error is Some ==> replay_spec(es.take(k - 1), known.take(k - 1)).1 is None)
    &&& after == if k == 0 {
        before
    } else {
        before.insert(host.0, (es[k - 1].idx + 1) as u64)
    }
}

/// What came of replaying a batch: the notes read, in order, and the
/// decoding failure that stopped the replay, if any.
pub struct BatchOutcome {
    pub visited: Vec<Visit>,
    pub error: Option<DecodeError>,
}

impl Replayer {
    /// The cursors as a map from host to the index of its next record;
    /// a host that is not in it starts at 0.
    pub closed spec fn view(&self) -> Map<u128, u64> {
        self.cursors@
    }

    /// The cursor of a host.
    pub open spec fn cursor_of(&self, host: HostId) -> nat {
        cursor_in(self@, host)
    }

    /// No cursors: every host starts at 0.
    pub fn new() -> (r: Replayer)
        ensures
            r@ == Map::<u128, u64>::empty(),
    {
        Replayer { cursors: HashMap::new() }
    }

    /// The cursor of a host: the index of its next record to read.
    pub fn cursor(&self, host: HostId) -> (r: u64)
        ensures
            r == self.cursor_of(host),
    {
        match self.cursors.get(&host.0) {
            Some(c) => *c,
            None => 0,
        }
    }

    /// Where to start reading a host whose last record has index
    /// `last_idx`: at its cursor, or nowhere (`None`) where the cursor is
    /// already past it.
    pub fn start_for(&self, host: HostId, last_idx: u64) -> (r: Option<u64>)
        ensures
            r == if (last_idx as nat) < self.cursor_of(host) {
                None::<u64>
            } else {
                Some(self.cursor_of(host) as u64)
            },
    {
        let c = self.cursor(host);
        if last_idx < c {
            None
        } else {
            Some(c)
        }
    }

    /// Moves the cursor of a host past record `idx`, one that this host
    /// has just written itself.
    pub fn record_pushed(&mut self, host: HostId, idx: u64)
        requires
            idx < u64::MAX,
        ensures
            final(self)@ == old(self)@.insert(host.0, (idx + 1) as u64),
    {
        self.cursors.insert(host.0, idx + 1);
    }

    /// Replays a batch of records of `host`, read from its cursor on: for
    /// each record in turn, the cursor moves to one past its index before
    /// it is read, a record that holds no readable note is passed over,
    /// and one that fails to decode stops the replay. The result holds the
    /// notes read and that failure.
    pub fn replay_batch(&mut self, host: HostId, batch: &Vec<Envelope>) -> (r: BatchOutcome)
        requires
            forall|i: int| 0 <= i < batch@.len() ==> #[trigger] batch@[i].idx < u64::MAX,
        ensures
            exists|k: nat, known: Seq<bool>|
                #[trigger] batch_replayed(
                    old(self)@,
                    final(self)@,
                    host,
                    envelopes_view(batch@),
                    k,
                    known,
                    visits_view(r.visited@),
                    r.error,
                ),
    {
        let ghost es = envelopes_view(batch@);
        let mut visited: Vec<Visit> = Vec::new();
        let ghost mut known: Seq<bool> = seq![];
        let mut i: usize = 0;
        while i < batch.len()
            invariant
                i <= batch@.len(),
                es == envelopes_view(batch@),
                forall|j: int| 0 <= j < batch@.len() ==> #[trigger] batch@[j].idx < u64::MAX,
                known.len() == i,
                replay_spec(es.take(i as int), known) == (visits_view(visited@), None::<DecodeError>),
                self@ == if i == 0 {
                    old(self)@
                } else {
                    old(self)@.insert(host.0, (es[i - 1].idx + 1) as u64)
                },
            decreases batch@.len() - i,
        {
            let e = &batch[i];
            self.cursors.insert(host.0, e.idx + 1);
            let u = unwrap_note(e);
            let ghost k = choose|k: bool| unwrapped_view(u) == #[trigger] unwrap_spec(e@, k);
            let ghost before = visited@;
            proof {
                assert(es.take(i + 1).drop_last() =~= es.take(i as int));
                assert(known.push(k).drop_last() =~= known);
                assert(es[i as int] == e@);
                known = known.push(k);
            }
            match u {
                Ok(None) => {},
                Ok(Some(n)) => {
                    visited.push((e.host, e.id, n));
                    assert(visits_view(visited@) =~= visits_view(before).push((e.host, e.id, n@)));
                },
                Err(x) => {
                    assert(known.take(i as int) =~= known.drop_last());
                    assert(self@ =~= old(self)@.insert(host.0, (es[i as int].idx + 1) as u64));
                    let r = BatchOutcome { visited, error: Some(x) };
                    assert(batch_replayed(
                        old(self)@,
                        self@,
                        host,
                        es,
                        (i + 1) as nat,
                        known,
                        visits_view(r.visited@),
                        r.error,
                    ));
                    return r;
                },
            }
            assert(self@ =~= old(self)@.insert(host.0, (es[i as int].idx + 1) as u64));
            i += 1;
        }
        assert(es.take(i as int) =~= es);
        let r = BatchOutcome { visited, error: None };
        assert(batch_replayed(
            old(self)@,
            self@,
            host,
            es,
            i as nat,
            known,
            visits_view(r.visited@),
            r.error,
        ));
        r
    }
}

/// Replaying a batch as the store hands it over (indices increasing, the
/// first at or past the host's cursor) never moves a cursor back: the
/// host's cursor ends one past the greatest index read, and the other
/// hosts' cursors stay as they were.
pub proof fn lemma_cursor_monotone(
    before: Map<u128, u64>,
    after: Map<u128, u64>,
    host: HostId,
    es: Seq<EnvelopeView>,
    k: nat,
    known: Seq<bool>,
    visited: Seq<(HostId, RecordId, NoteView)>,
    error: Option<DecodeError>,
)
    requires
        batch_replayed(before, after, host, es, k, known, visited, error),
        forall|i: int, j: int| 0 <= i < j < es.len() ==> es[i].idx < es[j].idx,
        es.len() > 0 ==> es[0].idx >= cursor_in(before, host),
        forall|i: int| 0 <= i < es.len() ==> #[trigger] es[i].idx < u64::MAX,
    ensures
        cursor_in(after, host) >= cursor_in(before, host),
        k > 0 ==> cursor_in(after, host) == es[k - 1].idx + 1,
        forall|j: int| 0 <= j < k ==> #[trigger] es[j].idx < cursor_in(after, host),
        forall|h: HostId| h.0 != host.0 ==> cursor_in(after, h) == cursor_in(before, h),
{
    if k > 0 {
        assert(es[k - 1].idx >= es[0].idx);
        assert forall|j: int| 0 <= j < k implies #[trigger] es[j].idx < cursor_in(after, host) by {
            if j < k - 1 {
                assert(es[j].idx < es[k - 1].idx);
            }
        }
    }
}

proof fn lemma_replay_skip_then_notes(es: Seq<EnvelopeView>, known: Seq<bool>, m: nat)
    requires
        1 <= m <= es.len(),
        known.len() == es.len(),
        unwrap_spec(es[0], known[0]) == Ok::<Option<NoteView>, DecodeError>(None),
        forall|i: int| 1 <= i < m ==> #[trigger] unwrap_spec(es[i], known[i]) matches Ok(Some(_)),
    ensures
        replay_spec(es.take(m as int), known.take(m as int)).1 is None,
        replay_spec(es.take(m as int), known.take(m as int)).0.len() == m - 1,
        forall|j: int|
            0 <= j < m - 1 ==> #[trigger] replay_spec(es.take(m as int), known.take(m as int)).0[j]
                == (es[j + 1].host, es[j + 1].id, note_of(unwrap_spec(es[j + 1], known[j + 1]))),
    decreases m,
{
    let t = es.take(m as int);
    let kt = known.take(m as int);
    assert(t.last() == es[m - 1]);
    assert(kt.last() == known[m - 1]);
    assert(kt.len() == t.len());
    if m == 1 {
        assert(t.drop_last() =~= Seq::<EnvelopeView>::empty());
        assert(replay_spec(t.drop_last(), kt.drop_last()) == (
            Seq::<(HostId, RecordId, NoteView)>::empty(),
            None::<DecodeError>,
        ));
    } else {
        lemma_replay_skip_then_notes(es, known, (m - 1) as nat);
        assert(t.drop_last() =~= es.take(m - 1));
        assert(kt.drop_last() =~= known.take(m - 1));
        assert(unwrap_spec(es[m - 1], known[m - 1]) matches Ok(Some(_)));
    }
}

/// A record that holds no readable note does not stall the replay: where
/// the first record of a batch holds none, whatever the time-zone database
/// says, and each record after it yields a note, all of those notes are
/// read, in order, and the host's cursor ends one past the last record.
pub proof fn lemma_skip_does_not_stall(
    before: Map<u128, u64>,
    after: Map<u128, u64>,
    host: HostId,
    es: Seq<EnvelopeView>,
    k: nat,
    known: Seq<bool>,
    visited: Seq<(HostId, RecordId, NoteView)>,
    error: Option<DecodeError>,
)
    requires
        batch_replayed(before, after, host, es, k, known, visited, error),
        es.len() >= 1,
        forall|b: bool| #[trigger] unwrap_spec(es[0], b) == Ok::<Option<NoteView>, DecodeError>(None),
        forall|i: int| 1 <= i < k ==> #[trigger] unwrap_spec(es[i], known[i]) matches Ok(Some(_)),
        forall|i: int| 0 <= i < es.len() ==> #[trigger] es[i].idx < u64::MAX,
    ensures
        error is None,
        k == es.len(),
        visited.len() == es.len() - 1,
        forall|j: int|
            0 <= j < es.len() - 1 ==> #[trigger] visited[j] == (
                es[j + 1].host,
                es[j + 1].id,
                note_of(unwrap_spec(es[j + 1], known[j + 1])),
            ),
        cursor_in(after, host) == es[es.len() - 1].idx + 1,
{
    if k == 0 {
        assert(es.take(0) =~= Seq::<EnvelopeView>::empty());
        assert(error is None);
        assert(false);
    }
    let ek = es.take(k as int);
    assert(known.take(k as int) =~= known);
    lemma_replay_skip_then_notes(ek, known, k);
    assert(ek.take(k as int) =~= ek);
    if k < es.len() {
        assert(false);
    }
    assert(ek =~= es);
}

} // verus!

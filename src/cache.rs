//! The forest of observed notes: each note by identifier, and the roots,
//! the notes that no observed note lists as a child (the unprocessed ones).
use vstd::prelude::*;

use crate::ids::RecordId;
use crate::note::{Note, NoteView};

verus! {

/// Whether some note of `notes` lists `x` as a child.
pub open spec fn referenced(notes: Map<RecordId, NoteView>, x: RecordId) -> bool {
    exists|y: RecordId| #[trigger] notes.contains_key(y) && notes[y].children.contains(x)
}

/// Whether `x` is a root of `notes`: a note of it that none of it lists as
/// a child.
pub open spec fn is_root(notes: Map<RecordId, NoteView>, x: RecordId) -> bool {
    notes.contains_key(x) && !referenced(notes, x)
}

/// The roots of `notes`.
pub open spec fn roots_of(notes: Map<RecordId, NoteView>) -> Set<RecordId> {
    Set::new(|x: RecordId| is_root(notes, x))
}

/// Identifiers in strictly decreasing order.
pub open spec fn newest_first(s: Seq<RecordId>) -> bool {
    forall|i: int, j: int| 0 <= i < j < s.len() ==> s[i].0 > s[j].0
}

/// The entries hold each note of the index once.
pub closed spec fn entries_match(entries: Seq<(RecordId, Note)>, index: Map<RecordId, NoteView>) -> bool {
    &&& forall|i: int|
        0 <= i < entries.len() ==> #[trigger] index.contains_key(
            entries[i].0,
        ) && index[entries[i].0] == entries[i].1@
    &&& forall|k: RecordId|
        #[trigger] index.contains_key(k) ==> exists|i: int|
            0 <= i < entries.len() && #[trigger] entries[i].0 == k
    &&& forall|i: int, j: int|
        0 <= i < j < entries.len() ==> entries[i].0 != entries[j].0
}

/// The observed notes and their roots.
pub struct Cache {
    entries: Vec<(RecordId, Note)>,
    roots: Vec<RecordId>,
    index: Ghost<Map<RecordId, NoteView>>,
}

impl Cache {
    /// The observed notes, by identifier.
    pub closed spec fn notes(&self) -> Map<RecordId, NoteView> {
        self.index@
    }

    /// The roots, as this cache holds them.
    pub closed spec fn roots(&self) -> Seq<RecordId> {
        self.roots@
    }

    /// The entries hold each note of the index once.
    closed spec fn entries_wf(&self) -> bool {
        entries_match(self.entries@, self.index@)
    }

    /// The cache is consistent: each note once, and the roots are those of
    /// the notes, newest first.
    pub closed spec fn wf(&self) -> bool {
        &&& self.entries_wf()
        &&& newest_first(self.roots@)
        &&& forall|x: RecordId| #[trigger] self.roots@.contains(x) <==> is_root(self.index@, x)
    }

    /// An empty cache.
    pub fn new() -> (r: Cache)
        ensures
            r.wf(),
            r.notes() == Map::<RecordId, NoteView>::empty(),
    {
        Cache { entries: Vec::new(), roots: Vec::new(), index: Ghost(Map::empty()) }
    }

    /// Where the note `id` stands among the entries.
    fn position(&self, id: RecordId) -> (r: Option<usize>)
        requires
            self.entries_wf(),
        ensures
            match r {
                Some(i) => i < self.entries@.len() && self.entries@[i as int].0 == id,
                None => !self.notes().contains_key(id),
            },
    {
        let mut i: usize = 0;
        while i < self.entries.len()
            invariant
                i <= self.entries@.len(),
                forall|j: int| 0 <= j < i ==> self.entries@[j].0 != id,
            decreases self.entries@.len() - i,
        {
            if self.entries[i].0 == id {
                return Some(i);
            }
            i += 1;
        }
        None
    }

    /// The note `id`, where it has been observed.
    pub fn get_note(&self, id: RecordId) -> (r: Option<&Note>)
        requires
            self.wf(),
        ensures
            match r {
                Some(n) => self.notes().contains_key(id) && n@ == self.notes()[id],
                None => !self.notes().contains_key(id),
            },
    {
        match self.position(id) {
            Some(i) => {
                assert(self.index@.contains_key(self.entries@[i as int].0));
                Some(&self.entries[i].1)
            },
            None => None,
        }
    }

    /// The roots, newest first (in decreasing identifier order, which for
    /// time-ordered identifiers is reverse creation order).
    pub fn unprocessed(&self) -> (r: Vec<RecordId>)
        requires
            self.wf(),
        ensures
            newest_first(r@),
            forall|x: RecordId| #[trigger] r@.contains(x) <==> is_root(self.notes(), x),
    {
        let mut out: Vec<RecordId> = Vec::new();
        let mut i: usize = 0;
        while i < self.roots.len()
            invariant
                i <= self.roots@.len(),
                out@ == self.roots@.take(i as int),
            decreases self.roots@.len() - i,
        {
            out.push(self.roots[i]);
            assert(out@ =~= self.roots@.take(i + 1));
            i += 1;
        }
        assert(out@ =~= self.roots@);
        out
    }

    /// Observes a note: stores it under `id` (in place of any note stored
    /// there before), then brings the roots up to date. The roots are then
    /// exactly the observed notes that no observed note lists as a child,
    /// whatever order the notes came in.
    pub fn add_note(&mut self, id: RecordId, note: Note)
        requires
            old(self).wf(),
        ensures
            final(self).wf(),
            final(self).notes() == old(self).notes().insert(id, note@),
    {
        let ghost old_notes = self.index@;
        let ghost nv = note@;
        let mut touched: Vec<RecordId> = Vec::new();
        touched.push(id);
        append_ids(&mut touched, &note.children);
        let pos = self.position(id);
        match pos {
            Some(i) => {
                proof {
                    assert(old_notes.contains_key(self.entries@[i as int].0));
                }
                append_ids(&mut touched, &self.entries[i].1.children);
                self.entries[i] = (id, note);
            },
            None => {
                self.entries.push((id, note));
            },
        }
        self.index = Ghost(old_notes.insert(id, nv));
        proof {
            let new_notes = self.index@;
            assert forall|i: int|
                0 <= i < self.entries@.len() implies #[trigger] new_notes.contains_key(
                self.entries@[i].0,
            ) && new_notes[self.entries@[i].0] == self.entries@[i].1@ by {
                if self.entries@[i].0 != id {
                    assert(old_notes.contains_key(self.entries@[i].0));
                }
            }
            assert forall|k: RecordId| #[trigger] new_notes.contains_key(k) implies exists|i: int|
                0 <= i < self.entries@.len() && #[trigger] self.entries@[i].0 == k by {
                if k == id {
                    match pos {
                        Some(i) => assert(self.entries@[i as int].0 == k),
                        None => assert(self.entries@[self.entries@.len() - 1].0 == k),
                    }
                } else {
                    assert(old_notes.contains_key(k));
                    let i = choose|i: int| 0 <= i < old(self).entries@.len() && #[trigger] old(self).entries@[i].0 == k;
                    assert(self.entries@[i].0 == k);
                }
            }
            assert(self.entries_wf());
            assert forall|y: RecordId| !touched@.contains(y) implies (#[trigger] self.roots@.contains(y)
                <==> is_root(new_notes, y)) by {
                assert(y != id) by {
                    assert(touched@[0] == id);
                }
                assert(!nv.children.contains(y)) by {
                    if nv.children.contains(y) {
                        let c = choose|c: int| 0 <= c < nv.children.len() && nv.children[c] == y;
                        assert(touched@[1 + c] == y);
                    }
                }
                if old_notes.contains_key(id) {
                    assert(!old_notes[id].children.contains(y)) by {
                        let i = pos->0;
                        if old_notes[id].children.contains(y) {
                            let c = choose|c: int|
                                0 <= c < old_notes[id].children.len() && old_notes[id].children[c] == y;
                            assert(old(self).entries@[i as int].0 == id);
                            assert(touched@[1 + nv.children.len() + c] == y);
                        }
                    }
                }
                if referenced(new_notes, y) {
                    let z = choose|z: RecordId| #[trigger] new_notes.contains_key(z) && new_notes[z].children.contains(y);
                    assert(old_notes.contains_key(z));
                }
                if referenced(old_notes, y) {
                    let z = choose|z: RecordId| #[trigger] old_notes.contains_key(z) && old_notes[z].children.contains(y);
                    assert(new_notes.contains_key(z));
                }
            }
        }
        assert(touched@.subrange(0, touched@.len() as int) =~= touched@);
        let mut roots: Vec<RecordId> = Vec::new();
        std::mem::swap(&mut roots, &mut self.roots);
        let mut k: usize = 0;
        while k < touched.len()
            invariant
                self.entries_wf(),
                self.index@ == old_notes.insert(id, nv),
                newest_first(roots@),
                k <= touched@.len(),
                forall|y: RecordId|
                    !touched@.subrange(k as int, touched@.len() as int).contains(y) ==> (
                    #[trigger] roots@.contains(y) <==> is_root(self.index@, y)),
            decreases touched@.len() - k,
        {
            let x = touched[k];
            let present = self.position(x).is_some();
            let member = present && !self.referenced_by_any(x);
            set_root(&mut roots, x, member);
            proof {
                assert forall|y: RecordId|
                    !touched@.subrange(k + 1, touched@.len() as int).contains(y) implies (
                    #[trigger] roots@.contains(y) <==> is_root(self.index@, y)) by {
                    if y != x {
                        if touched@.subrange(k as int, touched@.len() as int).contains(y) {
                            let c = choose|c: int|
                                0 <= c < touched@.len() - k && touched@.subrange(k as int, touched@.len() as int)[c] == y;
                            assert(c != 0);
                            assert(touched@.subrange(k + 1, touched@.len() as int)[c - 1] == y);
                        }
                    }
                }
            }
            k += 1;
        }
        self.roots = roots;
        proof {
            assert forall|x: RecordId| #[trigger] self.roots@.contains(x) <==> is_root(self.index@, x) by {
                assert(!touched@.subrange(k as int, touched@.len() as int).contains(x));
            }
        }
    }

    /// Whether an observed note lists `x` as a child.
    fn referenced_by_any(&self, x: RecordId) -> (r: bool)
        requires
            self.entries_wf(),
        ensures
            r == referenced(self.notes(), x),
    {
        let mut i: usize = 0;
        while i < self.entries.len()
            invariant
                self.entries_wf(),
                i <= self.entries@.len(),
                forall|k: int| 0 <= k < i ==> !(#[trigger] self.entries@[k].1@.children.contains(x)),
            decreases self.entries@.len() - i,
        {
            let children = &self.entries[i].1.children;
            let mut j: usize = 0;
            while j < children.len()
                invariant
                    self.entries_wf(),
                    i < self.entries@.len(),
                    children@ == self.entries@[i as int].1.children@,
                    forall|k: int| 0 <= k < i ==> !(#[trigger] self.entries@[k].1@.children.contains(x)),
                    j <= children@.len(),
                    forall|l: int| 0 <= l < j ==> children@[l] != x,
                decreases children@.len() - j,
            {
                if children[j] == x {
                    proof {
                        let y = self.entries@[i as int].0;
                        assert(self.index@.contains_key(y));
                        assert(self.index@[y].children[j as int] == x);
                        assert(self.index@[y].children.contains(x));
                    }
                    return true;
                }
                j += 1;
            }
            assert(!self.entries@[i as int].1@.children.contains(x));
            i += 1;
        }
        proof {
            if referenced(self.notes(), x) {
                let y = choose|y: RecordId|
                    #[trigger] self.index@.contains_key(y) && self.index@[y].children.contains(x);
                let k = choose|k: int| 0 <= k < self.entries@.len() && #[trigger] self.entries@[k].0 == y;
                assert(self.entries@[k].1@.children.contains(x));
            }
        }
        false
    }
}

/// Appends the identifiers of `ids` to `out`.
fn append_ids(out: &mut Vec<RecordId>, ids: &Vec<RecordId>)
    ensures
        final(out)@ == old(out)@ + ids@,
{
    let ghost start = out@;
    let mut i: usize = 0;
    while i < ids.len()
        invariant
            i <= ids@.len(),
            out@ == start + ids@.take(i as int),
        decreases ids@.len() - i,
    {
        out.push(ids[i]);
        assert(out@ =~= start + ids@.take(i + 1));
        i += 1;
    }
    assert(ids@.take(i as int) =~= ids@);
}

/// Makes `x` a member of the strictly decreasing `roots` or not, as
/// `member` says.
fn set_root(roots: &mut Vec<RecordId>, x: RecordId, member: bool)
    requires
        newest_first(old(roots)@),
    ensures
        newest_first(final(roots)@),
        forall|y: RecordId|
            #[trigger] final(roots)@.contains(y) <==> if y == x {
                member
            } else {
                old(roots)@.contains(y)
            },
{
    let mut i: usize = 0;
    while i < roots.len() && roots[i].0 > x.0
        invariant
            i <= roots@.len(),
            forall|j: int| 0 <= j < i ==> roots@[j].0 > x.0,
        decreases roots@.len() - i,
    {
        i += 1;
    }
    let present = i < roots.len() && roots[i].0 == x.0;
    let ghost before = roots@;
    if member && !present {
        roots.insert(i, x);
        assert forall|y: RecordId| #[trigger] roots@.contains(y) <==> (if y == x {
            member
        } else {
            before.contains(y)
        }) by {
            if roots@.contains(y) && y != x {
                let k = choose|k: int| 0 <= k < roots@.len() && roots@[k] == y;
                if k < i {
                    assert(before[k] == y);
                } else {
                    assert(before[k - 1] == y);
                }
            }
            if before.contains(y) {
                let k = choose|k: int| 0 <= k < before.len() && before[k] == y;
                if k < i {
                    assert(roots@[k] == y);
                } else {
                    assert(roots@[k + 1] == y);
                }
            }
            if y == x {
                assert(roots@[i as int] == x);
            }
        }
    } else if !member && present {
        roots.remove(i);
        assert forall|y: RecordId| #[trigger] roots@.contains(y) <==> (if y == x {
            member
        } else {
            before.contains(y)
        }) by {
            if roots@.contains(y) {
                let k = choose|k: int| 0 <= k < roots@.len() && roots@[k] == y;
                if k < i {
                    assert(before[k] == y);
                } else {
                    assert(before[k + 1] == y);
                }
            }
            if before.contains(y) && y != x {
                let k = choose|k: int| 0 <= k < before.len() && before[k] == y;
                if k < i {
                    assert(roots@[k] == y);
                } else {
                    assert(k != i);
                    assert(roots@[k - 1] == y);
                }
            }
        }
    } else {
        assert forall|y: RecordId| #[trigger] roots@.contains(y) <==> (if y == x {
            member
        } else {
            before.contains(y)
        }) by {
            if y == x && before.contains(y) {
                let k = choose|k: int| 0 <= k < before.len() && before[k] == y;
                if k < i {
                } else if k > i {
                    assert(before[i as int].0 > before[k].0);
                }
            }
        }
    }
}

/// The roots depend on the observed notes alone: observing two different
/// notes in either order gives the same notes, hence the same roots.
pub proof fn lemma_observe_order_irrelevant(
    notes: Map<RecordId, NoteView>,
    a: RecordId,
    na: NoteView,
    b: RecordId,
    nb: NoteView,
)
    requires
        a != b,
    ensures
        notes.insert(a, na).insert(b, nb) == notes.insert(b, nb).insert(a, na),
        roots_of(notes.insert(a, na).insert(b, nb)) == roots_of(notes.insert(b, nb).insert(a, na)),
{
    assert(notes.insert(a, na).insert(b, nb) =~= notes.insert(b, nb).insert(a, na));
}

/// Once a note that lists `a` as a child is observed, `a` is not a root
/// (whether `a` came before it or after it); the note itself is a root
/// exactly when no observed note lists it.
pub proof fn lemma_child_is_not_root(notes: Map<RecordId, NoteView>, b: RecordId, nb: NoteView, a: RecordId)
    requires
        nb.children.contains(a),
    ensures
        !roots_of(notes.insert(b, nb)).contains(a),
        roots_of(notes.insert(b, nb)).contains(b) <==> !referenced(notes.insert(b, nb), b),
{
    let m = notes.insert(b, nb);
    assert(m.contains_key(b) && m[b].children.contains(a));
}

} // verus!

use note_lsm::{
    new_record, unwrap_note, wrap, BatchOutcome, Cache, DecodeError, Envelope, HostId, Note,
    RecordId, Replayer, Zone, ZonedTimestamp, BATCH_SIZE, TAG, VERSION,
};

const HOST1: HostId = HostId(0xa64b4e78_435d_45e1_a7f2_8a9d34f6074a);
const HOST2: HostId = HostId(0xf1ddfd0e_e3fd_47a7_9e6a_4998279546c9);

fn zoned(z: &jiff::Zoned) -> ZonedTimestamp {
    let ts = z.timestamp();
    ZonedTimestamp::from_parts(
        ts.as_second(),
        ts.subsec_nanosecond(),
        Zone::Named(z.time_zone().iana_name().unwrap().to_string()),
    )
}

fn at(zone: &str, y: i16, mo: i8, d: i8, h: i8, mi: i8, s: i8) -> ZonedTimestamp {
    let tz = jiff::tz::TimeZone::get(zone).unwrap();
    zoned(&jiff::civil::datetime(y, mo, d, h, mi, s, 0).to_zoned(tz).unwrap())
}

fn note(text: &str, children: Vec<RecordId>) -> Note {
    Note {
        note: text.to_string(),
        datetime: ZonedTimestamp { seconds: 1_700_000_000, nanos: 0, zone: Zone::Fixed(60) },
        children,
    }
}

/// An in-memory log of records, each host's stream in index order.
struct Log {
    hosts: Vec<(HostId, Vec<Envelope>)>,
}

impl Log {
    fn new() -> Self {
        Log { hosts: vec![] }
    }

    fn last(&self, host: HostId) -> Option<u64> {
        self.hosts.iter().find(|(h, _)| *h == host).and_then(|(_, es)| es.last().map(|e| e.idx))
    }

    fn push(&mut self, e: Envelope) {
        match self.hosts.iter_mut().find(|(h, _)| *h == e.host) {
            Some((_, es)) => es.push(e),
            None => self.hosts.push((e.host, vec![e])),
        }
    }

    fn next(&self, host: HostId, start: u64, limit: u64) -> Vec<Envelope> {
        self.hosts
            .iter()
            .find(|(h, _)| *h == host)
            .map(|(_, es)| {
                es.iter().filter(|e| e.idx >= start).take(limit as usize).cloned().collect()
            })
            .unwrap_or_default()
    }
}

/// A host that writes notes to the log and reads the others' back.
struct Client {
    host: HostId,
    replayer: Replayer,
}

impl Client {
    fn new(host: HostId) -> Self {
        Client { host, replayer: Replayer::new() }
    }

    fn add_record(&mut self, log: &mut Log, n: &Note) -> RecordId {
        let e = new_record(n, self.host, log.last(self.host));
        let (id, idx) = (e.id, e.idx);
        log.push(e);
        self.replayer.record_pushed(self.host, idx);
        id
    }

    fn load_notes(&mut self, log: &Log) -> Result<Vec<(HostId, RecordId, Note)>, DecodeError> {
        let mut out = vec![];
        for (host, _) in &log.hosts {
            let Some(last) = log.last(*host) else { continue };
            let Some(mut start) = self.replayer.start_for(*host, last) else { continue };
            loop {
                let batch = log.next(*host, start, BATCH_SIZE);
                if batch.is_empty() {
                    break;
                }
                let BatchOutcome { visited, error } = self.replayer.replay_batch(*host, &batch);
                out.extend(visited);
                if let Some(e) = error {
                    return Err(e);
                }
                start = self.replayer.cursor(*host);
            }
        }
        Ok(out)
    }
}

#[test]
fn round_trip() {
    let mut log = Log::new();
    let dt1 = at("Europe/Paris", 2023, 12, 19, 11, 19, 22);
    let dt2 = at("Europe/Paris", 2024, 11, 10, 12, 19, 22);
    let dt3 = at("Europe/London", 2024, 11, 9, 2, 0, 59);

    let mut client1 = Client::new(HOST1);
    let mut client2 = Client::new(HOST2);

    let n1 = Note { note: "Hello world".to_string(), children: vec![], datetime: dt1.clone() };
    let id1 = client1.add_record(&mut log, &n1);
    let n2 = Note { note: "Goodbye world".to_string(), children: vec![id1], datetime: dt2.clone() };
    let id2 = client1.add_record(&mut log, &n2);
    let n3 = Note { note: "Hello world again".to_string(), children: vec![], datetime: dt3.clone() };
    let id3 = client2.add_record(&mut log, &n3);

    let loaded1 = client1.load_notes(&log).unwrap();
    let loaded2 = client2.load_notes(&log).unwrap();

    assert_eq!(
        loaded1,
        [(
            HOST2,
            id3,
            Note { note: "Hello world again".to_string(), children: vec![], datetime: dt3 }
        )]
    );
    assert_eq!(
        loaded2,
        [
            (HOST1, id1, Note { note: "Hello world".to_string(), children: vec![], datetime: dt1 }),
            (
                HOST1,
                id2,
                Note { note: "Goodbye world".to_string(), children: vec![id1], datetime: dt2 }
            ),
        ]
    );

    // Nothing new: a second load reads nothing.
    assert_eq!(client2.load_notes(&log).unwrap(), []);
}

#[test]
fn new_record_carries_time_index_and_payload() {
    let n = note("a", vec![]);
    let e = new_record(&n, HOST1, None);
    assert_eq!(e.idx, 0);
    assert_eq!(e.host, HOST1);
    assert_eq!(e.tag, TAG);
    assert_eq!(e.version, VERSION);
    assert_eq!(e.id.0 >> 80, 1_700_000_000_000u128);
    assert_eq!((e.id.0 >> 76) & 0xf, 7);
    assert_eq!(e.payload.as_deref(), Some(n.ser_v0_to_vec().as_slice()));
    let e2 = new_record(&n, HOST1, Some(41));
    assert_eq!(e2.idx, 42);
    assert_ne!(e.id, e2.id);
}

#[test]
fn time_ordered_ids_follow_time() {
    let a = RecordId::time_ordered(1_000, 999_999_999);
    let b = RecordId::time_ordered(1_001, 0);
    assert_eq!(a.0 >> 80, 1_000_999);
    assert_eq!(b.0 >> 80, 1_001_000);
    assert!(a < b);
}

#[test]
fn unwrap_skips_other_versions_and_undecryptable() {
    let n = note("x", vec![]);
    let mut e = wrap(&n, RecordId(1), HOST1, 0);
    assert_eq!(unwrap_note(&e), Ok(Some(n.clone())));
    e.version = "v1".to_string();
    assert_eq!(unwrap_note(&e), Ok(None));
    e.version = VERSION.to_string();
    e.payload = None;
    assert_eq!(unwrap_note(&e), Ok(None));
    e.payload = Some(vec![0x82]);
    assert_eq!(unwrap_note(&e), Err(DecodeError::Malformed));
}

fn record(host: HostId, idx: u64, n: &Note) -> Envelope {
    wrap(n, RecordId(1000 + idx as u128), host, idx)
}

#[test]
fn cursor_moves_past_every_record_read() {
    let mut r = Replayer::new();
    assert_eq!(r.cursor(HOST1), 0);
    assert_eq!(r.start_for(HOST1, 3), Some(0));
    let batch: Vec<Envelope> = (0..4).map(|i| record(HOST1, i, &note("n", vec![]))).collect();
    let out = r.replay_batch(HOST1, &batch);
    assert_eq!(out.visited.len(), 4);
    assert_eq!(out.error, None);
    assert_eq!(r.cursor(HOST1), 4);
    assert_eq!(r.cursor(HOST2), 0);
    assert_eq!(r.start_for(HOST1, 3), None);
    assert_eq!(r.start_for(HOST1, 4), Some(4));
    // An empty batch leaves the cursor where it is.
    let out = r.replay_batch(HOST1, &vec![]);
    assert!(out.visited.is_empty());
    assert_eq!(r.cursor(HOST1), 4);
    // The next batch goes on from there.
    let more = vec![record(HOST1, 4, &note("m", vec![])), record(HOST1, 5, &note("o", vec![]))];
    r.replay_batch(HOST1, &more);
    assert_eq!(r.cursor(HOST1), 6);
}

#[test]
fn unreadable_record_does_not_stall() {
    let mut r = Replayer::new();
    let mut bad = record(HOST2, 0, &note("old", vec![]));
    bad.version = "v-older".to_string();
    let mut batch = vec![bad];
    for i in 1..4 {
        batch.push(record(HOST2, i, &note(&format!("n{i}"), vec![])));
    }
    let out = r.replay_batch(HOST2, &batch);
    assert_eq!(out.error, None);
    let texts: Vec<&str> = out.visited.iter().map(|(_, _, n)| n.note.as_str()).collect();
    assert_eq!(texts, ["n1", "n2", "n3"]);
    assert!(out.visited.iter().all(|(h, _, _)| *h == HOST2));
    assert_eq!(r.cursor(HOST2), 4);

    let mut undecryptable = record(HOST2, 4, &note("gone", vec![]));
    undecryptable.payload = None;
    let out = r.replay_batch(HOST2, &vec![undecryptable, record(HOST2, 5, &note("n5", vec![]))]);
    assert_eq!(out.visited.len(), 1);
    assert_eq!(r.cursor(HOST2), 6);
}

#[test]
fn corrupt_record_stops_the_batch() {
    let mut r = Replayer::new();
    let mut corrupt = record(HOST1, 1, &note("b", vec![]));
    corrupt.payload = Some(vec![0x83, 0x00]);
    let batch = vec![record(HOST1, 0, &note("a", vec![])), corrupt, record(HOST1, 2, &note("c", vec![]))];
    let out = r.replay_batch(HOST1, &batch);
    assert_eq!(out.error, Some(DecodeError::Malformed));
    assert_eq!(out.visited.len(), 1);
    assert_eq!(out.visited[0].2.note, "a");
    // The cursor is past the corrupt record and not past the one after it.
    assert_eq!(r.cursor(HOST1), 2);
}

#[test]
fn record_pushed_moves_own_cursor() {
    let mut r = Replayer::new();
    r.record_pushed(HOST1, 9);
    assert_eq!(r.cursor(HOST1), 10);
    assert_eq!(note_lsm::next_idx(None), 0);
    assert_eq!(note_lsm::next_idx(Some(9)), 10);
}

fn observe_all(notes: &[(RecordId, Note)]) -> Vec<RecordId> {
    let mut c = Cache::new();
    for (id, n) in notes {
        c.add_note(*id, n.clone());
    }
    c.unprocessed()
}

#[test]
fn child_is_not_a_root_in_either_order() {
    let a = RecordId(10);
    let b = RecordId(20);
    let na = note("a", vec![]);
    let nb = note("b", vec![a]);
    let forward = observe_all(&[(a, na.clone()), (b, nb.clone())]);
    let backward = observe_all(&[(b, nb), (a, na)]);
    assert_eq!(forward, [b]);
    assert_eq!(backward, [b]);
}

#[test]
fn two_hosts_end_to_end() {
    let h1a = RecordId(0x0100);
    let h1b = RecordId(0x0300);
    let h2a = RecordId(0x0200);
    let h2b = RecordId(0x0400);
    let n1a = (h1a, note("h1 first", vec![]));
    let n1b = (h1b, note("h1 second", vec![h1a]));
    let n2a = (h2a, note("h2 first", vec![]));
    let n2b = (h2b, note("h2 second", vec![]));
    let orders = [
        vec![n1a.clone(), n1b.clone(), n2a.clone(), n2b.clone()],
        vec![n2a.clone(), n2b.clone(), n1a.clone(), n1b.clone()],
        vec![n1a.clone(), n2a.clone(), n1b.clone(), n2b.clone()],
        vec![n2a.clone(), n1a.clone(), n2b.clone(), n1b.clone()],
    ];
    for order in &orders {
        assert_eq!(observe_all(order), [h2b, h1b, h2a]);
    }
}

#[test]
fn cache_replaces_and_looks_up_notes() {
    let mut c = Cache::new();
    let a = RecordId(1);
    let b = RecordId(2);
    assert!(c.get_note(a).is_none());
    assert!(c.unprocessed().is_empty());
    c.add_note(a, note("a", vec![]));
    c.add_note(b, note("b", vec![a]));
    assert_eq!(c.unprocessed(), [b]);
    assert_eq!(c.get_note(b).unwrap().note, "b");
    // Observing `b` again without children makes `a` a root again.
    c.add_note(b, note("b2", vec![]));
    assert_eq!(c.get_note(b).unwrap().note, "b2");
    assert_eq!(c.unprocessed(), [b, a]);
    // A note that lists itself is not a root; one that lists a note not
    // yet observed is.
    c.add_note(RecordId(3), note("self", vec![RecordId(3), RecordId(99)]));
    assert_eq!(c.unprocessed(), [b, a]);
    c.add_note(RecordId(99), note("late", vec![]));
    assert_eq!(c.unprocessed(), [b, a]);
}

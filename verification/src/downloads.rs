use vstd::prelude::*;
use vstd::string::StringExecFns;

use crate::text::str_eq;

verus! {

/// Whether the downloader must issue a network request for `path`: only
/// when no file exists there yet; an existing file counts as completed work.
pub open spec fn needs_request(fs: Map<Seq<char>, Seq<u8>>, path: Seq<char>) -> bool {
    !fs.dom().contains(path)
}

/// The filesystem after one downloader invocation that would fetch `body`:
/// an existing file is left exactly as it is, otherwise the body is written
/// to a new file at `path`.
pub open spec fn after_download(
    fs: Map<Seq<char>, Seq<u8>>,
    path: Seq<char>,
    body: Seq<u8>,
) -> Map<Seq<char>, Seq<u8>> {
    if fs.dom().contains(path) {
        fs
    } else {
        fs.insert(path, body)
    }
}

/// The downloader's decision given whether a regular file already exists at
/// the target path: fetch only when it is absent.
pub fn must_fetch(file_exists: bool) -> (r: bool)
    ensures
        r == !file_exists,
{
    !file_exists
}

/// Downloader idempotence: once a download of `path` has succeeded, a second
/// invocation with the same path makes no network request and changes
/// nothing, whatever the remote would have answered; the file keeps the
/// bytes of the first download (or of the file that was already there).
pub proof fn lemma_download_idempotent(
    fs: Map<Seq<char>, Seq<u8>>,
    path: Seq<char>,
    b1: Seq<u8>,
    b2: Seq<u8>,
)
    ensures
        !needs_request(after_download(fs, path, b1), path),
        after_download(after_download(fs, path, b1), path, b2) == after_download(fs, path, b1),
        after_download(fs, path, b1)[path] == if fs.dom().contains(path) {
            fs[path]
        } else {
            b1
        },
{
}

/// One attachment's fetch attempt: the target path and what the network
/// returned (`None` for a transport failure).
pub struct DownloadEvent {
    pub path: Seq<char>,
    pub outcome: Option<Seq<u8>>,
}

/// What a sequential download run over a filesystem yields: the filesystem
/// it leaves behind, whether every step succeeded, and how many network
/// requests were issued.
pub struct RunOutcome {
    pub fs: Map<Seq<char>, Seq<u8>>,
    pub ok: bool,
    pub requests: nat,
}

/// `r` with `n` more requests counted.
pub open spec fn add_requests(n: nat, r: RunOutcome) -> RunOutcome {
    RunOutcome { fs: r.fs, ok: r.ok, requests: r.requests + n }
}

/// The sequential download loop: events are processed in order; an existing
/// file is skipped without a request; a fetched body becomes a new file; the
/// first transport failure aborts the whole run at once, processing nothing
/// further.
pub open spec fn spec_run(fs: Map<Seq<char>, Seq<u8>>, events: Seq<DownloadEvent>) -> RunOutcome
    decreases events.len(),
{
    if events.len() == 0 {
        RunOutcome { fs, ok: true, requests: 0 }
    } else {
        let e = events.first();
        if fs.dom().contains(e.path) {
            spec_run(fs, events.drop_first())
        } else {
            match e.outcome {
                Some(body) => add_requests(1, spec_run(fs.insert(e.path, body), events.drop_first())),
                None => RunOutcome { fs, ok: false, requests: 1 },
            }
        }
    }
}

/// A run never removes or rewrites a file that already exists: whatever the
/// events hold, every file present before the run is present afterwards,
/// with its bytes unchanged.
pub proof fn lemma_run_preserves_existing(
    fs: Map<Seq<char>, Seq<u8>>,
    events: Seq<DownloadEvent>,
    p: Seq<char>,
)
    requires
        fs.dom().contains(p),
    ensures
        spec_run(fs, events).fs.dom().contains(p),
        spec_run(fs, events).fs[p] == fs[p],
    decreases events.len(),
{
    if events.len() > 0 {
        let e = events.first();
        if fs.dom().contains(e.path) {
            lemma_run_preserves_existing(fs, events.drop_first(), p);
        } else {
            match e.outcome {
                Some(body) => {
                    lemma_run_preserves_existing(fs.insert(e.path, body), events.drop_first(), p);
                },
                None => {},
            }
        }
    }
}

/// A run that reports success has completed every event: each target path,
/// skipped or fetched, names a file of the final filesystem.
pub proof fn lemma_successful_run_completes(fs: Map<Seq<char>, Seq<u8>>, events: Seq<DownloadEvent>)
    requires
        spec_run(fs, events).ok,
    ensures
        forall|k: int|
            0 <= k < events.len() ==> spec_run(fs, events).fs.dom().contains(events[k].path),
    decreases events.len(),
{
    if events.len() > 0 {
        let e = events.first();
        let rest = events.drop_first();
        assert(forall|k: int| 1 <= k < events.len() ==> rest[k - 1] == events[k]);
        if fs.dom().contains(e.path) {
            lemma_successful_run_completes(fs, rest);
            lemma_run_preserves_existing(fs, rest, e.path);
        } else {
            match e.outcome {
                Some(body) => {
                    let fs2 = fs.insert(e.path, body);
                    lemma_successful_run_completes(fs2, rest);
                    lemma_run_preserves_existing(fs2, rest, e.path);
                },
                None => {
                    assert(false);
                },
            }
        }
    }
}

/// A transport failure aborts the run where it happens: when the first `k`
/// events go through and event `k` fails at a path not yet on disk, the run
/// leaves exactly the files the first `k` events built, reports failure, and
/// has issued exactly one request more than the prefix did.
pub proof fn lemma_run_stops_at_failure(
    fs: Map<Seq<char>, Seq<u8>>,
    events: Seq<DownloadEvent>,
    k: int,
)
    requires
        0 <= k < events.len(),
        spec_run(fs, events.take(k)).ok,
        events[k].outcome is None,
        !spec_run(fs, events.take(k)).fs.dom().contains(events[k].path),
    ensures
        spec_run(fs, events).fs == spec_run(fs, events.take(k)).fs,
        !spec_run(fs, events).ok,
        spec_run(fs, events).requests == spec_run(fs, events.take(k)).requests + 1,
    decreases k,
{
    if k == 0 {
        assert(events.take(0) =~= Seq::<DownloadEvent>::empty());
    } else {
        let e = events[0];
        let tk = events.take(k);
        assert(tk.first() == e);
        assert(tk.drop_first() =~= events.drop_first().take(k - 1));
        assert(events.drop_first()[k - 1] == events[k]);
        if fs.dom().contains(e.path) {
            lemma_run_stops_at_failure(fs, events.drop_first(), k - 1);
        } else {
            match e.outcome {
                Some(body) => {
                    lemma_run_stops_at_failure(fs.insert(e.path, body), events.drop_first(), k - 1);
                },
                None => {
                    assert(false);
                },
            }
        }
    }
}

/// The mathematical value of one recorded fetch attempt.
pub open spec fn event_view(e: (String, Option<Vec<u8>>)) -> DownloadEvent {
    DownloadEvent {
        path: e.0@,
        outcome: match e.1 {
            Some(b) => Some(b@),
            None => None,
        },
    }
}

/// The mathematical values of a sequence of recorded fetch attempts.
pub open spec fn events_view(s: Seq<(String, Option<Vec<u8>>)>) -> Seq<DownloadEvent> {
    s.map_values(|e: (String, Option<Vec<u8>>)| event_view(e))
}

fn copy_bytes(v: &Vec<u8>) -> (r: Vec<u8>)
    ensures
        r@ == v@,
{
    let mut out: Vec<u8> = Vec::new();
    let mut i: usize = 0;
    while i < v.len()
        invariant
            i <= v@.len(),
            out@ == v@.subrange(0, i as int),
        decreases v@.len() - i,
    {
        out.push(v[i]);
        i += 1;
        proof {
            assert(v@.subrange(0, i as int) =~= v@.subrange(0, i - 1).push(v@[i - 1]));
        }
    }
    proof {
        assert(v@.subrange(0, v@.len() as int) =~= v@);
    }
    out
}

/// An in-memory image of the thread's output directory: each entry is a
/// path (relative to the output root) with the bytes of the file there.
pub struct FileStore {
    files: Vec<(String, Vec<u8>)>,
}

spec fn entries_map(s: Seq<(String, Vec<u8>)>) -> Map<Seq<char>, Seq<u8>>
    decreases s.len(),
{
    if s.len() == 0 {
        Map::empty()
    } else {
        entries_map(s.drop_last()).insert(s.last().0@, s.last().1@)
    }
}

proof fn lemma_entries_dom(s: Seq<(String, Vec<u8>)>, p: Seq<char>)
    ensures
        entries_map(s).dom().contains(p) <==> exists|k: int| 0 <= k < s.len() && s[k].0@ == p,
    decreases s.len(),
{
    if s.len() > 0 {
        lemma_entries_dom(s.drop_last(), p);
        assert(forall|k: int| 0 <= k < s.len() - 1 ==> s.drop_last()[k] == s[k]);
        if entries_map(s).dom().contains(p) {
            if s.last().0@ == p {
                assert(s[s.len() - 1].0@ == p);
            } else {
                let k = choose|k: int| 0 <= k < s.drop_last().len() && s.drop_last()[k].0@ == p;
                assert(s[k].0@ == p);
            }
        }
        if exists|k: int| 0 <= k < s.len() && s[k].0@ == p {
            let k = choose|k: int| 0 <= k < s.len() && s[k].0@ == p;
            if k < s.len() - 1 {
                assert(s.drop_last()[k].0@ == p);
            }
        }
    }
}

impl View for FileStore {
    type V = Map<Seq<char>, Seq<u8>>;

    closed spec fn view(&self) -> Map<Seq<char>, Seq<u8>> {
        entries_map(self.files@)
    }
}

impl FileStore {
    /// An empty output directory.
    pub fn new() -> (r: FileStore)
        ensures
            r@ == Map::<Seq<char>, Seq<u8>>::empty(),
    {
        FileStore { files: Vec::new() }
    }

    /// Whether a file already exists at `path`.
    pub fn contains_file(&self, path: &str) -> (r: bool)
        ensures
            r == self@.dom().contains(path@),
    {
        let mut i: usize = 0;
        while i < self.files.len()
            invariant
                i <= self.files@.len(),
                forall|k: int| 0 <= k < i ==> self.files@[k].0@ != path@,
            decreases self.files@.len() - i,
        {
            let entry = &self.files[i];
            if str_eq(entry.0.as_str(), path) {
                proof {
                    lemma_entries_dom(self.files@, path@);
                    assert(self.files@[i as int].0@ == path@);
                }
                return true;
            }
            i += 1;
        }
        proof {
            lemma_entries_dom(self.files@, path@);
        }
        false
    }

    /// The bytes of the file at `path`, if one exists.
    pub fn get_file(&self, path: &str) -> (r: Option<&Vec<u8>>)
        ensures
            match r {
                Some(b) => self@.dom().contains(path@) && b@ == self@[path@],
                None => !self@.dom().contains(path@),
            },
    {
        let mut i: usize = self.files.len();
        proof {
            assert(self.files@.subrange(0, self.files@.len() as int) =~= self.files@);
        }
        while i > 0
            invariant
                i <= self.files@.len(),
                entries_map(self.files@).dom().contains(path@) <==> entries_map(
                    self.files@.subrange(0, i as int),
                ).dom().contains(path@),
                entries_map(self.files@).dom().contains(path@) ==> entries_map(self.files@)[path@]
                    == entries_map(self.files@.subrange(0, i as int))[path@],
            decreases i,
        {
            proof {
                assert(self.files@.subrange(0, self.files@.len() as int) =~= self.files@);
                assert(self.files@.subrange(0, i as int).drop_last() =~= self.files@.subrange(
                    0,
                    i - 1,
                ));
                assert(self.files@.subrange(0, i as int).last() == self.files@[i - 1]);
            }
            let entry = &self.files[i - 1];
            if str_eq(entry.0.as_str(), path) {
                return Some(&entry.1);
            }
            i -= 1;
        }
        proof {
            assert(self.files@.subrange(0, self.files@.len() as int) =~= self.files@);
            assert(self.files@.subrange(0, 0) =~= Seq::<(String, Vec<u8>)>::empty());
        }
        None
    }

    /// One downloader invocation against this store: skipped without a
    /// request when the file exists, otherwise the fetched body becomes a
    /// new file, or a transport failure leaves the store unchanged. Returns
    /// whether a request was issued and whether the step succeeded.
    pub fn download(&mut self, path: &str, outcome: Option<&Vec<u8>>) -> (r: (bool, bool))
        ensures
            r.0 == needs_request(old(self)@, path@),
            match outcome {
                Some(body) => final(self)@ == after_download(old(self)@, path@, body@) && r.1,
                None => final(self)@ == old(self)@ && r.1 == !needs_request(old(self)@, path@),
            },
    {
        if self.contains_file(path) {
            (false, true)
        } else {
            match outcome {
                Some(body) => {
                    self.files.push((String::from_str(path), copy_bytes(body)));
                    proof {
                        assert(self.files@.drop_last() =~= old(self).files@);
                    }
                    (true, true)
                },
                None => (true, false),
            }
        }
    }

    /// The sequential download loop over this store: processes the events in
    /// order exactly as `spec_run` says, aborting at the first failure.
    /// Returns how many requests were issued and whether every step went
    /// through.
    pub fn run(&mut self, events: &Vec<(String, Option<Vec<u8>>)>) -> (r: (usize, bool))
        ensures
            final(self)@ == spec_run(old(self)@, events_view(events@)).fs,
            r.1 == spec_run(old(self)@, events_view(events@)).ok,
            r.0 as nat == spec_run(old(self)@, events_view(events@)).requests,
    {
        let total = events.len();
        let ghost orig = old(self)@;
        let ghost ev0 = events_view(events@);
        let mut i: usize = 0;
        let mut req: usize = 0;
        proof {
            assert(ev0.skip(0) =~= ev0);
        }
        while i < total
            invariant
                i <= total,
                req <= i,
                total == events@.len(),
                ev0 == events_view(events@),
                orig == old(self)@,
                spec_run(orig, ev0) == add_requests(req as nat, spec_run(self@, ev0.skip(i as int))),
            decreases total - i,
        {
            let ghost fs_pre = self@;
            let ghost req_pre = req as nat;
            let entry = &events[i];
            proof {
                assert(ev0[i as int] == event_view(events@[i as int]));
                assert(ev0.skip(i as int).first() == ev0[i as int]);
                assert(ev0.skip(i as int).drop_first() =~= ev0.skip(i as int + 1));
            }
            let stepped = match &entry.1 {
                Some(body) => self.download(entry.0.as_str(), Some(body)),
                None => self.download(entry.0.as_str(), None),
            };
            if stepped.0 {
                req += 1;
            }
            proof {
                let e = event_view(events@[i as int]);
                let ev_pre = ev0.skip(i as int);
                let ev_rest = ev0.skip(i as int + 1);
                assert(e.path == events@[i as int].0@);
                if !stepped.0 {
                    // the file was already there: a skip, nothing changed
                    assert(fs_pre.dom().contains(e.path));
                    assert(self@ == fs_pre);
                    assert(spec_run(fs_pre, ev_pre) == spec_run(self@, ev_rest));
                } else if stepped.1 {
                    // a fresh path and a fetched body: one more request
                    assert(!fs_pre.dom().contains(e.path));
                    match events@[i as int].1 {
                        Some(b) => {
                            assert(e.outcome == Some(b@));
                            assert(self@ == fs_pre.insert(e.path, b@));
                            assert(spec_run(fs_pre, ev_pre) == add_requests(
                                1,
                                spec_run(self@, ev_rest),
                            ));
                        },
                        None => {
                            assert(false);
                        },
                    }
                } else {
                    // a fresh path and a transport failure: the run aborts
                    assert(!fs_pre.dom().contains(e.path));
                    assert(e.outcome is None);
                    assert(spec_run(fs_pre, ev_pre) == RunOutcome {
                        fs: fs_pre,
                        ok: false,
                        requests: 1,
                    });
                    assert(spec_run(orig, ev0) == add_requests(
                        req_pre,
                        spec_run(fs_pre, ev_pre),
                    ));
                }
                assert(add_requests(req_pre, add_requests(1, spec_run(self@, ev_rest)))
                    == add_requests(req_pre + 1, spec_run(self@, ev_rest)));
            }
            if !stepped.1 {
                return (req, false);
            }
            i += 1;
        }
        proof {
            assert(ev0.skip(total as int) =~= Seq::<DownloadEvent>::empty());
        }
        (req, true)
    }
}

} // verus!

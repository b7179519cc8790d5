//! Models of the source tree and the destination file state.
//!
//! The walker and copier are verified against these models: a source
//! directory snapshot is a [`SrcNode`] tree whose leaves carry the stat
//! outcome and the bytes an open-and-read would yield, and the
//! destination is a [`DestState`] listing of files with their metadata
//! and contents.  The surrounding application feeds these models from
//! the real file system and executes the returned plan.

use vstd::prelude::*;

use crate::errors::SyncErrorV;

verus! {

/// Stat metadata of one file.
#[derive(Debug, Clone, Copy, PartialEq, Eq, Structural)]
pub struct FileMeta {
    /// Size in bytes.
    pub size: u64,
    /// Modification time, in seconds of some fixed epoch.
    pub mtime: u64,
}

/// One node of a source-tree snapshot.
#[derive(Debug)]
pub enum SrcNode {
    /// A regular file: its stat metadata, and the bytes an open-and-read
    /// yields (`None` when the file vanished between stat and open).
    File {
        /// Stat metadata.
        meta: FileMeta,
        /// Readable content, if the file can still be opened.
        content: Option<Vec<u8>>,
    },
    /// A directory and its named children.
    Dir {
        /// Child entries, in listing order.
        entries: Vec<(String, SrcNode)>,
    },
    /// An entry whose stat or listing fails.
    Unreadable,
}

/// A destination file: metadata and current contents.
#[derive(Debug, Clone, PartialEq, Eq)]
pub struct DestFile {
    /// Stat metadata.
    pub meta: FileMeta,
    /// Current contents.
    pub content: Vec<u8>,
}

/// Ghost image of a destination file.
pub struct DestFileV {
    /// Size in bytes.
    pub size: u64,
    /// Modification time.
    pub mtime: u64,
    /// Contents.
    pub content: Seq<u8>,
}

/// The ghost image of a destination file.
pub open spec fn dest_file_view(f: DestFile) -> DestFileV {
    DestFileV { size: f.meta.size, mtime: f.meta.mtime, content: f.content@ }
}

/// Look a path up in a destination listing; a later entry shadows an
/// earlier one with the same path.
pub open spec fn lookup(s: Seq<(Vec<String>, DestFile)>, k: Seq<Seq<char>>) -> Option<DestFileV>
    decreases s.len(),
{
    if s.len() == 0 {
        None
    } else if s.last().0.deep_view() == k {
        Some(dest_file_view(s.last().1))
    } else {
        lookup(s.drop_last(), k)
    }
}

/// The destination subtree as far as the engine observes it: which
/// files exist, with what metadata and contents.
#[derive(Debug, Clone, PartialEq, Eq)]
pub struct DestState {
    /// Files by relative path; a later entry shadows an earlier one.
    pub files: Vec<(Vec<String>, DestFile)>,
}

impl DestState {
    /// An empty destination.
    pub fn new() -> (r: Self)
        ensures
            r.files@.len() == 0,
    {
        DestState { files: Vec::new() }
    }

    /// Look up a file by its relative path.
    pub fn get(&self, path: &Vec<String>) -> (r: Option<&DestFile>)
        ensures
            match r {
                Some(f) => lookup(self.files@, path.deep_view()) == Some(dest_file_view(*f)),
                None => lookup(self.files@, path.deep_view()) is None,
            },
    {
        let mut i: usize = self.files.len();
        proof {
            assert(self.files@.subrange(0, self.files@.len() as int) =~= self.files@);
        }
        while i > 0
            invariant
                0 <= i <= self.files@.len(),
                lookup(self.files@, path.deep_view()) == lookup(
                    self.files@.subrange(0, i as int),
                    path.deep_view(),
                ),
            decreases i,
        {
            proof {
                assert(self.files@.subrange(0, i as int).last() == self.files@[i - 1]);
                assert(self.files@.subrange(0, i as int).drop_last() =~= self.files@.subrange(
                    0,
                    i - 1,
                ));
            }
            if path_eq(&self.files[i - 1].0, path) {
                return Some(&self.files[i - 1].1);
            }
            i = i - 1;
        }
        proof {
            assert(self.files@.subrange(0, 0) =~= Seq::<(Vec<String>, DestFile)>::empty());
        }
        None
    }

    /// Record a file at a relative path, replacing what the path held.
    pub fn put(&mut self, path: Vec<String>, f: DestFile)
        ensures
            final(self).files@ == old(self).files@.push((path, f)),
            forall|k: Seq<Seq<char>>|
                lookup(final(self).files@, k) == (if k == path.deep_view() {
                    Some(dest_file_view(f))
                } else {
                    lookup(old(self).files@, k)
                }),
    {
        let ghost old_files = self.files@;
        self.files.push((path, f));
        proof {
            assert forall|k: Seq<Seq<char>>|
                lookup(self.files@, k) == (if k == path.deep_view() {
                    Some(dest_file_view(f))
                } else {
                    lookup(old_files, k)
                }) by {
                assert(self.files@.last() == (path, f));
                assert(self.files@.drop_last() =~= old_files);
            }
        }
    }
}

/// Compare two relative paths segment by segment.
pub fn path_eq(a: &Vec<String>, b: &Vec<String>) -> (r: bool)
    ensures
        r == (a.deep_view() == b.deep_view()),
{
    if a.len() != b.len() {
        proof {
            assert(a.deep_view().len() != b.deep_view().len());
        }
        return false;
    }
    let mut i: usize = 0;
    while i < a.len()
        invariant
            0 <= i <= a@.len() == b@.len(),
            forall|j: int| 0 <= j < i ==> a.deep_view()[j] == b.deep_view()[j],
        decreases a@.len() - i,
    {
        if !(a[i] == b[i]) {
            proof {
                assert(a.deep_view()[i as int] != b.deep_view()[i as int]);
            }
            return false;
        }
        i = i + 1;
    }
    proof {
        assert(a.deep_view() =~= b.deep_view());
    }
    true
}

/// Ghost image of a copy job: the file's relative path, its stat
/// metadata, and what opening it yields.
pub struct JobV {
    /// Relative path segments.
    pub path: Seq<Seq<char>>,
    /// Size the stat promised.
    pub size: u64,
    /// Source modification time.
    pub mtime: u64,
    /// Bytes an open-and-read yields, or `None` when the open fails.
    pub content: Option<Seq<u8>>,
}

/// Ghost image of one step of the walker's plan.
pub enum ActionV {
    /// Ensure the destination directory exists.
    MkDir(Seq<Seq<char>>),
    /// Emit a copy job for the file.
    Emit(Seq<Seq<char>>),
    /// Skip the file: the destination already matches.
    SkipFile(Seq<Seq<char>>),
    /// Report the entry as unreadable.
    Report(Seq<Seq<char>>),
}

/// Everything one walk of a subtree produces: discovery counters, the
/// jobs emitted, the discovery errors, and the ordered plan.
#[verifier::ext_equal]
pub struct WalkSummary {
    /// Regular files found (matching or not).
    pub files_found: nat,
    /// Entries whose stat or listing fails.
    pub stat_failed: nat,
    /// Bytes of all files found.
    pub bytes_total: nat,
    /// Files skipped because the destination matches.
    pub files_skipped: nat,
    /// Bytes of the skipped files.
    pub bytes_skipped: nat,
    /// Copy jobs, in emission order.
    pub jobs: Seq<JobV>,
    /// Discovery errors, in emission order.
    pub errors: Seq<SyncErrorV>,
    /// The full plan, in execution order.
    pub actions: Seq<ActionV>,
}

/// The summary of walking nothing.
pub open spec fn summary_empty() -> WalkSummary {
    WalkSummary {
        files_found: 0,
        stat_failed: 0,
        bytes_total: 0,
        files_skipped: 0,
        bytes_skipped: 0,
        jobs: seq![],
        errors: seq![],
        actions: seq![],
    }
}

/// Combine the summaries of two consecutive walks.
pub open spec fn summary_add(a: WalkSummary, b: WalkSummary) -> WalkSummary {
    WalkSummary {
        files_found: a.files_found + b.files_found,
        stat_failed: a.stat_failed + b.stat_failed,
        bytes_total: a.bytes_total + b.bytes_total,
        files_skipped: a.files_skipped + b.files_skipped,
        bytes_skipped: a.bytes_skipped + b.bytes_skipped,
        jobs: a.jobs + b.jobs,
        errors: a.errors + b.errors,
        actions: a.actions + b.actions,
    }
}

/// The ghost image of an open outcome.
pub open spec fn opt_content_view(c: Option<Vec<u8>>) -> Option<Seq<u8>> {
    match c {
        Some(v) => Some(v@),
        None => None,
    }
}

/// What walking one node at `path` against destination `dest` produces.
///
/// A file is either skipped (destination matches) or emitted as a job;
/// an unreadable entry is reported and counts as an immediate failure;
/// a directory's own creation precedes the walk of its children.
pub open spec fn walk_spec(
    n: SrcNode,
    path: Seq<Seq<char>>,
    dest: Seq<(Vec<String>, DestFile)>,
) -> WalkSummary
    decreases n,
{
    match n {
        SrcNode::File { meta, content } => {
            if spec_cmp(lookup(dest, path), meta) {
                WalkSummary {
                    files_found: 1,
                    stat_failed: 0,
                    bytes_total: meta.size as nat,
                    files_skipped: 1,
                    bytes_skipped: meta.size as nat,
                    jobs: seq![],
                    errors: seq![],
                    actions: seq![ActionV::SkipFile(path)],
                }
            } else {
                WalkSummary {
                    files_found: 1,
                    stat_failed: 0,
                    bytes_total: meta.size as nat,
                    files_skipped: 0,
                    bytes_skipped: 0,
                    jobs: seq![
                        JobV {
                            path,
                            size: meta.size,
                            mtime: meta.mtime,
                            content: opt_content_view(content),
                        },
                    ],
                    errors: seq![],
                    actions: seq![ActionV::Emit(path)],
                }
            }
        },
        SrcNode::Unreadable => WalkSummary {
            files_found: 0,
            stat_failed: 1,
            bytes_total: 0,
            files_skipped: 0,
            bytes_skipped: 0,
            jobs: seq![],
            errors: seq![SyncErrorV::StatFailed { path }],
            actions: seq![ActionV::Report(path)],
        },
        SrcNode::Dir { entries } => summary_add(
            WalkSummary { actions: seq![ActionV::MkDir(path)], ..summary_empty() },
            walk_entries(entries@, path, dest),
        ),
    }
}

/// What walking a run of directory entries produces, in order.
pub open spec fn walk_entries(
    es: Seq<(String, SrcNode)>,
    path: Seq<Seq<char>>,
    dest: Seq<(Vec<String>, DestFile)>,
) -> WalkSummary
    decreases es,
{
    if es.len() == 0 {
        summary_empty()
    } else {
        summary_add(
            walk_entries(es.drop_last(), path, dest),
            walk_spec(es.last().1, path.push(es.last().0@), dest),
        )
    }
}

/// Whether a job will copy in full: the source opened and yields
/// exactly the announced size.
pub open spec fn job_ok(j: JobV) -> bool {
    j.content is Some && j.content->0.len() == j.size
}

/// How many of the jobs copy in full.
pub open spec fn jobs_done(js: Seq<JobV>) -> nat
    decreases js.len(),
{
    if js.len() == 0 {
        0
    } else {
        jobs_done(js.drop_last()) + if job_ok(js.last()) {
            1nat
        } else {
            0nat
        }
    }
}

/// How many of the jobs fail.
pub open spec fn jobs_failed(js: Seq<JobV>) -> nat
    decreases js.len(),
{
    if js.len() == 0 {
        0
    } else {
        jobs_failed(js.drop_last()) + if job_ok(js.last()) {
            0nat
        } else {
            1nat
        }
    }
}

/// Announced bytes over all jobs.
pub open spec fn jobs_bytes(js: Seq<JobV>) -> nat
    decreases js.len(),
{
    if js.len() == 0 {
        0
    } else {
        jobs_bytes(js.drop_last()) + js.last().size as nat
    }
}

/// Announced bytes over the jobs that copy in full.
pub open spec fn jobs_done_bytes(js: Seq<JobV>) -> nat
    decreases js.len(),
{
    if js.len() == 0 {
        0
    } else {
        jobs_done_bytes(js.drop_last()) + if job_ok(js.last()) {
            js.last().size as nat
        } else {
            0nat
        }
    }
}

/// Announced bytes over the jobs that fail as short copies.  A source
/// that cannot be opened fails before any byte accounting starts, so
/// it adds nothing here.
pub open spec fn jobs_failed_bytes(js: Seq<JobV>) -> nat
    decreases js.len(),
{
    if js.len() == 0 {
        0
    } else {
        jobs_failed_bytes(js.drop_last()) + (match js.last().content {
            Some(c) => if c.len() == js.last().size {
                0nat
            } else {
                js.last().size as nat
            },
            None => 0nat,
        })
    }
}

/// Bytes left in flight by short copies: written but never moved to
/// done nor subtracted, because terminal accounting took the failure
/// path.
pub open spec fn jobs_residue(js: Seq<JobV>) -> nat
    decreases js.len(),
{
    if js.len() == 0 {
        0
    } else {
        jobs_residue(js.drop_last()) + (match js.last().content {
            Some(c) => if c.len() == js.last().size {
                0nat
            } else {
                c.len()
            },
            None => 0nat,
        })
    }
}

/// The error a failing job reports.
pub open spec fn job_err(j: JobV) -> SyncErrorV {
    match j.content {
        None => SyncErrorV::CopyFailed { path: j.path },
        Some(c) => SyncErrorV::ShortCopy { path: j.path, copied: c.len() as u64, expected: j.size },
    }
}

/// The errors the failing jobs report, in order.
pub open spec fn jobs_errs(js: Seq<JobV>) -> Seq<SyncErrorV>
    decreases js.len(),
{
    if js.len() == 0 {
        seq![]
    } else {
        jobs_errs(js.drop_last()) + if job_ok(js.last()) {
            seq![]
        } else {
            seq![job_err(js.last())]
        }
    }
}

/// Destination contents after running the jobs against a base listing:
/// each full copy records the source bytes under its path, and the
/// source metadata becomes the destination metadata.
pub open spec fn lookup_after(
    js: Seq<JobV>,
    base: Seq<(Vec<String>, DestFile)>,
    k: Seq<Seq<char>>,
) -> Option<DestFileV>
    decreases js.len(),
{
    if js.len() == 0 {
        lookup(base, k)
    } else if job_ok(js.last()) && js.last().path == k {
        Some(DestFileV { size: js.last().size, mtime: js.last().mtime, content: js.last().content->0 })
    } else {
        lookup_after(js.drop_last(), base, k)
    }
}

/// Structural size of a node, used as a termination measure.
pub open spec fn node_size(n: SrcNode) -> nat
    decreases n,
{
    match n {
        SrcNode::File { .. } => 1,
        SrcNode::Unreadable => 1,
        SrcNode::Dir { entries } => 1 + entries_size(entries@),
    }
}

/// Structural size of a run of entries.
pub open spec fn entries_size(es: Seq<(String, SrcNode)>) -> nat
    decreases es,
{
    if es.len() == 0 {
        0
    } else {
        entries_size(es.drop_last()) + node_size(es.last().1)
    }
}

/// Each entry's node is no larger than the whole run.
pub proof fn lemma_entries_size_bound(es: Seq<(String, SrcNode)>, i: int)
    requires
        0 <= i < es.len(),
    ensures
        node_size(es[i].1) <= entries_size(es),
    decreases es.len(),
{
    if i == es.len() - 1 {
    } else {
        lemma_entries_size_bound(es.drop_last(), i);
    }
}

/// Adding the empty summary on the left changes nothing.
pub proof fn lemma_summary_add_empty_left(x: WalkSummary)
    ensures
        summary_add(summary_empty(), x) == x,
{
    assert(summary_add(summary_empty(), x) =~= x);
}

/// Summaries combine associatively.
pub proof fn lemma_summary_add_assoc(a: WalkSummary, b: WalkSummary, c: WalkSummary)
    ensures
        summary_add(summary_add(a, b), c) == summary_add(a, summary_add(b, c)),
{
    assert(summary_add(summary_add(a, b), c) =~= summary_add(a, summary_add(b, c)));
}

/// Walking two runs of entries one after the other sums their
/// summaries.
pub proof fn lemma_walk_entries_concat(
    a: Seq<(String, SrcNode)>,
    b: Seq<(String, SrcNode)>,
    path: Seq<Seq<char>>,
    dest: Seq<(Vec<String>, DestFile)>,
)
    ensures
        walk_entries(a + b, path, dest) == summary_add(
            walk_entries(a, path, dest),
            walk_entries(b, path, dest),
        ),
    decreases b.len(),
{
    if b.len() == 0 {
        assert(a + b =~= a);
        assert(summary_add(walk_entries(a, path, dest), summary_empty()) =~= walk_entries(
            a,
            path,
            dest,
        ));
    } else {
        assert((a + b).drop_last() =~= a + b.drop_last());
        assert((a + b).last() == b.last());
        lemma_walk_entries_concat(a, b.drop_last(), path, dest);
        lemma_summary_add_assoc(
            walk_entries(a, path, dest),
            walk_entries(b.drop_last(), path, dest),
            walk_spec(b.last().1, path.push(b.last().0@), dest),
        );
    }
}

/// The job folds split over concatenation.
pub proof fn lemma_jobs_concat(a: Seq<JobV>, b: Seq<JobV>)
    ensures
        jobs_done(a + b) == jobs_done(a) + jobs_done(b),
        jobs_failed(a + b) == jobs_failed(a) + jobs_failed(b),
        jobs_bytes(a + b) == jobs_bytes(a) + jobs_bytes(b),
        jobs_done_bytes(a + b) == jobs_done_bytes(a) + jobs_done_bytes(b),
        jobs_failed_bytes(a + b) == jobs_failed_bytes(a) + jobs_failed_bytes(b),
        jobs_residue(a + b) == jobs_residue(a) + jobs_residue(b),
        jobs_errs(a + b) == jobs_errs(a) + jobs_errs(b),
    decreases b.len(),
{
    if b.len() == 0 {
        assert(a + b =~= a);
        assert(jobs_errs(a) + jobs_errs(b) =~= jobs_errs(a));
    } else {
        assert((a + b).drop_last() =~= a + b.drop_last());
        assert((a + b).last() == b.last());
        lemma_jobs_concat(a, b.drop_last());
        assert(jobs_errs(a + b) =~= jobs_errs(a) + jobs_errs(b));
    }
}

/// Every file found is either skipped or emitted as a job; every
/// unreadable entry is reported; the bytes split the same way.
pub proof fn lemma_walk_consistent(
    n: SrcNode,
    path: Seq<Seq<char>>,
    dest: Seq<(Vec<String>, DestFile)>,
)
    ensures
        walk_spec(n, path, dest).files_skipped + walk_spec(n, path, dest).jobs.len() == walk_spec(
            n,
            path,
            dest,
        ).files_found,
        walk_spec(n, path, dest).bytes_skipped + jobs_bytes(walk_spec(n, path, dest).jobs)
            == walk_spec(n, path, dest).bytes_total,
        walk_spec(n, path, dest).errors.len() == walk_spec(n, path, dest).stat_failed,
    decreases n,
{
    match n {
        SrcNode::File { meta, content } => {
            let ws = walk_spec(n, path, dest);
            assert(ws.jobs.len() <= 1);
            if ws.jobs.len() == 1 {
                assert(ws.jobs.drop_last() =~= Seq::<JobV>::empty());
                assert(jobs_bytes(Seq::<JobV>::empty()) == 0);
                assert(jobs_bytes(ws.jobs) == meta.size as nat);
            }
        },
        SrcNode::Unreadable => {},
        SrcNode::Dir { entries } => {
            lemma_walk_entries_consistent(entries@, path, dest);
        },
    }
}

/// As [`lemma_walk_consistent`], over a run of entries.
pub proof fn lemma_walk_entries_consistent(
    es: Seq<(String, SrcNode)>,
    path: Seq<Seq<char>>,
    dest: Seq<(Vec<String>, DestFile)>,
)
    ensures
        walk_entries(es, path, dest).files_skipped + walk_entries(es, path, dest).jobs.len()
            == walk_entries(es, path, dest).files_found,
        walk_entries(es, path, dest).bytes_skipped + jobs_bytes(walk_entries(es, path, dest).jobs)
            == walk_entries(es, path, dest).bytes_total,
        walk_entries(es, path, dest).errors.len() == walk_entries(es, path, dest).stat_failed,
    decreases es,
{
    if es.len() == 0 {
    } else {
        lemma_walk_entries_consistent(es.drop_last(), path, dest);
        lemma_walk_consistent(es.last().1, path.push(es.last().0@), dest);
        lemma_jobs_concat(
            walk_entries(es.drop_last(), path, dest).jobs,
            walk_spec(es.last().1, path.push(es.last().0@), dest).jobs,
        );
    }
}

/// The conservative comparator: a destination counts as up to date
/// exactly when it exists, sizes agree, and it is no older than the
/// source.
pub open spec fn spec_cmp(dest: Option<DestFileV>, src: FileMeta) -> bool {
    &&& dest is Some
    &&& dest->0.size == src.size
    &&& dest->0.mtime >= src.mtime
}

/// Decide whether a destination file is up to date with its source, by
/// metadata alone.  Absence and any unreadable metadata count as "not
/// equal", so the file is recopied.
pub fn cmp_file(dest: Option<&DestFile>, src: &FileMeta) -> (r: bool)
    ensures
        r == spec_cmp(
            match dest {
                Some(f) => Some(dest_file_view(*f)),
                None => None,
            },
            *src,
        ),
{
    match dest {
        Some(f) => f.meta.size == src.size && f.meta.mtime >= src.mtime,
        None => false,
    }
}

} // verus!

//! The incremental mirror engine: walker, copier and sync driver.

use vstd::prelude::*;

use crate::errors::{err_view, SyncError, SyncErrorV};
use crate::fsmodel::{
    cmp_file, entries_size, job_err, job_ok, jobs_bytes, jobs_done, jobs_done_bytes, jobs_errs,
    jobs_failed, jobs_failed_bytes, jobs_residue, lemma_entries_size_bound, lemma_jobs_concat,
    lemma_summary_add_empty_left, lemma_walk_consistent, lemma_walk_entries_concat, lookup,
    lookup_after, node_size, opt_content_view, spec_cmp, summary_add, summary_empty, walk_entries,
    walk_spec, ActionV, DestFile, DestFileV, DestState, FileMeta, JobV, SrcNode, WalkSummary,
};
use crate::progress::{GlobalProgress, ProgressMilestone, ProgressTIDSF, TrackingWriter};

verus! {

/// A copy job: one file the walker found out of date, with what the
/// walker learned about it.
#[derive(Debug)]
pub struct CopyJob {
    /// Relative path of the file.
    pub path: Vec<String>,
    /// Size the stat promised.
    pub size: u64,
    /// Source modification time.
    pub mtime: u64,
    /// Bytes an open-and-read yields, or `None` when the open fails.
    pub content: Option<Vec<u8>>,
}

/// The ghost image of a copy job.
pub open spec fn job_view(j: CopyJob) -> JobV {
    JobV {
        path: j.path.deep_view(),
        size: j.size,
        mtime: j.mtime,
        content: opt_content_view(j.content),
    }
}

/// One step of the walker's plan, with paths as plain segment lists.
#[derive(Debug)]
pub enum WalkAction {
    /// Ensure the destination directory exists.
    MkDir {
        /// Relative path of the directory.
        path: Vec<String>,
    },
    /// Emit a copy job for the file.
    Emit {
        /// Relative path of the file.
        path: Vec<String>,
    },
    /// Skip the file: the destination already matches.
    SkipFile {
        /// Relative path of the file.
        path: Vec<String>,
    },
    /// Report the entry as unreadable.
    Report {
        /// Relative path of the entry.
        path: Vec<String>,
    },
}

/// The ghost image of a plan step.
pub open spec fn action_view(a: WalkAction) -> ActionV {
    match a {
        WalkAction::MkDir { path } => ActionV::MkDir(path.deep_view()),
        WalkAction::Emit { path } => ActionV::Emit(path.deep_view()),
        WalkAction::SkipFile { path } => ActionV::SkipFile(path.deep_view()),
        WalkAction::Report { path } => ActionV::Report(path.deep_view()),
    }
}

/// The ghost image of a job list.
pub open spec fn jobs_view(v: Seq<CopyJob>) -> Seq<JobV> {
    v.map_values(|j: CopyJob| job_view(j))
}

/// The ghost image of an error list.
pub open spec fn errs_view(v: Seq<SyncError>) -> Seq<SyncErrorV> {
    v.map_values(|e: SyncError| err_view(e))
}

/// The ghost image of a plan list.
pub open spec fn acts_view(v: Seq<WalkAction>) -> Seq<ActionV> {
    v.map_values(|a: WalkAction| action_view(a))
}

/// The copy-concurrency bound: a counting semaphore holding out at most
/// `max` permits at a time.
#[derive(Debug, Clone, Copy, PartialEq, Eq, Structural)]
pub struct Semaphore {
    /// Permits that may be out at once.
    pub max: usize,
    /// Permits currently out.
    pub held: usize,
}

impl Semaphore {
    /// No more than `max` permits are ever out.
    pub open spec fn wf(self) -> bool {
        self.held <= self.max
    }

    /// A semaphore with `max` permits, none held.
    pub fn new(max: usize) -> (r: Self)
        ensures
            r == (Semaphore { max, held: 0 }),
            r.wf(),
    {
        Semaphore { max, held: 0 }
    }

    /// Take a permit if one is free.
    pub fn try_acquire(&mut self) -> (got: bool)
        requires
            old(self).wf(),
        ensures
            final(self).wf(),
            got <==> old(self).held < old(self).max,
            final(self).max == old(self).max,
            final(self).held == (if got {
                old(self).held + 1
            } else {
                old(self).held as int
            }),
    {
        if self.held < self.max {
            self.held = self.held + 1;
            true
        } else {
            false
        }
    }

    /// Return a permit.
    pub fn release(&mut self)
        requires
            old(self).held >= 1,
        ensures
            *final(self) == (Semaphore { held: (old(self).held - 1) as usize, ..*old(self) }),
    {
        self.held = self.held - 1;
    }
}

/// How one job moves the global counters: a full copy lands in done; a
/// vanished source fails before any byte; a short copy fails with the
/// written bytes left in flight.
pub open spec fn copy_step(g: GlobalProgress, j: JobV) -> GlobalProgress {
    match j.content {
        None => GlobalProgress {
            files: ProgressTIDSF { failed: (g.files.failed + 1) as u64, ..g.files },
            ..g
        },
        Some(c) => if c.len() == j.size {
            GlobalProgress {
                files: ProgressTIDSF { done: (g.files.done + 1) as u64, ..g.files },
                bytes: ProgressTIDSF { done: (g.bytes.done + j.size) as u64, ..g.bytes },
            }
        } else {
            GlobalProgress {
                files: ProgressTIDSF { failed: (g.files.failed + 1) as u64, ..g.files },
                bytes: ProgressTIDSF {
                    failed: (g.bytes.failed + j.size) as u64,
                    in_progress: (g.bytes.in_progress + c.len()) as u64,
                    ..g.bytes
                },
            }
        },
    }
}

/// The counters after running a run of jobs in order.
pub open spec fn gp_after_copies(g: GlobalProgress, js: Seq<JobV>) -> GlobalProgress
    decreases js.len(),
{
    if js.len() == 0 {
        g
    } else {
        copy_step(gp_after_copies(g, js.drop_last()), js.last())
    }
}

/// The counters after the discovery phase of a walk.
pub open spec fn gp_after_discovery(g: GlobalProgress, ws: WalkSummary) -> GlobalProgress {
    GlobalProgress {
        files: ProgressTIDSF {
            total: (g.files.total + ws.files_found + ws.stat_failed) as u64,
            failed: (g.files.failed + ws.stat_failed) as u64,
            skipped: (g.files.skipped + ws.files_skipped) as u64,
            ..g.files
        },
        bytes: ProgressTIDSF {
            total: (g.bytes.total + ws.bytes_total) as u64,
            skipped: (g.bytes.skipped + ws.bytes_skipped) as u64,
            ..g.bytes
        },
    }
}

/// Copy bytes into a fresh vector.
fn copy_bytes(src: &Vec<u8>) -> (r: Vec<u8>)
    ensures
        r@ == src@,
{
    let mut r: Vec<u8> = Vec::new();
    let mut i: usize = 0;
    while i < src.len()
        invariant
            0 <= i <= src@.len(),
            r@ == src@.subrange(0, i as int),
        decreases src@.len() - i,
    {
        r.push(src[i]);
        proof {
            assert(r@ =~= src@.subrange(0, i + 1));
        }
        i = i + 1;
    }
    proof {
        assert(src@.subrange(0, src@.len() as int) =~= src@);
    }
    r
}

/// Copy a relative path into a fresh vector.
fn clone_path(p: &Vec<String>) -> (r: Vec<String>)
    ensures
        r.deep_view() == p.deep_view(),
{
    let mut r: Vec<String> = Vec::new();
    let mut i: usize = 0;
    while i < p.len()
        invariant
            0 <= i <= p@.len(),
            r@.len() == i,
            forall|j: int| 0 <= j < i ==> r@[j]@ == p@[j]@,
        decreases p@.len() - i,
    {
        let x = p[i].clone();
        r.push(x);
        i = i + 1;
    }
    proof {
        assert forall|j: int| 0 <= j < p@.len() implies r.deep_view()[j] == p.deep_view()[j] by {
            assert(r.deep_view()[j] == r@[j]@);
            assert(p.deep_view()[j] == p@[j]@);
        }
        assert(r.deep_view() =~= p.deep_view());
    }
    r
}

/// Append a cloned segment to a relative path.
fn push_seg(rel: &mut Vec<String>, name: &String)
    ensures
        final(rel)@.len() == old(rel)@.len() + 1,
        final(rel).deep_view() == old(rel).deep_view().push(name@),
{
    let ghost pre = rel@;
    let x = name.clone();
    rel.push(x);
    proof {
        assert forall|j: int| 0 <= j < rel@.len() implies rel.deep_view()[j]
            == pre.map_values(|s: String| s@).push(name@)[j] by {
            assert(rel.deep_view()[j] == rel@[j]@);
            if j < pre.len() {
                assert(rel@[j] == pre[j]);
            }
        }
        assert forall|j: int| 0 <= j < pre.len() implies old(rel).deep_view()[j] == pre[j]@ by {}
        assert(old(rel).deep_view() =~= pre.map_values(|s: String| s@));
        assert(rel.deep_view() =~= pre.map_values(|s: String| s@).push(name@));
    }
}

/// Remove the last segment of a relative path.
fn pop_seg(rel: &mut Vec<String>)
    requires
        old(rel)@.len() > 0,
    ensures
        final(rel)@.len() == old(rel)@.len() - 1,
        final(rel).deep_view() == old(rel).deep_view().drop_last(),
{
    let ghost pre = rel@;
    let _ = rel.pop();
    proof {
        assert(rel@ =~= pre.drop_last());
        assert forall|j: int| 0 <= j < rel@.len() implies rel.deep_view()[j]
            == old(rel).deep_view().drop_last()[j] by {
            assert(rel.deep_view()[j] == rel@[j]@);
            assert(rel@[j] == pre[j]);
            assert(old(rel).deep_view()[j] == pre[j]@);
        }
        assert(rel.deep_view() =~= old(rel).deep_view().drop_last());
    }
}

/// Walk one node of the source snapshot, accumulating discovery
/// counters, copy jobs, discovery errors and the ordered plan, exactly
/// as [`walk_spec`] describes.
pub fn walk(
    node: &SrcNode,
    rel: &mut Vec<String>,
    dest: &DestState,
    gp: &mut GlobalProgress,
    jobs: &mut Vec<CopyJob>,
    errors: &mut Vec<SyncError>,
    actions: &mut Vec<WalkAction>,
)
    requires
        old(gp).files.total + walk_spec(*node, old(rel).deep_view(), dest.files@).files_found
            + walk_spec(*node, old(rel).deep_view(), dest.files@).stat_failed <= u64::MAX,
        old(gp).files.failed + walk_spec(*node, old(rel).deep_view(), dest.files@).stat_failed
            <= u64::MAX,
        old(gp).files.skipped + walk_spec(*node, old(rel).deep_view(), dest.files@).files_skipped
            <= u64::MAX,
        old(gp).bytes.total + walk_spec(*node, old(rel).deep_view(), dest.files@).bytes_total
            <= u64::MAX,
        old(gp).bytes.skipped + walk_spec(*node, old(rel).deep_view(), dest.files@).bytes_skipped
            <= u64::MAX,
    ensures
        final(rel).deep_view() == old(rel).deep_view(),
        *final(gp) == gp_after_discovery(
            *old(gp),
            walk_spec(*node, old(rel).deep_view(), dest.files@),
        ),
        jobs_view(final(jobs)@) == jobs_view(old(jobs)@) + walk_spec(
            *node,
            old(rel).deep_view(),
            dest.files@,
        ).jobs,
        errs_view(final(errors)@) == errs_view(old(errors)@) + walk_spec(
            *node,
            old(rel).deep_view(),
            dest.files@,
        ).errors,
        acts_view(final(actions)@) == acts_view(old(actions)@)
            + walk_spec(*node, old(rel).deep_view(), dest.files@).actions,
    decreases node_size(*node),
{
    let ghost path = rel.deep_view();
    let ghost ws = walk_spec(*node, path, dest.files@);
    match node {
        SrcNode::File { meta, content } => {
            gp.discovered_file(meta.size);
            let d = dest.get(rel);
            if cmp_file(d, meta) {
                gp.skipped_file(meta.size);
                actions.push(WalkAction::SkipFile { path: clone_path(rel) });
                proof {
                    assert(spec_cmp(lookup(dest.files@, path), *meta));
                    assert(acts_view(actions@) =~= acts_view(old(actions)@) + ws.actions);
                    assert(jobs_view(jobs@) =~= jobs_view(old(jobs)@)
                        + ws.jobs);
                    assert(errs_view(errors@) =~= errs_view(old(errors)@) + ws.errors);
                }
            } else {
                let content_c = match content {
                    Some(c) => Some(copy_bytes(c)),
                    None => None,
                };
                jobs.push(
                    CopyJob { path: clone_path(rel), size: meta.size, mtime: meta.mtime, content: content_c },
                );
                actions.push(WalkAction::Emit { path: clone_path(rel) });
                proof {
                    assert(!spec_cmp(lookup(dest.files@, path), *meta));
                    assert(acts_view(actions@) =~= acts_view(old(actions)@) + ws.actions);
                    assert(jobs_view(jobs@) =~= jobs_view(old(jobs)@)
                        + ws.jobs);
                    assert(errs_view(errors@) =~= errs_view(old(errors)@) + ws.errors);
                }
            }
        },
        SrcNode::Unreadable => {
            gp.discovery_failed();
            errors.push(SyncError::StatFailed { path: clone_path(rel) });
            actions.push(WalkAction::Report { path: clone_path(rel) });
            proof {
                assert(acts_view(actions@) =~= acts_view(old(actions)@) + ws.actions);
                assert(jobs_view(jobs@) =~= jobs_view(old(jobs)@)
                    + ws.jobs);
                assert(errs_view(errors@) =~= errs_view(old(errors)@)
                    + ws.errors);
            }
        },
        SrcNode::Dir { entries } => {
            actions.push(WalkAction::MkDir { path: clone_path(rel) });
            let ghost g0 = *gp;
            let ghost jobs0 = jobs_view(jobs@);
            let ghost errors0 = errs_view(errors@);
            let ghost actions0 = acts_view(actions@);
            proof {
                assert(actions0 =~= acts_view(old(actions)@) + seq![
                    ActionV::MkDir(path),
                ]);
            }
            let mut i: usize = 0;
            while i < entries.len()
                invariant
                    0 <= i <= entries@.len(),
                    rel.deep_view() == path,
                    node_size(*node) == 1 + entries_size(entries@),
                    ws == walk_spec(*node, path, dest.files@),
                    ws == summary_add(
                        WalkSummary { actions: seq![ActionV::MkDir(path)], ..summary_empty() },
                        walk_entries(entries@, path, dest.files@),
                    ),
                    g0.files.total + ws.files_found + ws.stat_failed <= u64::MAX,
                    g0.files.failed + ws.stat_failed <= u64::MAX,
                    g0.files.skipped + ws.files_skipped <= u64::MAX,
                    g0.bytes.total + ws.bytes_total <= u64::MAX,
                    g0.bytes.skipped + ws.bytes_skipped <= u64::MAX,
                    *gp == gp_after_discovery(
                        g0,
                        walk_entries(entries@.subrange(0, i as int), path, dest.files@),
                    ),
                    jobs_view(jobs@) == jobs0 + walk_entries(
                        entries@.subrange(0, i as int),
                        path,
                        dest.files@,
                    ).jobs,
                    errs_view(errors@) == errors0 + walk_entries(
                        entries@.subrange(0, i as int),
                        path,
                        dest.files@,
                    ).errors,
                    acts_view(actions@) == actions0 + walk_entries(
                        entries@.subrange(0, i as int),
                        path,
                        dest.files@,
                    ).actions,
                decreases entries@.len() - i,
            {
                let ghost prefix = entries@.subrange(0, i as int);
                let ghost child_path = path.push(entries@[i as int].0@);
                let ghost child_ws = walk_spec(entries@[i as int].1, child_path, dest.files@);
                proof {
                    assert(entries@ =~= entries@.subrange(0, i as int) + entries@.subrange(
                        i as int,
                        entries@.len() as int,
                    ));
                    lemma_walk_entries_concat(
                        entries@.subrange(0, i as int),
                        entries@.subrange(i as int, entries@.len() as int),
                        path,
                        dest.files@,
                    );
                    assert(entries@.subrange(i as int, entries@.len() as int) =~= seq![
                        entries@[i as int],
                    ] + entries@.subrange(i + 1, entries@.len() as int));
                    lemma_walk_entries_concat(
                        seq![entries@[i as int]],
                        entries@.subrange(i + 1, entries@.len() as int),
                        path,
                        dest.files@,
                    );
                    assert(seq![entries@[i as int]].drop_last() =~= Seq::<(
                        String,
                        SrcNode,
                    )>::empty());
                    assert(walk_entries(
                        Seq::<(String, SrcNode)>::empty(),
                        path,
                        dest.files@,
                    ) == summary_empty());
                    assert(seq![entries@[i as int]].last() == entries@[i as int]);
                    lemma_summary_add_empty_left(child_ws);
                    assert(walk_entries(seq![entries@[i as int]], path, dest.files@) == child_ws);
                }
                proof {
                    lemma_entries_size_bound(entries@, i as int);
                }
                let (name, child) = &entries[i];
                push_seg(rel, name);
                proof {
                    assert(rel.deep_view() == child_path);
                }
                walk(child, rel, dest, gp, jobs, errors, actions);
                pop_seg(rel);
                proof {
                    assert(rel.deep_view() =~= path);
                    assert(entries@.subrange(0, i + 1).drop_last() =~= prefix);
                    assert(entries@.subrange(0, i + 1).last() == entries@[i as int]);
                    assert(walk_entries(entries@.subrange(0, i + 1), path, dest.files@)
                        == summary_add(walk_entries(prefix, path, dest.files@), child_ws));
                }
                i = i + 1;
            }
            proof {
                assert(entries@.subrange(0, entries@.len() as int) =~= entries@);
                assert(acts_view(actions@) =~= acts_view(old(actions)@) + ws.actions);
                assert(jobs_view(jobs@) =~= jobs_view(old(jobs)@)
                    + ws.jobs);
                assert(errs_view(errors@) =~= errs_view(old(errors)@)
                    + ws.errors);
            }
        },
    }
}

/// Copy one file: under a granted permit, stream the source bytes to
/// the destination through a tracking writer; account for a missing
/// permit, an unopenable source, or a size mismatch exactly as the
/// counters demand.
pub fn copy_file(
    job: &CopyJob,
    permit_granted: bool,
    gp: &mut GlobalProgress,
    dest: &mut DestState,
) -> (r: Result<u64, SyncError>)
    requires
        !(permit_granted && job_ok(job_view(*job))) ==> old(gp).files.failed < u64::MAX,
        permit_granted && job.content is Some ==> old(gp).files.in_progress < u64::MAX,
        permit_granted ==> (job.content matches Some(c) ==> old(gp).bytes.in_progress + c@.len()
            <= u64::MAX),
        permit_granted && job_ok(job_view(*job)) ==> old(gp).files.done < u64::MAX
            && old(gp).bytes.done + job.size <= u64::MAX,
        permit_granted && job.content is Some && !job_ok(job_view(*job)) ==> old(gp).bytes.failed
            + job.size <= u64::MAX,
    ensures
        r is Ok <==> permit_granted && job_ok(job_view(*job)),
        !permit_granted ==> {
            &&& r == Result::<u64, SyncError>::Err(SyncError::Cancelled)
            &&& *final(gp) == (GlobalProgress {
                files: ProgressTIDSF {
                    failed: (old(gp).files.failed + 1) as u64,
                    ..old(gp).files
                },
                ..*old(gp)
            })
            &&& final(dest).files@ == old(dest).files@
        },
        permit_granted ==> *final(gp) == copy_step(*old(gp), job_view(*job)),
        permit_granted && !job_ok(job_view(*job)) ==> {
            &&& r matches Err(e) && err_view(e) == job_err(job_view(*job))
            &&& final(dest).files@ == old(dest).files@
        },
        permit_granted && job_ok(job_view(*job)) ==> {
            &&& r == Result::<u64, SyncError>::Ok(job.size)
            &&& forall|k: Seq<Seq<char>>|
                lookup(final(dest).files@, k) == (if k == job_view(*job).path {
                    Some(DestFileV {
                        size: job.size,
                        mtime: job.mtime,
                        content: job_view(*job).content->0,
                    })
                } else {
                    lookup(old(dest).files@, k)
                })
        },
{
    if !permit_granted {
        gp.file_failed_early();
        return Err(SyncError::Cancelled);
    }
    match &job.content {
        None => {
            gp.file_failed_early();
            Err(SyncError::CopyFailed { path: clone_path(&job.path) })
        },
        Some(c) => {
            let mut w = TrackingWriter::new(job.size, gp);
            let n: u64 = c.len() as u64;
            let _due = w.on_write(n, gp);
            w.finalize(gp);
            if n == job.size {
                dest.put(
                    clone_path(&job.path),
                    DestFile {
                        meta: FileMeta { size: job.size, mtime: job.mtime },
                        content: copy_bytes(c),
                    },
                );
                Ok(n)
            } else {
                w.revert_progress(gp);
                Err(SyncError::ShortCopy {
                    path: clone_path(&job.path),
                    copied: n,
                    expected: job.size,
                })
            }
        },
    }
}

/// One per cent of the total, at least one: the stride of the
/// join-driven progress ticks.
pub fn one_pct(total: u64) -> (r: u64)
    ensures
        r == (if total / 100 == 0 {
            1u64
        } else {
            total / 100
        }),
{
    let p = total / 100;
    if p == 0 {
        1
    } else {
        p
    }
}

/// Whether enough completions have accumulated since the last progress
/// tick to owe the consumer a new one.
pub fn tick_due(completed: u64, last_reported: u64, stride: u64) -> (r: bool)
    requires
        completed >= last_reported,
    ensures
        r == (completed - last_reported >= stride),
{
    completed - last_reported >= stride
}

/// The folds over a single job.
pub proof fn lemma_jobs_single(j: JobV)
    ensures
        jobs_done(seq![j]) == (if job_ok(j) { 1nat } else { 0nat }),
        jobs_failed(seq![j]) == (if job_ok(j) { 0nat } else { 1nat }),
        jobs_bytes(seq![j]) == j.size as nat,
        jobs_done_bytes(seq![j]) == (if job_ok(j) { j.size as nat } else { 0nat }),
        jobs_failed_bytes(seq![j]) == (match j.content {
            Some(c) => if c.len() == j.size { 0nat } else { j.size as nat },
            None => 0nat,
        }),
        jobs_residue(seq![j]) == (match j.content {
            Some(c) => if c.len() == j.size { 0nat } else { c.len() },
            None => 0nat,
        }),
        jobs_errs(seq![j]) == (if job_ok(j) { Seq::<SyncErrorV>::empty() } else { seq![job_err(j)] }),
{
    assert(seq![j].drop_last() =~= Seq::<JobV>::empty());
    assert(jobs_done(Seq::<JobV>::empty()) == 0);
    assert(jobs_failed(Seq::<JobV>::empty()) == 0);
    assert(jobs_bytes(Seq::<JobV>::empty()) == 0);
    assert(jobs_done_bytes(Seq::<JobV>::empty()) == 0);
    assert(jobs_failed_bytes(Seq::<JobV>::empty()) == 0);
    assert(jobs_residue(Seq::<JobV>::empty()) == 0);
    assert(jobs_errs(Seq::<JobV>::empty()) == Seq::<SyncErrorV>::empty());
    if job_ok(j) {
        assert(jobs_errs(seq![j]) =~= Seq::<SyncErrorV>::empty());
    } else {
        assert(jobs_errs(seq![j]) =~= seq![job_err(j)]);
    }
}

/// Every job lands in exactly one terminal state, and its bytes with
/// it.
pub proof fn lemma_jobs_partition(js: Seq<JobV>)
    ensures
        jobs_done(js) + jobs_failed(js) == js.len(),
        jobs_done_bytes(js) + jobs_failed_bytes(js) <= jobs_bytes(js),
        jobs_errs(js).len() == jobs_failed(js),
    decreases js.len(),
{
    if js.len() > 0 {
        lemma_jobs_partition(js.drop_last());
    }
}

/// Running jobs moves each counter by the matching fold, and nothing
/// else.
pub proof fn lemma_gp_after_copies_counts(g: GlobalProgress, js: Seq<JobV>)
    requires
        g.files.done + jobs_done(js) <= u64::MAX,
        g.files.failed + jobs_failed(js) <= u64::MAX,
        g.bytes.done + jobs_done_bytes(js) <= u64::MAX,
        g.bytes.failed + jobs_failed_bytes(js) <= u64::MAX,
        g.bytes.in_progress + jobs_residue(js) <= u64::MAX,
    ensures
        gp_after_copies(g, js) == (GlobalProgress {
            files: ProgressTIDSF {
                done: (g.files.done + jobs_done(js)) as u64,
                failed: (g.files.failed + jobs_failed(js)) as u64,
                ..g.files
            },
            bytes: ProgressTIDSF {
                done: (g.bytes.done + jobs_done_bytes(js)) as u64,
                failed: (g.bytes.failed + jobs_failed_bytes(js)) as u64,
                in_progress: (g.bytes.in_progress + jobs_residue(js)) as u64,
                ..g.bytes
            },
        }),
    decreases js.len(),
{
    if js.len() > 0 {
        lemma_gp_after_copies_counts(g, js.drop_last());
        let pre = gp_after_copies(g, js.drop_last());
        let j = js.last();
        match j.content {
            None => {
                assert(copy_step(pre, j) == (GlobalProgress {
                    files: ProgressTIDSF { failed: (pre.files.failed + 1) as u64, ..pre.files },
                    ..pre
                }));
            },
            Some(c) => {
                if c.len() == j.size {
                } else {
                }
            },
        }
    }
}

/// What one `sync` run reports back to its consumer: the milestone
/// sequence, the errors in emission order, and the walker's plan.
#[derive(Debug)]
pub struct SyncReport {
    /// Milestones, in the order they fired.
    pub milestones: Vec<ProgressMilestone>,
    /// Discovery errors followed by copy errors, in order.
    pub errors: Vec<SyncError>,
    /// The walker's plan, in execution order.
    pub actions: Vec<WalkAction>,
}

/// The mirror engine for one source and destination root: global
/// progress and the copy-concurrency bound.
#[derive(Debug)]
pub struct SyncFS {
    /// Root the source snapshot is taken from.
    pub src_root: String,
    /// Root the mirrored files land under.
    pub dest_root: String,
    /// Global progress counters of this engine.
    pub progress: GlobalProgress,
    /// Concurrency bound for the copier pool.
    pub limit: Semaphore,
}

impl SyncFS {
    /// A fresh engine with zeroed counters and `max_concurrent`
    /// copy permits.
    pub fn new(src_root: String, dest_root: String, max_concurrent: usize) -> (r: Self)
        requires
            max_concurrent >= 1,
        ensures
            r.progress == GlobalProgress::spec_zero(),
            r.limit == (Semaphore { max: max_concurrent, held: 0 }),
            r.src_root@ == src_root@,
            r.dest_root@ == dest_root@,
    {
        SyncFS {
            src_root,
            dest_root,
            progress: GlobalProgress::new(),
            limit: Semaphore::new(max_concurrent),
        }
    }

    /// Mirror the source snapshot into the destination: walk, emit the
    /// discovery milestone, run every copy job in order under the
    /// permit bound with throttled progress ticks, and emit the
    /// completion milestone.
    ///
    /// When the counters start from zero, the run ends quiescent:
    /// every file is done, skipped or failed, none in progress.
    #[verifier::rlimit(100)]
    pub fn sync(&mut self, src: &SrcNode, dest: &mut DestState) -> (report: SyncReport)
        requires
            old(self).limit.held == 0,
            old(self).limit.max >= 1,
            old(self).progress.files.total + walk_spec(*src, Seq::empty(), old(dest).files@).files_found
                + walk_spec(*src, Seq::empty(), old(dest).files@).stat_failed <= u64::MAX,
            old(self).progress.files.failed + walk_spec(*src, Seq::empty(), old(dest).files@).stat_failed
                + jobs_failed(walk_spec(*src, Seq::empty(), old(dest).files@).jobs) <= u64::MAX,
            old(self).progress.files.skipped + walk_spec(*src, Seq::empty(), old(dest).files@).files_skipped
                <= u64::MAX,
            old(self).progress.files.done + jobs_done(walk_spec(*src, Seq::empty(), old(dest).files@).jobs)
                <= u64::MAX,
            old(self).progress.files.in_progress < u64::MAX,
            old(self).progress.bytes.total + walk_spec(*src, Seq::empty(), old(dest).files@).bytes_total
                <= u64::MAX,
            old(self).progress.bytes.skipped + walk_spec(*src, Seq::empty(), old(dest).files@).bytes_skipped
                <= u64::MAX,
            old(self).progress.bytes.done + jobs_done_bytes(walk_spec(*src, Seq::empty(), old(dest).files@).jobs)
                + jobs_residue(walk_spec(*src, Seq::empty(), old(dest).files@).jobs)
                + jobs_bytes(walk_spec(*src, Seq::empty(), old(dest).files@).jobs) <= u64::MAX,
            old(self).progress.bytes.failed + jobs_failed_bytes(walk_spec(*src, Seq::empty(), old(dest).files@).jobs)
                <= u64::MAX,
            old(self).progress.bytes.in_progress + jobs_residue(walk_spec(*src, Seq::empty(), old(dest).files@).jobs)
                + jobs_bytes(walk_spec(*src, Seq::empty(), old(dest).files@).jobs) <= u64::MAX,
        ensures
            final(self).src_root == old(self).src_root,
            final(self).dest_root == old(self).dest_root,
            final(self).limit == old(self).limit,
            final(self).progress == gp_after_copies(
                gp_after_discovery(
                    old(self).progress,
                    walk_spec(*src, Seq::empty(), old(dest).files@),
                ),
                walk_spec(*src, Seq::empty(), old(dest).files@).jobs,
            ),
            forall|k: Seq<Seq<char>>|
                lookup(final(dest).files@, k) == lookup_after(
                    walk_spec(*src, Seq::empty(), old(dest).files@).jobs,
                    old(dest).files@,
                    k,
                ),
            report.milestones@ == seq![
                ProgressMilestone::DiscoveryComplete,
                ProgressMilestone::CopyComplete,
            ],
            errs_view(report.errors@) == walk_spec(*src, Seq::empty(), old(dest).files@).errors
                + jobs_errs(walk_spec(*src, Seq::empty(), old(dest).files@).jobs),
            acts_view(report.actions@) == walk_spec(*src, Seq::empty(), old(dest).files@).actions,
            final(self).progress.files.in_progress == old(self).progress.files.in_progress,
            final(self).progress.files.done + final(self).progress.files.skipped + final(self).progress.files.failed - final(self).progress.files.total == old(self).progress.files.done + old(self).progress.files.skipped + old(self).progress.files.failed - old(self).progress.files.total,
            final(self).progress.bytes.done + final(self).progress.bytes.skipped + final(self).progress.bytes.failed - final(self).progress.bytes.total <= old(self).progress.bytes.done + old(self).progress.bytes.skipped + old(self).progress.bytes.failed - old(self).progress.bytes.total,
            old(self).progress == GlobalProgress::spec_zero() ==> {
                let g = final(self).progress;
                &&& g.files.done + g.files.skipped + g.files.failed == g.files.total
                &&& g.files.in_progress == 0
                &&& g.bytes.done + g.bytes.skipped + g.bytes.failed <= g.bytes.total
            },
    {
        let ghost base = dest.files@;
        let ghost ws = walk_spec(*src, Seq::empty(), base);
        let ghost g1 = gp_after_discovery(old(self).progress, ws);
        let mut rel: Vec<String> = Vec::new();
        let mut jobs: Vec<CopyJob> = Vec::new();
        let mut errors: Vec<SyncError> = Vec::new();
        let mut actions: Vec<WalkAction> = Vec::new();
        proof {
            assert(rel.deep_view() =~= Seq::<Seq<char>>::empty());
            assert(jobs_view(jobs@) =~= Seq::<JobV>::empty());
            assert(errs_view(errors@) =~= Seq::<SyncErrorV>::empty());
            assert(acts_view(actions@) =~= Seq::<ActionV>::empty());
        }
        walk(src, &mut rel, dest, &mut self.progress, &mut jobs, &mut errors, &mut actions);
        proof {
            assert(jobs_view(jobs@) =~= ws.jobs);
            assert(errs_view(errors@) =~= ws.errors);
            assert(acts_view(actions@) =~= ws.actions);
        }
        let mut milestones: Vec<ProgressMilestone> = Vec::new();
        milestones.push(ProgressMilestone::DiscoveryComplete);
        let stride = one_pct(jobs.len() as u64);
        let mut completed: u64 = 0;
        let mut last_tick: u64 = 0;
        let ghost n_jobs = ws.jobs.len();
        let mut i: usize = 0;
        proof {
            assert(ws.jobs.subrange(0, 0) =~= Seq::<JobV>::empty());
            assert(jobs_errs(Seq::<JobV>::empty()) =~= Seq::<SyncErrorV>::empty());
            assert(ws.errors + Seq::<SyncErrorV>::empty() =~= ws.errors);
        }
        while i < jobs.len()
            invariant
                0 <= i <= jobs@.len(),
                jobs@.len() == n_jobs,
                ws == walk_spec(*src, Seq::empty(), base),
                jobs_view(jobs@) == ws.jobs,
                self.src_root == old(self).src_root,
                self.dest_root == old(self).dest_root,
                self.limit == old(self).limit,
                self.limit.held == 0,
                self.limit.max >= 1,
                g1 == gp_after_discovery(old(self).progress, ws),
                self.progress == gp_after_copies(g1, ws.jobs.subrange(0, i as int)),
                forall|k: Seq<Seq<char>>|
                    lookup(dest.files@, k) == lookup_after(
                        ws.jobs.subrange(0, i as int),
                        base,
                        k,
                    ),
                errs_view(errors@) == ws.errors + jobs_errs(ws.jobs.subrange(0, i as int)),
                acts_view(actions@) == ws.actions,
                milestones@ == seq![ProgressMilestone::DiscoveryComplete],
                completed == i as u64,
                last_tick <= completed,
                old(self).progress.files.done + jobs_done(ws.jobs) <= u64::MAX,
                old(self).progress.files.failed + ws.stat_failed + jobs_failed(ws.jobs)
                    <= u64::MAX,
                old(self).progress.files.in_progress < u64::MAX,
                old(self).progress.bytes.done + jobs_done_bytes(ws.jobs) + jobs_residue(ws.jobs)
                    + jobs_bytes(ws.jobs) <= u64::MAX,
                old(self).progress.bytes.failed + jobs_failed_bytes(ws.jobs) <= u64::MAX,
                old(self).progress.bytes.in_progress + jobs_residue(ws.jobs) + jobs_bytes(ws.jobs)
                    <= u64::MAX,
            decreases jobs@.len() - i,
        {
            let ghost prefix = ws.jobs.subrange(0, i as int);
            let ghost j_v = ws.jobs[i as int];
            proof {
                assert(jobs_view(jobs@)[i as int] == job_view(jobs@[i as int]));
                assert(job_view(jobs@[i as int]) == j_v);
                assert(ws.jobs =~= prefix + ws.jobs.subrange(i as int, n_jobs as int));
                lemma_jobs_concat(prefix, ws.jobs.subrange(i as int, n_jobs as int));
                assert(ws.jobs.subrange(i as int, n_jobs as int) =~= seq![j_v]
                    + ws.jobs.subrange(i + 1, n_jobs as int));
                lemma_jobs_concat(seq![j_v], ws.jobs.subrange(i + 1, n_jobs as int));
                lemma_jobs_single(j_v);
                lemma_gp_after_copies_counts(g1, prefix);
            }
            let got = self.limit.try_acquire();
            proof {
                assert(got);
            }
            let r = copy_file(&jobs[i], got, &mut self.progress, dest);
            proof {
                assert(ws.jobs.subrange(0, i + 1).drop_last() =~= prefix);
                assert(ws.jobs.subrange(0, i + 1).last() == j_v);
                assert(self.progress == gp_after_copies(g1, ws.jobs.subrange(0, i + 1)));
                assert(jobs_errs(ws.jobs.subrange(0, i + 1)) == jobs_errs(prefix) + (
                if job_ok(j_v) {
                    Seq::<SyncErrorV>::empty()
                } else {
                    seq![job_err(j_v)]
                }));
            }
            match r {
                Ok(_) => {
                    proof {
                        assert(jobs_errs(prefix) + Seq::<SyncErrorV>::empty() =~= jobs_errs(
                            prefix,
                        ));
                    }
                },
                Err(e) => {
                    proof {
                        assert(!job_ok(j_v));
                        assert(err_view(e) == job_err(j_v));
                    }
                    let ghost pre_errs = errors@;
                    errors.push(e);
                    proof {
                        assert(errs_view(errors@) =~= errs_view(pre_errs).push(err_view(e)));
                        assert(ws.errors + jobs_errs(ws.jobs.subrange(0, i + 1)) =~= (ws.errors
                            + jobs_errs(prefix)).push(job_err(j_v)));
                    }
                },
            }
            self.limit.release();
            completed = completed + 1;
            if tick_due(completed, last_tick, stride) {
                last_tick = completed;
            }
            i = i + 1;
        }
        proof {
            assert(ws.jobs.subrange(0, n_jobs as int) =~= ws.jobs);
            lemma_gp_after_copies_counts(g1, ws.jobs);
            lemma_jobs_partition(ws.jobs);
            lemma_walk_consistent(*src, Seq::empty(), base);
        }
        milestones.push(ProgressMilestone::CopyComplete);
        proof {
            assert(milestones@ =~= seq![
                ProgressMilestone::DiscoveryComplete,
                ProgressMilestone::CopyComplete,
            ]);
        }
        SyncReport { milestones, errors, actions }
    }
}

/// The path a plan step names.
pub open spec fn path_of_action(a: ActionV) -> Seq<Seq<char>> {
    match a {
        ActionV::MkDir(p) => p,
        ActionV::Emit(p) => p,
        ActionV::SkipFile(p) => p,
        ActionV::Report(p) => p,
    }
}

/// `p` is a prefix of `q`, segment by segment.
pub open spec fn seq_is_prefix(p: Seq<Seq<char>>, q: Seq<Seq<char>>) -> bool {
    p.len() <= q.len() && q.subrange(0, p.len() as int) == p
}

/// Some failed directory is a prefix of `q` (or `q` itself).
pub open spec fn covered_by_failed(failed: Seq<Seq<Seq<char>>>, q: Seq<Seq<char>>) -> bool {
    exists|i: int| 0 <= i < failed.len() && seq_is_prefix(#[trigger] failed[i], q)
}

/// Some failed directory is a strict prefix of `q`.
pub open spec fn strictly_covered(failed: Seq<Seq<Seq<char>>>, q: Seq<Seq<char>>) -> bool {
    exists|i: int|
        0 <= i < failed.len() && seq_is_prefix(#[trigger] failed[i], q) && failed[i].len()
            < q.len()
}

/// `p` itself is one of the failed directories.
pub open spec fn failed_contains(failed: Seq<Seq<Seq<char>>>, p: Seq<Seq<char>>) -> bool {
    exists|i: int| 0 <= i < failed.len() && failed[i] == p
}

/// The plan that remains once the named directory creations failed:
/// every step at or under a failed directory is dropped.
pub open spec fn pruned_plan(acts: Seq<ActionV>, failed: Seq<Seq<Seq<char>>>) -> Seq<ActionV>
    decreases acts.len(),
{
    if acts.len() == 0 {
        seq![]
    } else {
        pruned_plan(acts.drop_last(), failed) + (if covered_by_failed(
            failed,
            path_of_action(acts.last()),
        ) {
            seq![]
        } else {
            seq![acts.last()]
        })
    }
}

/// The errors the failed directory creations report: one `CopyFailed`
/// per failed `MkDir` that was actually attempted (one whose parents
/// did not already fail), in plan order.
pub open spec fn prune_errors(acts: Seq<ActionV>, failed: Seq<Seq<Seq<char>>>) -> Seq<SyncErrorV>
    decreases acts.len(),
{
    if acts.len() == 0 {
        seq![]
    } else {
        prune_errors(acts.drop_last(), failed) + (if acts.last() is MkDir && failed_contains(
            failed,
            acts.last()->MkDir_0,
        ) && !strictly_covered(failed, acts.last()->MkDir_0) {
            seq![SyncErrorV::CopyFailed { path: acts.last()->MkDir_0 }]
        } else {
            seq![]
        })
    }
}

/// Nothing the pruned plan keeps lies at or under a failed directory:
/// in particular, no copy is emitted under a directory whose creation
/// failed, so that subtree is not traversed further.
pub proof fn lemma_pruned_plan_clear(acts: Seq<ActionV>, failed: Seq<Seq<Seq<char>>>)
    ensures
        forall|j: int|
            0 <= j < pruned_plan(acts, failed).len() ==> !covered_by_failed(
                failed,
                path_of_action(#[trigger] pruned_plan(acts, failed)[j]),
            ),
    decreases acts.len(),
{
    if acts.len() > 0 {
        lemma_pruned_plan_clear(acts.drop_last(), failed);
        let pre = pruned_plan(acts.drop_last(), failed);
        assert forall|j: int|
            0 <= j < pruned_plan(acts, failed).len() implies !covered_by_failed(
                failed,
                path_of_action(pruned_plan(acts, failed)[j]),
            ) by {
            if j < pre.len() {
                assert(pruned_plan(acts, failed)[j] == pre[j]);
            }
        }
    }
}

/// `p` is a prefix of `q`, segment by segment.
fn path_prefix(p: &Vec<String>, q: &Vec<String>) -> (r: bool)
    ensures
        r == seq_is_prefix(p.deep_view(), q.deep_view()),
{
    if p.len() > q.len() {
        return false;
    }
    let mut i: usize = 0;
    while i < p.len()
        invariant
            0 <= i <= p@.len() <= q@.len(),
            forall|j: int| 0 <= j < i ==> q.deep_view()[j] == p.deep_view()[j],
        decreases p@.len() - i,
    {
        if !(p[i] == q[i]) {
            proof {
                assert(p.deep_view()[i as int] == p@[i as int]@);
                assert(q.deep_view()[i as int] == q@[i as int]@);
                assert(q.deep_view().subrange(0, p.deep_view().len() as int) != p.deep_view())
                    by {
                    assert(q.deep_view().subrange(0, p.deep_view().len() as int)[i as int]
                        != p.deep_view()[i as int]);
                }
            }
            return false;
        }
        i = i + 1;
    }
    proof {
        assert(q.deep_view().subrange(0, p.deep_view().len() as int) =~= p.deep_view());
    }
    true
}

/// Whether some failed directory covers `q`, and whether strictly.
fn check_covered(failed: &Vec<Vec<String>>, q: &Vec<String>, strict: bool) -> (r: bool)
    ensures
        !strict ==> r == covered_by_failed(failed.deep_view(), q.deep_view()),
        strict ==> r == strictly_covered(failed.deep_view(), q.deep_view()),
{
    let mut i: usize = 0;
    while i < failed.len()
        invariant
            0 <= i <= failed@.len(),
            failed@.len() == failed.deep_view().len(),
            !strict ==> forall|j: int|
                0 <= j < i ==> !seq_is_prefix(#[trigger] failed.deep_view()[j], q.deep_view()),
            strict ==> forall|j: int|
                0 <= j < i ==> !(seq_is_prefix(#[trigger] failed.deep_view()[j], q.deep_view())
                    && failed.deep_view()[j].len() < q.deep_view().len()),
        decreases failed@.len() - i,
    {
        proof {
            assert(failed.deep_view()[i as int] == failed@[i as int].deep_view());
        }
        if path_prefix(&failed[i], q) && (!strict || failed[i].len() < q.len()) {
            return true;
        }
        i = i + 1;
    }
    false
}

/// Whether `p` itself is one of the failed directories.
fn check_contains(failed: &Vec<Vec<String>>, p: &Vec<String>) -> (r: bool)
    ensures
        r == failed_contains(failed.deep_view(), p.deep_view()),
{
    let mut i: usize = 0;
    while i < failed.len()
        invariant
            0 <= i <= failed@.len(),
            failed@.len() == failed.deep_view().len(),
            forall|j: int| 0 <= j < i ==> #[trigger] failed.deep_view()[j] != p.deep_view(),
        decreases failed@.len() - i,
    {
        proof {
            assert(failed.deep_view()[i as int] == failed@[i as int].deep_view());
        }
        if crate::fsmodel::path_eq(&failed[i], p) {
            return true;
        }
        i = i + 1;
    }
    false
}

/// Rework the plan after the named directory creations failed: each
/// attempted-and-failed `MkDir` becomes a `CopyFailed` error, and
/// every step at or under a failed directory is dropped, so nothing
/// in that subtree is copied or traversed further.
pub fn apply_mkdir_failures(actions: &Vec<WalkAction>, failed: &Vec<Vec<String>>) -> (r: (
    Vec<WalkAction>,
    Vec<SyncError>,
))
    ensures
        acts_view(r.0@) == pruned_plan(acts_view(actions@), failed.deep_view()),
        errs_view(r.1@) == prune_errors(acts_view(actions@), failed.deep_view()),
        forall|j: int|
            0 <= j < r.0@.len() ==> !covered_by_failed(
                failed.deep_view(),
                path_of_action(#[trigger] acts_view(r.0@)[j]),
            ),
{
    let mut kept: Vec<WalkAction> = Vec::new();
    let mut errors: Vec<SyncError> = Vec::new();
    let ghost av = acts_view(actions@);
    let ghost fv = failed.deep_view();
    let mut i: usize = 0;
    proof {
        assert(acts_view(kept@) =~= pruned_plan(av.subrange(0, 0), fv));
        assert(errs_view(errors@) =~= prune_errors(av.subrange(0, 0), fv));
    }
    while i < actions.len()
        invariant
            0 <= i <= actions@.len(),
            av == acts_view(actions@),
            fv == failed.deep_view(),
            av.len() == actions@.len(),
            acts_view(kept@) == pruned_plan(av.subrange(0, i as int), fv),
            errs_view(errors@) == prune_errors(av.subrange(0, i as int), fv),
        decreases actions@.len() - i,
    {
        let ghost pre_kept = acts_view(kept@);
        let ghost pre_errs = errs_view(errors@);
        proof {
            assert(av[i as int] == action_view(actions@[i as int]));
            assert(av.subrange(0, i + 1).drop_last() =~= av.subrange(0, i as int));
            assert(av.subrange(0, i + 1).last() == av[i as int]);
        }
        let (p, is_mkdir): (&Vec<String>, bool) = match &actions[i] {
            WalkAction::MkDir { path } => (path, true),
            WalkAction::Emit { path } => (path, false),
            WalkAction::SkipFile { path } => (path, false),
            WalkAction::Report { path } => (path, false),
        };
        proof {
            assert(p.deep_view() == path_of_action(av[i as int]));
            assert(is_mkdir == (av[i as int] is MkDir));
        }
        if is_mkdir && check_contains(failed, p) && !check_covered(failed, p, true) {
            errors.push(SyncError::CopyFailed { path: clone_path(p) });
            proof {
                assert(errs_view(errors@) =~= pre_errs.push(SyncErrorV::CopyFailed {
                    path: p.deep_view(),
                }));
                assert(av[i as int]->MkDir_0 == p.deep_view());
                assert(errs_view(errors@) =~= prune_errors(av.subrange(0, i + 1), fv));
            }
        } else {
            proof {
                assert(prune_errors(av.subrange(0, i + 1), fv) =~= pre_errs);
            }
        }
        if !check_covered(failed, p, false) {
            let a = match &actions[i] {
                WalkAction::MkDir { path } => WalkAction::MkDir { path: clone_path(path) },
                WalkAction::Emit { path } => WalkAction::Emit { path: clone_path(path) },
                WalkAction::SkipFile { path } => WalkAction::SkipFile {
                    path: clone_path(path),
                },
                WalkAction::Report { path } => WalkAction::Report { path: clone_path(path) },
            };
            proof {
                assert(action_view(a) == av[i as int]);
            }
            kept.push(a);
            proof {
                assert(acts_view(kept@) =~= pre_kept.push(av[i as int]));
                assert(acts_view(kept@) =~= pruned_plan(av.subrange(0, i + 1), fv));
            }
        } else {
            proof {
                assert(pruned_plan(av.subrange(0, i + 1), fv) =~= pre_kept);
            }
        }
        i = i + 1;
    }
    proof {
        assert(av.subrange(0, av.len() as int) =~= av);
        lemma_pruned_plan_clear(av, fv);
        assert forall|j: int| 0 <= j < kept@.len() implies !covered_by_failed(
            fv,
            path_of_action(acts_view(kept@)[j]),
        ) by {
            assert(acts_view(kept@)[j] == pruned_plan(av, fv)[j]);
        }
    }
    (kept, errors)
}

} // verus!

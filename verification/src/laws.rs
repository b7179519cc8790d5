//! Cross-cutting properties of the walker and the sync plan, stated
//! and proved over the specification functions the engine's contracts
//! use.

use vstd::prelude::*;

use crate::fsmodel::{
    job_ok, lookup, lookup_after, spec_cmp, walk_entries, walk_spec, ActionV, DestFile, DestFileV,
    FileMeta, JobV, SrcNode,
};

verus! {

/// An up-to-date destination is never copied: a file whose destination
/// exists with equal size and no older modification time is skipped,
/// and no copy job is emitted for it.
pub proof fn lemma_match_not_copied(
    meta: FileMeta,
    content: Option<Vec<u8>>,
    path: Seq<Seq<char>>,
    dest: Seq<(Vec<String>, DestFile)>,
)
    requires
        spec_cmp(lookup(dest, path), meta),
    ensures
        walk_spec(SrcNode::File { meta, content }, path, dest).jobs.len() == 0,
        walk_spec(SrcNode::File { meta, content }, path, dest).files_skipped == 1,
{
}

/// Every emitted copy lies under a directory whose creation comes
/// earlier in the plan: the job's path either is the walked root
/// itself, or a `MkDir` of its parent precedes the emission.
pub open spec fn mkdir_covered(acts: Seq<ActionV>, root: Seq<Seq<char>>) -> bool {
    forall|j: int|
        0 <= j < acts.len() && acts[j] is Emit ==> ((exists|i: int|
            0 <= i < j && acts[i] == ActionV::MkDir(acts[j]->Emit_0.drop_last()))
            || acts[j]->Emit_0 == root)
}

/// As [`mkdir_covered`], under a directory at `parent`: an emission
/// not covered from inside has the directory itself as parent.
pub open spec fn mkdir_covered_under(acts: Seq<ActionV>, parent: Seq<Seq<char>>) -> bool {
    forall|j: int|
        0 <= j < acts.len() && acts[j] is Emit ==> ((exists|i: int|
            0 <= i < j && acts[i] == ActionV::MkDir(acts[j]->Emit_0.drop_last()))
            || acts[j]->Emit_0.drop_last() == parent)
}

/// A directory's own creation precedes every copy under it.
pub proof fn lemma_mkdir_precedes(
    n: SrcNode,
    path: Seq<Seq<char>>,
    dest: Seq<(Vec<String>, DestFile)>,
)
    ensures
        mkdir_covered(walk_spec(n, path, dest).actions, path),
    decreases n,
{
    match n {
        SrcNode::File { meta, content } => {},
        SrcNode::Unreadable => {},
        SrcNode::Dir { entries } => {
            lemma_mkdir_precedes_entries(entries@, path, dest);
            let ea = walk_entries(entries@, path, dest).actions;
            let acts = walk_spec(n, path, dest).actions;
            assert(acts =~= seq![ActionV::MkDir(path)] + ea);
            assert forall|j: int|
                0 <= j < acts.len() && acts[j] is Emit implies ((exists|i: int|
                    0 <= i < j && acts[i] == ActionV::MkDir(acts[j]->Emit_0.drop_last()))
                    || acts[j]->Emit_0 == path) by {
                assert(j >= 1);
                assert(acts[j] == ea[j - 1]);
                let q = acts[j]->Emit_0;
                if exists|i2: int| 0 <= i2 < j - 1 && ea[i2] == ActionV::MkDir(q.drop_last()) {
                    let i2 = choose|i2: int|
                        0 <= i2 < j - 1 && ea[i2] == ActionV::MkDir(q.drop_last());
                    assert(acts[i2 + 1] == ActionV::MkDir(q.drop_last()));
                } else {
                    assert(q.drop_last() == path);
                    assert(acts[0] == ActionV::MkDir(q.drop_last()));
                }
            }
        },
    }
}

/// As [`lemma_mkdir_precedes`], over a run of entries.
pub proof fn lemma_mkdir_precedes_entries(
    es: Seq<(String, SrcNode)>,
    path: Seq<Seq<char>>,
    dest: Seq<(Vec<String>, DestFile)>,
)
    ensures
        mkdir_covered_under(walk_entries(es, path, dest).actions, path),
    decreases es,
{
    if es.len() == 0 {
    } else {
        lemma_mkdir_precedes_entries(es.drop_last(), path, dest);
        let child_path = path.push(es.last().0@);
        lemma_mkdir_precedes(es.last().1, child_path, dest);
        let pa = walk_entries(es.drop_last(), path, dest).actions;
        let ca = walk_spec(es.last().1, child_path, dest).actions;
        let acts = walk_entries(es, path, dest).actions;
        assert(acts =~= pa + ca);
        assert(child_path.drop_last() =~= path);
        assert forall|j: int|
            0 <= j < acts.len() && acts[j] is Emit implies ((exists|i: int|
                0 <= i < j && acts[i] == ActionV::MkDir(acts[j]->Emit_0.drop_last()))
                || acts[j]->Emit_0.drop_last() == path) by {
            let q = acts[j]->Emit_0;
            if j < pa.len() {
                assert(acts[j] == pa[j]);
                if exists|i2: int| 0 <= i2 < j && pa[i2] == ActionV::MkDir(q.drop_last()) {
                    let i2 = choose|i2: int|
                        0 <= i2 < j && pa[i2] == ActionV::MkDir(q.drop_last());
                    assert(acts[i2] == ActionV::MkDir(q.drop_last()));
                }
            } else {
                let j2 = j - pa.len();
                assert(acts[j] == ca[j2]);
                if exists|i2: int| 0 <= i2 < j2 && ca[i2] == ActionV::MkDir(q.drop_last()) {
                    let i2 = choose|i2: int|
                        0 <= i2 < j2 && ca[i2] == ActionV::MkDir(q.drop_last());
                    assert(acts[pa.len() + i2] == ActionV::MkDir(q.drop_last()));
                } else {
                    assert(q == child_path);
                }
            }
        }
    }
}

/// The destination already mirrors this subtree: every file exists
/// there with equal size and no older modification time, and every
/// entry is readable.
pub open spec fn tree_matched(
    n: SrcNode,
    path: Seq<Seq<char>>,
    dest: Seq<(Vec<String>, DestFile)>,
) -> bool
    decreases n,
{
    match n {
        SrcNode::File { meta, content } => spec_cmp(lookup(dest, path), meta),
        SrcNode::Unreadable => false,
        SrcNode::Dir { entries } => entries_matched(entries@, path, dest),
    }
}

/// As [`tree_matched`], over a run of entries.
pub open spec fn entries_matched(
    es: Seq<(String, SrcNode)>,
    path: Seq<Seq<char>>,
    dest: Seq<(Vec<String>, DestFile)>,
) -> bool
    decreases es,
{
    if es.len() == 0 {
        true
    } else {
        entries_matched(es.drop_last(), path, dest) && tree_matched(
            es.last().1,
            path.push(es.last().0@),
            dest,
        )
    }
}

/// Walking an unchanged source against a destination that already
/// mirrors it skips every file: no jobs, no errors, every file
/// skipped.  A second `sync` over such a pair therefore leaves every
/// file as skipped.
pub proof fn lemma_matched_tree_all_skipped(
    n: SrcNode,
    path: Seq<Seq<char>>,
    dest: Seq<(Vec<String>, DestFile)>,
)
    requires
        tree_matched(n, path, dest),
    ensures
        walk_spec(n, path, dest).jobs.len() == 0,
        walk_spec(n, path, dest).files_skipped == walk_spec(n, path, dest).files_found,
        walk_spec(n, path, dest).errors.len() == 0,
        walk_spec(n, path, dest).stat_failed == 0,
    decreases n,
{
    match n {
        SrcNode::File { meta, content } => {},
        SrcNode::Unreadable => {},
        SrcNode::Dir { entries } => {
            lemma_matched_entries_all_skipped(entries@, path, dest);
        },
    }
}

/// As [`lemma_matched_tree_all_skipped`], over a run of entries.
pub proof fn lemma_matched_entries_all_skipped(
    es: Seq<(String, SrcNode)>,
    path: Seq<Seq<char>>,
    dest: Seq<(Vec<String>, DestFile)>,
)
    requires
        entries_matched(es, path, dest),
    ensures
        walk_entries(es, path, dest).jobs.len() == 0,
        walk_entries(es, path, dest).files_skipped == walk_entries(es, path, dest).files_found,
        walk_entries(es, path, dest).errors.len() == 0,
        walk_entries(es, path, dest).stat_failed == 0,
    decreases es,
{
    if es.len() > 0 {
        lemma_matched_entries_all_skipped(es.drop_last(), path, dest);
        lemma_matched_tree_all_skipped(es.last().1, path.push(es.last().0@), dest);
    }
}

/// The source is quiescent and healthy: every entry readable, every
/// file still openable with exactly its announced size.
pub open spec fn tree_ok(n: SrcNode) -> bool
    decreases n,
{
    match n {
        SrcNode::File { meta, content } => content matches Some(c) && c@.len() == meta.size,
        SrcNode::Unreadable => false,
        SrcNode::Dir { entries } => entries_ok(entries@),
    }
}

/// As [`tree_ok`], over a run of entries.
pub open spec fn entries_ok(es: Seq<(String, SrcNode)>) -> bool
    decreases es,
{
    if es.len() == 0 {
        true
    } else {
        entries_ok(es.drop_last()) && tree_ok(es.last().1)
    }
}

/// Sibling names are pairwise distinct, recursively: the shape every
/// real directory listing has.
pub open spec fn tree_distinct(n: SrcNode) -> bool
    decreases n,
{
    match n {
        SrcNode::File { .. } => true,
        SrcNode::Unreadable => true,
        SrcNode::Dir { entries } => (forall|i: int, j: int|
            0 <= i < j < entries@.len() ==> entries@[i].0@ != entries@[j].0@)
            && entries_distinct(entries@),
    }
}

/// As [`tree_distinct`], over a run of entries.
pub open spec fn entries_distinct(es: Seq<(String, SrcNode)>) -> bool
    decreases es,
{
    if es.len() == 0 {
        true
    } else {
        entries_distinct(es.drop_last()) && tree_distinct(es.last().1)
    }
}

/// `p` is a prefix of `k`.
pub open spec fn under(p: Seq<Seq<char>>, k: Seq<Seq<char>>) -> bool {
    k.len() >= p.len() && k.subrange(0, p.len() as int) == p
}

/// `k` is the path of a file somewhere in this subtree.
pub open spec fn path_in_tree(n: SrcNode, path: Seq<Seq<char>>, k: Seq<Seq<char>>) -> bool
    decreases n,
{
    match n {
        SrcNode::File { .. } => k == path,
        SrcNode::Unreadable => false,
        SrcNode::Dir { entries } => path_in_entries(entries@, path, k),
    }
}

/// As [`path_in_tree`], over a run of entries.
pub open spec fn path_in_entries(
    es: Seq<(String, SrcNode)>,
    path: Seq<Seq<char>>,
    k: Seq<Seq<char>>,
) -> bool
    decreases es,
{
    if es.len() == 0 {
        false
    } else {
        path_in_entries(es.drop_last(), path, k) || path_in_tree(
            es.last().1,
            path.push(es.last().0@),
            k,
        )
    }
}

/// Some job in `js` is a full copy landing at `k`.
pub open spec fn hits(js: Seq<JobV>, k: Seq<Seq<char>>) -> bool {
    exists|i: int| 0 <= i < js.len() && job_ok(#[trigger] js[i]) && js[i].path == k
}

/// No job path of `js` lies in the subtree.
pub open spec fn no_tree_hits(js: Seq<JobV>, n: SrcNode, path: Seq<Seq<char>>) -> bool {
    forall|i: int| 0 <= i < js.len() ==> !path_in_tree(n, path, #[trigger] js[i].path)
}

/// No job path of `js` lies in any of the entries.
pub open spec fn no_entries_hits(
    js: Seq<JobV>,
    es: Seq<(String, SrcNode)>,
    path: Seq<Seq<char>>,
) -> bool {
    forall|i: int| 0 <= i < js.len() ==> !path_in_entries(es, path, #[trigger] js[i].path)
}

/// The subtree is mirrored by the destination reached after running
/// `js` against `base`.
pub open spec fn tree_matched_in(
    n: SrcNode,
    path: Seq<Seq<char>>,
    js: Seq<JobV>,
    base: Seq<(Vec<String>, DestFile)>,
) -> bool
    decreases n,
{
    match n {
        SrcNode::File { meta, content } => spec_cmp(lookup_after(js, base, path), meta),
        SrcNode::Unreadable => false,
        SrcNode::Dir { entries } => entries_matched_in(entries@, path, js, base),
    }
}

/// As [`tree_matched_in`], over a run of entries.
pub open spec fn entries_matched_in(
    es: Seq<(String, SrcNode)>,
    path: Seq<Seq<char>>,
    js: Seq<JobV>,
    base: Seq<(Vec<String>, DestFile)>,
) -> bool
    decreases es,
{
    if es.len() == 0 {
        true
    } else {
        entries_matched_in(es.drop_last(), path, js, base) && tree_matched_in(
            es.last().1,
            path.push(es.last().0@),
            js,
            base,
        )
    }
}

/// Every job the walker emits targets a file path of the subtree.
pub proof fn lemma_jobs_paths(n: SrcNode, path: Seq<Seq<char>>, dest: Seq<(Vec<String>, DestFile)>)
    ensures
        forall|i: int|
            0 <= i < walk_spec(n, path, dest).jobs.len() ==> path_in_tree(
                n,
                path,
                #[trigger] walk_spec(n, path, dest).jobs[i].path,
            ),
    decreases n,
{
    match n {
        SrcNode::File { meta, content } => {},
        SrcNode::Unreadable => {},
        SrcNode::Dir { entries } => {
            lemma_jobs_paths_entries(entries@, path, dest);
        },
    }
}

/// As [`lemma_jobs_paths`], over a run of entries.
pub proof fn lemma_jobs_paths_entries(
    es: Seq<(String, SrcNode)>,
    path: Seq<Seq<char>>,
    dest: Seq<(Vec<String>, DestFile)>,
)
    ensures
        forall|i: int|
            0 <= i < walk_entries(es, path, dest).jobs.len() ==> path_in_entries(
                es,
                path,
                #[trigger] walk_entries(es, path, dest).jobs[i].path,
            ),
    decreases es,
{
    if es.len() > 0 {
        lemma_jobs_paths_entries(es.drop_last(), path, dest);
        lemma_jobs_paths(es.last().1, path.push(es.last().0@), dest);
        let pj = walk_entries(es.drop_last(), path, dest).jobs;
        let cj = walk_spec(es.last().1, path.push(es.last().0@), dest).jobs;
        assert forall|i: int|
            0 <= i < walk_entries(es, path, dest).jobs.len() implies path_in_entries(
                es,
                path,
                walk_entries(es, path, dest).jobs[i].path,
            ) by {
            if i < pj.len() {
                assert(walk_entries(es, path, dest).jobs[i] == pj[i]);
            } else {
                assert(walk_entries(es, path, dest).jobs[i] == cj[i - pj.len()]);
            }
        }
    }
}

/// A file path of the subtree has the subtree's root path as prefix.
pub proof fn lemma_path_in_under(n: SrcNode, path: Seq<Seq<char>>, k: Seq<Seq<char>>)
    requires
        path_in_tree(n, path, k),
    ensures
        under(path, k),
    decreases n,
{
    match n {
        SrcNode::File { .. } => {
            assert(k.subrange(0, path.len() as int) =~= path);
        },
        SrcNode::Unreadable => {},
        SrcNode::Dir { entries } => {
            lemma_path_in_under_entries(entries@, path, k);
        },
    }
}

/// As [`lemma_path_in_under`], over a run of entries; the path even
/// starts with the name of the entry holding it.
pub proof fn lemma_path_in_under_entries(
    es: Seq<(String, SrcNode)>,
    path: Seq<Seq<char>>,
    k: Seq<Seq<char>>,
)
    requires
        path_in_entries(es, path, k),
    ensures
        under(path, k),
        k.len() > path.len(),
        exists|i: int|
            0 <= i < es.len() && path_in_tree(
                #[trigger] es[i].1,
                path.push(es[i].0@),
                k,
            ) && k[path.len() as int] == es[i].0@,
    decreases es,
{
    if path_in_entries(es.drop_last(), path, k) {
        lemma_path_in_under_entries(es.drop_last(), path, k);
        let i = choose|i: int|
            0 <= i < es.drop_last().len() && path_in_tree(
                #[trigger] es.drop_last()[i].1,
                path.push(es.drop_last()[i].0@),
                k,
            ) && k[path.len() as int] == es.drop_last()[i].0@;
        assert(es[i] == es.drop_last()[i]);
        assert(path_in_tree(es[i].1, path.push(es[i].0@), k) && k[path.len() as int]
            == es[i].0@);
    } else {
        let cp = path.push(es.last().0@);
        lemma_path_in_under(es.last().1, cp, k);
        assert(k.subrange(0, cp.len() as int)[path.len() as int] == es.last().0@);
        assert(k[path.len() as int] == es.last().0@);
        assert(k.subrange(0, path.len() as int) =~= cp.subrange(0, path.len() as int));
        assert(cp.subrange(0, path.len() as int) =~= path);
        let w = es.len() - 1;
        assert(path_in_tree(es[w].1, path.push(es[w].0@), k) && k[path.len() as int]
            == es[w].0@);
    }
}

/// Appending jobs that never land at `k` leaves the lookup at `k`
/// unchanged.
pub proof fn lemma_lookup_after_append_miss(
    a: Seq<JobV>,
    b: Seq<JobV>,
    base: Seq<(Vec<String>, DestFile)>,
    k: Seq<Seq<char>>,
)
    requires
        !hits(b, k),
    ensures
        lookup_after(a + b, base, k) == lookup_after(a, base, k),
    decreases b.len(),
{
    if b.len() == 0 {
        assert(a + b =~= a);
    } else {
        assert((a + b).drop_last() =~= a + b.drop_last());
        assert((a + b).last() == b.last());
        assert(!(job_ok(b.last()) && b.last().path == k)) by {
            if job_ok(b.last()) && b.last().path == k {
                assert(job_ok(b[b.len() - 1]) && b[b.len() - 1].path == k);
            }
        }
        assert(!hits(b.drop_last(), k)) by {
            if hits(b.drop_last(), k) {
                let i = choose|i: int|
                    0 <= i < b.drop_last().len() && job_ok(#[trigger] b.drop_last()[i])
                        && b.drop_last()[i].path == k;
                assert(job_ok(b[i]) && b[i].path == k);
            }
        }
        lemma_lookup_after_append_miss(a, b.drop_last(), base, k);
    }
}

/// Jobs that never land at `k` leave the base lookup at `k`.
pub proof fn lemma_lookup_after_no_hits(
    js: Seq<JobV>,
    base: Seq<(Vec<String>, DestFile)>,
    k: Seq<Seq<char>>,
)
    requires
        !hits(js, k),
    ensures
        lookup_after(js, base, k) == lookup(base, k),
    decreases js.len(),
{
    if js.len() > 0 {
        assert(!(job_ok(js.last()) && js.last().path == k)) by {
            if job_ok(js.last()) && js.last().path == k {
                assert(job_ok(js[js.len() - 1]) && js[js.len() - 1].path == k);
            }
        }
        assert(!hits(js.drop_last(), k)) by {
            if hits(js.drop_last(), k) {
                let i = choose|i: int|
                    0 <= i < js.drop_last().len() && job_ok(#[trigger] js.drop_last()[i])
                        && js.drop_last()[i].path == k;
                assert(job_ok(js[i]) && js[i].path == k);
            }
        }
        lemma_lookup_after_no_hits(js.drop_last(), base, k);
    }
}

/// Running the walker's jobs over the base destination leaves every
/// file of a healthy source mirrored: what was matched stays, and
/// every emitted copy lands with the source's size and time.  The
/// surrounding jobs (`js_pre`, `js_post`) model the walks of sibling
/// subtrees; they never land inside this subtree.
pub proof fn lemma_establishes_match(
    n: SrcNode,
    path: Seq<Seq<char>>,
    dest: Seq<(Vec<String>, DestFile)>,
    js_pre: Seq<JobV>,
    js_post: Seq<JobV>,
)
    requires
        tree_ok(n),
        tree_distinct(n),
        no_tree_hits(js_pre, n, path),
        no_tree_hits(js_post, n, path),
    ensures
        tree_matched_in(n, path, js_pre + walk_spec(n, path, dest).jobs + js_post, dest),
    decreases n,
{
    let ws = walk_spec(n, path, dest);
    let js = js_pre + ws.jobs + js_post;
    match n {
        SrcNode::File { meta, content } => {
            assert(!hits(js_post, path)) by {
                if hits(js_post, path) {
                    let i = choose|i: int|
                        0 <= i < js_post.len() && job_ok(#[trigger] js_post[i]) && js_post[i].path
                            == path;
                    assert(!path_in_tree(n, path, js_post[i].path));
                }
            }
            if spec_cmp(lookup(dest, path), meta) {
                assert(ws.jobs =~= Seq::<JobV>::empty());
                assert(js =~= js_pre + js_post);
                assert(!hits(js_pre + js_post, path)) by {
                    if hits(js_pre + js_post, path) {
                        let i = choose|i: int|
                            0 <= i < (js_pre + js_post).len() && job_ok(
                                #[trigger] (js_pre + js_post)[i],
                            ) && (js_pre + js_post)[i].path == path;
                        if i < js_pre.len() {
                            assert(!path_in_tree(n, path, js_pre[i].path));
                        } else {
                            assert(!path_in_tree(n, path, js_post[i - js_pre.len()].path));
                        }
                    }
                }
                lemma_lookup_after_no_hits(js_pre + js_post, dest, path);
            } else {
                let j = ws.jobs[0];
                assert(job_ok(j));
                assert(js =~= (js_pre + ws.jobs) + js_post);
                lemma_lookup_after_append_miss(js_pre + ws.jobs, js_post, dest, path);
                assert((js_pre + ws.jobs).last() == j);
                assert(lookup_after(js_pre + ws.jobs, dest, path) == Some(
                    DestFileV { size: j.size, mtime: j.mtime, content: j.content->0 },
                ));
            }
        },
        SrcNode::Unreadable => {},
        SrcNode::Dir { entries } => {
            lemma_establishes_match_entries(entries@, path, dest, js_pre, js_post);
            assert(ws.jobs == walk_entries(entries@, path, dest).jobs);
        },
    }
}

/// As [`lemma_establishes_match`], over a run of entries.
pub proof fn lemma_establishes_match_entries(
    es: Seq<(String, SrcNode)>,
    path: Seq<Seq<char>>,
    dest: Seq<(Vec<String>, DestFile)>,
    js_pre: Seq<JobV>,
    js_post: Seq<JobV>,
)
    requires
        entries_ok(es),
        entries_distinct(es),
        forall|i: int, j: int| 0 <= i < j < es.len() ==> es[i].0@ != es[j].0@,
        no_entries_hits(js_pre, es, path),
        no_entries_hits(js_post, es, path),
    ensures
        entries_matched_in(es, path, js_pre + walk_entries(es, path, dest).jobs + js_post, dest),
    decreases es,
{
    if es.len() == 0 {
    } else {
        let es2 = es.drop_last();
        let e = es.last();
        let cp = path.push(e.0@);
        let we2 = walk_entries(es2, path, dest).jobs;
        let ce = walk_spec(e.1, cp, dest).jobs;
        assert(walk_entries(es, path, dest).jobs == we2 + ce);
        let js = js_pre + (we2 + ce) + js_post;

        // Sibling jobs of the prefix run never land in the last entry,
        // and the last entry's jobs never land in the prefix run.
        lemma_jobs_paths_entries(es2, path, dest);
        lemma_jobs_paths(e.1, cp, dest);
        assert forall|i: int| 0 <= i < we2.len() implies !path_in_tree(
            e.1,
            cp,
            #[trigger] we2[i].path,
        ) by {
            if path_in_tree(e.1, cp, we2[i].path) {
                lemma_path_in_under(e.1, cp, we2[i].path);
                assert(we2[i].path.subrange(0, cp.len() as int)[path.len() as int] == e.0@);
                lemma_path_in_under_entries(es2, path, we2[i].path);
                let w = choose|w: int|
                    0 <= w < es2.len() && path_in_tree(
                        #[trigger] es2[w].1,
                        path.push(es2[w].0@),
                        we2[i].path,
                    ) && we2[i].path[path.len() as int] == es2[w].0@;
                assert(es[w] == es2[w]);
                assert(es[w].0@ != es[es.len() - 1].0@);
            }
        }
        assert forall|i: int| 0 <= i < ce.len() implies !path_in_entries(
            es2,
            path,
            #[trigger] ce[i].path,
        ) by {
            if path_in_entries(es2, path, ce[i].path) {
                lemma_path_in_under_entries(es2, path, ce[i].path);
                let w = choose|w: int|
                    0 <= w < es2.len() && path_in_tree(
                        #[trigger] es2[w].1,
                        path.push(es2[w].0@),
                        ce[i].path,
                    ) && ce[i].path[path.len() as int] == es2[w].0@;
                lemma_path_in_under(e.1, cp, ce[i].path);
                assert(ce[i].path.subrange(0, cp.len() as int)[path.len() as int] == e.0@);
                assert(es[w] == es2[w]);
                assert(es[w].0@ != es[es.len() - 1].0@);
            }
        }

        // The last entry, with everything before it as its prefix run.
        assert(no_tree_hits(js_pre + we2, e.1, cp)) by {
            assert forall|i: int| 0 <= i < (js_pre + we2).len() implies !path_in_tree(
                e.1,
                cp,
                #[trigger] (js_pre + we2)[i].path,
            ) by {
                if i < js_pre.len() {
                    assert((js_pre + we2)[i] == js_pre[i]);
                    assert(!path_in_entries(es, path, js_pre[i].path));
                } else {
                    assert((js_pre + we2)[i] == we2[i - js_pre.len()]);
                }
            }
        }
        assert(no_tree_hits(js_post, e.1, cp)) by {
            assert forall|i: int| 0 <= i < js_post.len() implies !path_in_tree(
                e.1,
                cp,
                #[trigger] js_post[i].path,
            ) by {
                assert(!path_in_entries(es, path, js_post[i].path));
            }
        }
        lemma_establishes_match(e.1, cp, dest, js_pre + we2, js_post);
        assert((js_pre + we2) + ce + js_post =~= js);

        // The prefix run, with the last entry's jobs joining the
        // postfix.
        assert(no_entries_hits(js_pre, es2, path)) by {
            assert forall|i: int| 0 <= i < js_pre.len() implies !path_in_entries(
                es2,
                path,
                #[trigger] js_pre[i].path,
            ) by {
                assert(!path_in_entries(es, path, js_pre[i].path));
            }
        }
        assert(no_entries_hits(ce + js_post, es2, path)) by {
            assert forall|i: int| 0 <= i < (ce + js_post).len() implies !path_in_entries(
                es2,
                path,
                #[trigger] (ce + js_post)[i].path,
            ) by {
                if i < ce.len() {
                    assert((ce + js_post)[i] == ce[i]);
                } else {
                    assert((ce + js_post)[i] == js_post[i - ce.len()]);
                    assert(!path_in_entries(es, path, js_post[i - ce.len()].path));
                }
            }
        }
        lemma_establishes_match_entries(es2, path, dest, js_pre, ce + js_post);
        assert(js_pre + we2 + (ce + js_post) =~= js);
    }
}

/// Mirroring carries over to any destination whose lookups agree with
/// the post-run lookups.
pub proof fn lemma_matched_in_bridge(
    n: SrcNode,
    path: Seq<Seq<char>>,
    js: Seq<JobV>,
    base: Seq<(Vec<String>, DestFile)>,
    dest2: Seq<(Vec<String>, DestFile)>,
)
    requires
        tree_matched_in(n, path, js, base),
        forall|k: Seq<Seq<char>>| lookup(dest2, k) == lookup_after(js, base, k),
    ensures
        tree_matched(n, path, dest2),
    decreases n,
{
    match n {
        SrcNode::File { .. } => {},
        SrcNode::Unreadable => {},
        SrcNode::Dir { entries } => {
            lemma_matched_in_bridge_entries(entries@, path, js, base, dest2);
        },
    }
}

/// As [`lemma_matched_in_bridge`], over a run of entries.
pub proof fn lemma_matched_in_bridge_entries(
    es: Seq<(String, SrcNode)>,
    path: Seq<Seq<char>>,
    js: Seq<JobV>,
    base: Seq<(Vec<String>, DestFile)>,
    dest2: Seq<(Vec<String>, DestFile)>,
)
    requires
        entries_matched_in(es, path, js, base),
        forall|k: Seq<Seq<char>>| lookup(dest2, k) == lookup_after(js, base, k),
    ensures
        entries_matched(es, path, dest2),
    decreases es,
{
    if es.len() > 0 {
        lemma_matched_in_bridge_entries(es.drop_last(), path, js, base, dest2);
        lemma_matched_in_bridge(es.last().1, path.push(es.last().0@), js, base, dest2);
    }
}

/// Running `sync` twice in succession over an unchanged, healthy
/// source leaves every file as skipped on the second run: the first
/// run's copies establish the mirror, so the second run's walk emits
/// no job and skips every file.  `dest2` is any destination whose
/// contents are what the first run's `sync` contract guarantees.
pub proof fn lemma_sync_idempotent(
    n: SrcNode,
    path: Seq<Seq<char>>,
    dest: Seq<(Vec<String>, DestFile)>,
    dest2: Seq<(Vec<String>, DestFile)>,
)
    requires
        tree_ok(n),
        tree_distinct(n),
        forall|k: Seq<Seq<char>>|
            lookup(dest2, k) == lookup_after(walk_spec(n, path, dest).jobs, dest, k),
    ensures
        walk_spec(n, path, dest2).jobs.len() == 0,
        walk_spec(n, path, dest2).files_skipped == walk_spec(n, path, dest2).files_found,
        walk_spec(n, path, dest2).errors.len() == 0,
        walk_spec(n, path, dest2).stat_failed == 0,
{
    let ws = walk_spec(n, path, dest);
    lemma_establishes_match(n, path, dest, Seq::empty(), Seq::empty());
    assert(Seq::<JobV>::empty() + ws.jobs + Seq::<JobV>::empty() =~= ws.jobs);
    lemma_matched_in_bridge(n, path, ws.jobs, dest, dest2);
    lemma_matched_tree_all_skipped(n, path, dest2);
}

/// Every job of a run is a full copy.
pub open spec fn jobs_all_ok(js: Seq<JobV>) -> bool {
    forall|i: int| 0 <= i < js.len() ==> job_ok(#[trigger] js[i])
}

/// A healthy source emits only full copies.
pub proof fn lemma_tree_ok_jobs_ok(
    n: SrcNode,
    path: Seq<Seq<char>>,
    dest: Seq<(Vec<String>, DestFile)>,
)
    requires
        tree_ok(n),
    ensures
        jobs_all_ok(walk_spec(n, path, dest).jobs),
        walk_spec(n, path, dest).stat_failed == 0,
    decreases n,
{
    match n {
        SrcNode::File { meta, content } => {},
        SrcNode::Unreadable => {},
        SrcNode::Dir { entries } => {
            lemma_tree_ok_jobs_ok_entries(entries@, path, dest);
        },
    }
}

/// As [`lemma_tree_ok_jobs_ok`], over a run of entries.
pub proof fn lemma_tree_ok_jobs_ok_entries(
    es: Seq<(String, SrcNode)>,
    path: Seq<Seq<char>>,
    dest: Seq<(Vec<String>, DestFile)>,
)
    requires
        entries_ok(es),
    ensures
        jobs_all_ok(walk_entries(es, path, dest).jobs),
        walk_entries(es, path, dest).stat_failed == 0,
    decreases es,
{
    if es.len() > 0 {
        lemma_tree_ok_jobs_ok_entries(es.drop_last(), path, dest);
        lemma_tree_ok_jobs_ok(es.last().1, path.push(es.last().0@), dest);
        let pj = walk_entries(es.drop_last(), path, dest).jobs;
        let cj = walk_spec(es.last().1, path.push(es.last().0@), dest).jobs;
        assert forall|i: int| 0 <= i < walk_entries(es, path, dest).jobs.len() implies job_ok(
            walk_entries(es, path, dest).jobs[i],
        ) by {
            if i < pj.len() {
                assert(walk_entries(es, path, dest).jobs[i] == pj[i]);
            } else {
                assert(walk_entries(es, path, dest).jobs[i] == cj[i - pj.len()]);
            }
        }
    }
}

/// When every job is a full copy, nothing fails and the byte folds
/// collapse.
pub proof fn lemma_all_ok_folds(js: Seq<JobV>)
    requires
        jobs_all_ok(js),
    ensures
        crate::fsmodel::jobs_done(js) == js.len(),
        crate::fsmodel::jobs_failed(js) == 0,
        crate::fsmodel::jobs_done_bytes(js) == crate::fsmodel::jobs_bytes(js),
        crate::fsmodel::jobs_failed_bytes(js) == 0,
        crate::fsmodel::jobs_residue(js) == 0,
        crate::fsmodel::jobs_errs(js).len() == 0,
    decreases js.len(),
{
    if js.len() > 0 {
        assert(jobs_all_ok(js.drop_last())) by {
            assert forall|i: int| 0 <= i < js.drop_last().len() implies job_ok(
                #[trigger] js.drop_last()[i],
            ) by {
                assert(js.drop_last()[i] == js[i]);
            }
        }
        assert(job_ok(js[js.len() - 1]));
        lemma_all_ok_folds(js.drop_last());
    }
}

/// A run over a healthy, unchanged source ends in byte equality:
/// every discovered byte is either copied or skipped, none fails and
/// none stays in flight.
pub proof fn lemma_quiescent_source_bytes_equal(
    n: SrcNode,
    path: Seq<Seq<char>>,
    dest: Seq<(Vec<String>, DestFile)>,
)
    requires
        tree_ok(n),
    ensures
        walk_spec(n, path, dest).bytes_skipped + crate::fsmodel::jobs_done_bytes(
            walk_spec(n, path, dest).jobs,
        ) == walk_spec(n, path, dest).bytes_total,
        crate::fsmodel::jobs_failed(walk_spec(n, path, dest).jobs) == 0,
        crate::fsmodel::jobs_residue(walk_spec(n, path, dest).jobs) == 0,
        walk_spec(n, path, dest).stat_failed == 0,
        walk_spec(n, path, dest).errors.len() == 0,
{
    lemma_tree_ok_jobs_ok(n, path, dest);
    lemma_all_ok_folds(walk_spec(n, path, dest).jobs);
    crate::fsmodel::lemma_walk_consistent(n, path, dest);
}

} // verus!

//! The per-volume abort registry.
//!
//! Maps a volume name to the abort handle of its sync task and an
//! optional cleanup ticket.  Cleanup closures themselves live with the
//! caller, keyed by the `u64` ticket the registry hands back, so that a
//! returned ticket is the caller's licence to run that cleanup exactly
//! once.

use vstd::prelude::*;

use tokio::task::AbortHandle;

verus! {

#[verifier::external_type_specification]
#[verifier::external_body]
/// Declares tokio's task abort handle so registry entries can hold one.
pub struct ExAbortHandle(AbortHandle);

/// Relies on tokio's `AbortHandle::abort`: requests cancellation of the
/// associated task; nothing is promised about when it takes effect.
pub assume_specification[ AbortHandle::abort ](h: &AbortHandle);

/// Relies on tokio's `AbortHandle::is_finished`: whether the task has
/// completed.  The answer depends on scheduling, so nothing is promised
/// of it.
pub assume_specification[ AbortHandle::is_finished ](h: &AbortHandle) -> (r: bool);

/// One registry entry: the volume's name, the task's abort handle, and
/// the optional cleanup ticket.
pub struct RegEntry {
    /// Volume name the task serves.
    pub key: String,
    /// Handle that aborts the task.
    pub handle: AbortHandle,
    /// Cleanup ticket to run when the entry dies, if any.
    pub cleanup: Option<u64>,
}

/// What a key maps to: `None` if absent, `Some(cleanup)` if present.
pub open spec fn reg_lookup(s: Seq<RegEntry>, k: Seq<char>) -> Option<Option<u64>>
    decreases s.len(),
{
    if s.len() == 0 {
        None
    } else if s.last().key@ == k {
        Some(s.last().cleanup)
    } else {
        reg_lookup(s.drop_last(), k)
    }
}

/// All keys distinct.
pub open spec fn reg_wf(s: Seq<RegEntry>) -> bool {
    forall|i: int, j: int| 0 <= i < j < s.len() ==> s[i].key@ != s[j].key@
}

/// A key that no entry carries is absent.
pub proof fn lemma_reg_lookup_absent(s: Seq<RegEntry>, k: Seq<char>)
    requires
        forall|i: int| 0 <= i < s.len() ==> s[i].key@ != k,
    ensures
        reg_lookup(s, k) is None,
    decreases s.len(),
{
    if s.len() > 0 {
        lemma_reg_lookup_absent(s.drop_last(), k);
    }
}

/// With distinct keys, each entry is what its key looks up to.
pub proof fn lemma_reg_lookup_at(s: Seq<RegEntry>, i: int)
    requires
        reg_wf(s),
        0 <= i < s.len(),
    ensures
        reg_lookup(s, s[i].key@) == Some(s[i].cleanup),
    decreases s.len(),
{
    if i == s.len() - 1 {
    } else {
        lemma_reg_lookup_at(s.drop_last(), i);
    }
}

/// Removing entry `i` removes exactly its key from the mapping.
pub proof fn lemma_reg_remove(s: Seq<RegEntry>, i: int, k: Seq<char>)
    requires
        reg_wf(s),
        0 <= i < s.len(),
    ensures
        reg_wf(s.remove(i)),
        reg_lookup(s.remove(i), k) == (if k == s[i].key@ {
            None
        } else {
            reg_lookup(s, k)
        }),
    decreases s.len(),
{
    if i == s.len() - 1 {
        assert(s.remove(i) =~= s.drop_last());
        if k == s[i].key@ {
            lemma_reg_lookup_absent(s.drop_last(), k);
        }
    } else {
        assert(s.remove(i).drop_last() =~= s.drop_last().remove(i));
        assert(s.remove(i).last() == s.last());
        lemma_reg_remove(s.drop_last(), i, k);
    }
}

/// Whether the pair names an entry of `src` before index `hi` that
/// carries that cleanup ticket.
pub open spec fn cleanup_recorded(src: Seq<RegEntry>, hi: int, p: (String, u64)) -> bool {
    exists|l: int| 0 <= l < hi && src[l].key@ == p.0@ && src[l].cleanup == Some(p.1)
}

/// Whether `e` is one of the entries of `src` at or after index `lo`.
pub open spec fn entry_in_suffix(src: Seq<RegEntry>, lo: int, e: RegEntry) -> bool {
    exists|l: int| lo <= l < src.len() && e == src[l]
}

/// Holder of abort handles for running per-volume tasks, to cancel
/// them when their volume is removed.
pub struct AbortHandleHolder {
    /// Live entries, with pairwise-distinct keys.
    pub entries: Vec<RegEntry>,
}

impl AbortHandleHolder {
    /// Key distinctness, maintained by every operation.
    pub open spec fn wf(self) -> bool {
        reg_wf(self.entries@)
    }

    /// An empty registry.
    pub fn new() -> (r: Self)
        ensures
            r.wf(),
            r.entries@.len() == 0,
    {
        AbortHandleHolder { entries: Vec::new() }
    }

    /// Remove and return the entry carrying `key`, if any.
    fn take_entry(&mut self, key: &String) -> (r: Option<RegEntry>)
        requires
            old(self).wf(),
        ensures
            final(self).wf(),
            r matches Some(e) ==> {
                &&& e.key@ == key@
                &&& reg_lookup(old(self).entries@, key@) == Some(e.cleanup)
            },
            r is None ==> reg_lookup(old(self).entries@, key@) is None && final(self).entries@
                == old(self).entries@,
            forall|k: Seq<char>|
                k != key@ ==> reg_lookup(final(self).entries@, k) == reg_lookup(
                    old(self).entries@,
                    k,
                ),
            reg_lookup(final(self).entries@, key@) is None,
    {
        let mut i: usize = 0;
        while i < self.entries.len()
            invariant
                0 <= i <= self.entries@.len(),
                self.entries@ == old(self).entries@,
                reg_wf(self.entries@),
                forall|j: int| 0 <= j < i ==> self.entries@[j].key@ != key@,
            decreases self.entries@.len() - i,
        {
            if self.entries[i].key == *key {
                proof {
                    lemma_reg_lookup_at(self.entries@, i as int);
                    lemma_reg_remove(self.entries@, i as int, key@);
                }
                let e = self.entries.remove(i);
                proof {
                    assert forall|k: Seq<char>| k != key@ implies reg_lookup(
                        self.entries@,
                        k,
                    ) == reg_lookup(old(self).entries@, k) by {
                        lemma_reg_remove(old(self).entries@, i as int, k);
                    }
                }
                return Some(e);
            }
            i = i + 1;
        }
        proof {
            lemma_reg_lookup_absent(self.entries@, key@);
        }
        None
    }

    /// Record a task for a volume.  A previous entry under the same key
    /// is aborted and replaced; its cleanup ticket is returned so the
    /// caller can run that cleanup.
    pub fn insert(&mut self, key: String, handle: AbortHandle, on_remove: Option<u64>) -> (prev:
        Option<Option<u64>>)
        requires
            old(self).wf(),
        ensures
            final(self).wf(),
            prev == reg_lookup(old(self).entries@, key@),
            reg_lookup(final(self).entries@, key@) == Some(on_remove),
            forall|k: Seq<char>|
                k != key@ ==> reg_lookup(final(self).entries@, k) == reg_lookup(
                    old(self).entries@,
                    k,
                ),
    {
        let prev = match self.take_entry(&key) {
            Some(e) => {
                e.handle.abort();
                Some(e.cleanup)
            },
            None => None,
        };
        let ghost mid = self.entries@;
        self.entries.push(RegEntry { key, handle, cleanup: on_remove });
        proof {
            assert(self.entries@.drop_last() =~= mid);
            assert forall|i: int, j: int| 0 <= i < j < self.entries@.len() implies self.entries@[i].key@
                != self.entries@[j].key@ by {
                if j == self.entries@.len() - 1 {
                    lemma_reg_lookup_at(mid, i);
                }
            }
        }
        prev
    }

    /// Drop entries whose task already finished; their abort handles
    /// are no longer needed.  Which entries leave depends on task
    /// scheduling, so only containment is promised: what stays maps as
    /// before, and nothing new appears.
    pub fn gc(&mut self)
        requires
            old(self).wf(),
        ensures
            final(self).wf(),
            forall|k: Seq<char>| #![all_triggers]
                reg_lookup(final(self).entries@, k) is Some ==> reg_lookup(
                    final(self).entries@,
                    k,
                ) == reg_lookup(old(self).entries@, k),
    {
        let mut kept: Vec<RegEntry> = Vec::new();
        let ghost src = self.entries@;
        proof {
            assert(self.entries@ =~= src.subrange(0, self.entries@.len() as int));
        }
        while self.entries.len() > 0
            invariant
                reg_wf(src),
                self.entries@.len() <= src.len(),
                self.entries@ == src.subrange(0, self.entries@.len() as int),
                reg_wf(kept@),
                forall|j: int|
                    0 <= j < kept@.len() ==> entry_in_suffix(
                        src,
                        self.entries@.len() as int,
                        kept@[j],
                    ),
            decreases self.entries@.len(),
        {
            let ghost m = self.entries@.len() - 1;
            proof {
                assert(self.entries@[m] == src[m]);
            }
            let e = match self.entries.pop() {
                Some(e) => e,
                None => {
                    proof {
                        assert(false);
                    }
                    return ;
                },
            };
            proof {
                assert(self.entries@ =~= src.subrange(0, self.entries@.len() as int));
            }
            if !e.handle.is_finished() {
                proof {
                    assert forall|j: int| 0 <= j < kept@.len() implies kept@[j].key@ != e.key@ by {
                        assert(entry_in_suffix(src, m + 1, kept@[j]));
                        let l = choose|l: int| m + 1 <= l < src.len() && kept@[j] == src[l];
                    }
                }
                let ghost pre_kept = kept@;
                kept.push(e);
                proof {
                    assert forall|j: int| 0 <= j < kept@.len() implies entry_in_suffix(
                        src,
                        m,
                        kept@[j],
                    ) by {
                        if j < pre_kept.len() {
                            assert(entry_in_suffix(src, m + 1, pre_kept[j]));
                            let l = choose|l: int| m + 1 <= l < src.len() && pre_kept[j] == src[l];
                            assert(m <= l < src.len() && kept@[j] == src[l]);
                        } else {
                            assert(kept@[j] == src[m]);
                        }
                    }
                }
                proof {
                    assert forall|a: int, b: int| 0 <= a < b < kept@.len() implies kept@[a].key@
                        != kept@[b].key@ by {}
                }
            }
        }
        self.entries = kept;
        proof {
            assert forall|k: Seq<char>| #![all_triggers]
                reg_lookup(self.entries@, k) is Some implies reg_lookup(self.entries@, k)
                == reg_lookup(src, k) by {
                assert forall|j: int| 0 <= j < self.entries@.len() implies entry_in_suffix(
                    src,
                    0,
                    self.entries@[j],
                ) by {
                    assert(entry_in_suffix(src, 0, self.entries@[j]));
                }
                lemma_reg_some_from_entry(self.entries@, src, k);
            }
        }
    }

    /// Abort the task registered for a volume, drop the entry, and
    /// return its cleanup ticket for the caller to run.  Returns `None`
    /// when the volume has no entry.
    pub fn remove_abort(&mut self, key: &String) -> (r: Option<Option<u64>>)
        requires
            old(self).wf(),
        ensures
            final(self).wf(),
            r == reg_lookup(old(self).entries@, key@),
            reg_lookup(final(self).entries@, key@) is None,
            forall|k: Seq<char>|
                k != key@ ==> reg_lookup(final(self).entries@, k) == reg_lookup(
                    old(self).entries@,
                    k,
                ),
    {
        match self.take_entry(key) {
            Some(e) => {
                e.handle.abort();
                Some(e.cleanup)
            },
            None => None,
        }
    }

    /// Abort every live entry and empty the registry.  Returns the
    /// cleanup tickets of the aborted entries, one per key at most, so
    /// the caller runs each cleanup exactly once; tickets of entries
    /// whose task already finished are not returned.
    pub fn clear_abort(&mut self) -> (cleanups: Vec<(String, u64)>)
        requires
            old(self).wf(),
        ensures
            final(self).wf(),
            final(self).entries@.len() == 0,
            forall|i: int| #![all_triggers]
                0 <= i < cleanups@.len() ==> reg_lookup(old(self).entries@, cleanups@[i].0@)
                    == Some(Some(cleanups@[i].1)),
            forall|i: int, j: int|
                0 <= i < j < cleanups@.len() ==> cleanups@[i].0@ != cleanups@[j].0@,
    {
        let mut cleanups: Vec<(String, u64)> = Vec::new();
        let ghost src = self.entries@;
        let mut i: usize = 0;
        while i < self.entries.len()
            invariant
                0 <= i <= self.entries@.len(),
                self.entries@ == src,
                reg_wf(src),
                forall|j: int|
                    0 <= j < cleanups@.len() ==> cleanup_recorded(src, i as int, cleanups@[j]),
                forall|j1: int, j2: int|
                    0 <= j1 < j2 < cleanups@.len() ==> cleanups@[j1].0@ != cleanups@[j2].0@,
            decreases self.entries@.len() - i,
        {
            if !self.entries[i].handle.is_finished() {
                self.entries[i].handle.abort();
                match &self.entries[i].cleanup {
                    Some(c) => {
                        let k = self.entries[i].key.clone();
                        proof {
                            assert(k@ == src[i as int].key@);
                        }
                        let ghost pre = cleanups@;
                        cleanups.push((k, *c));
                        proof {
                            assert forall|j: int| 0 <= j < cleanups@.len() implies cleanup_recorded(
                                src,
                                i + 1,
                                cleanups@[j],
                            ) by {
                                if j < pre.len() {
                                    assert(cleanup_recorded(src, i as int, pre[j]));
                                    let l = choose|l: int|
                                        0 <= l < i && src[l].key@ == pre[j].0@ && src[l].cleanup
                                            == Some(pre[j].1);
                                    assert(0 <= l < i + 1 && src[l].key@ == cleanups@[j].0@
                                        && src[l].cleanup == Some(cleanups@[j].1));
                                } else {
                                    assert(0 <= i < i + 1 && src[i as int].key@ == cleanups@[j].0@
                                        && src[i as int].cleanup == Some(cleanups@[j].1));
                                }
                            }
                            assert forall|j1: int, j2: int|
                                0 <= j1 < j2 < cleanups@.len() implies cleanups@[j1].0@
                                != cleanups@[j2].0@ by {
                                if j2 == cleanups@.len() - 1 {
                                    assert(cleanup_recorded(src, i as int, pre[j1]));
                                    let l = choose|l: int|
                                        0 <= l < i && src[l].key@ == pre[j1].0@ && src[l].cleanup
                                            == Some(pre[j1].1);
                                    assert(src[l].key@ != src[i as int].key@);
                                }
                            }
                        }
                    },
                    None => {},
                }
            }
            i = i + 1;
        }
        self.entries = Vec::new();
        proof {
            assert forall|a: int| #![all_triggers] 0 <= a < cleanups@.len() implies reg_lookup(
                src,
                cleanups@[a].0@,
            ) == Some(Some(cleanups@[a].1)) by {
                assert(cleanup_recorded(src, src.len() as int, cleanups@[a]));
                let l = choose|l: int|
                    0 <= l < src.len() && src[l].key@ == cleanups@[a].0@ && src[l].cleanup == Some(
                        cleanups@[a].1,
                    );
                lemma_reg_lookup_at(src, l);
            }
            assert forall|a: int, b: int| 0 <= a < b < cleanups@.len() implies cleanups@[a].0@
                != cleanups@[b].0@ by {
                assert(cleanup_recorded(src, src.len() as int, cleanups@[a]));
                assert(cleanup_recorded(src, src.len() as int, cleanups@[b]));
                let la = choose|l: int|
                    0 <= l < src.len() && src[l].key@ == cleanups@[a].0@ && src[l].cleanup == Some(
                        cleanups@[a].1,
                    );
                let lb = choose|l: int|
                    0 <= l < src.len() && src[l].key@ == cleanups@[b].0@ && src[l].cleanup == Some(
                        cleanups@[b].1,
                    );
            }
        }
        cleanups
    }
}

/// A key present in a subset listing maps as in the original listing.
proof fn lemma_reg_some_from_entry(sub: Seq<RegEntry>, src: Seq<RegEntry>, k: Seq<char>)
    requires
        reg_wf(sub),
        reg_wf(src),
        forall|j: int| 0 <= j < sub.len() ==> entry_in_suffix(src, 0, sub[j]),
        reg_lookup(sub, k) is Some,
    ensures
        reg_lookup(sub, k) == reg_lookup(src, k),
    decreases sub.len(),
{
    if sub.len() > 0 {
        if sub.last().key@ == k {
            assert(entry_in_suffix(src, 0, sub[sub.len() - 1]));
            let l = choose|l: int| 0 <= l < src.len() && sub.last() == src[l];
            lemma_reg_lookup_at(src, l);
        } else {
            lemma_reg_some_from_entry(sub.drop_last(), src, k);
        }
    }
}

} // verus!

//! The volume notification source: pending-volume queue, spawner
//! dispositions, and the subscriber state machine.
//!
//! Device events and the spawner callback run outside the library; the
//! application feeds each observed event and each spawner decision into
//! these transitions, which maintain the pending queue and the abort
//! registry exactly as the drain semantics demand.

use vstd::prelude::*;

use tokio::task::AbortHandle;

use crate::errors::Error;
use crate::mount::{decode_utf16_lossy, utf16_decoded};
use crate::pzz::{pzz_strings, PzzWSTRIter};
use crate::registry::{reg_lookup, AbortHandleHolder};
use crate::volume::{DeviceName, VolumeName};

verus! {

/// How many times the device listing is attempted before giving up.
pub const LIST_RETRY_LIMIT: u8 = 5;

/// What the spawner decided for an arrived volume.
pub enum SpawnerDisposition {
    /// A task was spawned: its abort handle, and an optional cleanup
    /// ticket the caller keeps keyed by this number.
    Spawned(AbortHandle, Option<u64>),
    /// The volume is declined for good.
    Ignore,
    /// The volume is not ready; ask again on the next event.
    Skip,
}

/// The outcome of resolving a pending volume before the spawner runs.
pub enum DrainResolution {
    /// Its device identity could not be resolved; the volume is
    /// dropped for this session.
    ResolveFailed,
    /// Resolution succeeded and the spawner answered.
    Resolved(SpawnerDisposition),
}

/// Whether a volume name occurs in the pending queue.
pub open spec fn pending_contains(s: Seq<String>, k: Seq<char>) -> bool {
    exists|i: int| 0 <= i < s.len() && s[i]@ == k
}

/// Pending entries are pairwise distinct.
pub open spec fn pending_wf(s: Seq<String>) -> bool {
    forall|i: int, j: int| 0 <= i < j < s.len() ==> s[i]@ != s[j]@
}

/// The logical-disk event subscription: registered or not, with
/// idempotent transitions.
#[derive(Debug, Clone, Copy, PartialEq, Eq, Structural)]
pub struct Observer {
    /// Whether the subscription is active.
    pub registered: bool,
}

impl Observer {
    /// A fresh, unregistered observer.
    pub fn new() -> (r: Self)
        ensures
            r == (Observer { registered: false }),
    {
        Observer { registered: false }
    }

    /// Attach the subscription; doing so twice changes nothing.
    /// Returns whether the subscription must actually be made.
    pub fn register(&mut self) -> (attach: bool)
        ensures
            final(self).registered,
            attach == !old(self).registered,
    {
        let attach = !self.registered;
        self.registered = true;
        attach
    }

    /// Cancel the subscription; idempotent.  Returns whether the
    /// subscription must actually be cancelled.
    pub fn unregister(&mut self) -> (cancel: bool)
        ensures
            !final(self).registered,
            cancel == old(self).registered,
    {
        let cancel = self.registered;
        self.registered = false;
        cancel
    }
}

/// One event sink invocation: the callback fires exactly when at least
/// one object arrived with the event.
pub struct Notifier<F: Fn()> {
    /// The re-scan routine run on each logical-disk event.
    pub callback: F,
}

impl<F: Fn()> Notifier<F> {
    /// Wrap a re-scan routine.
    pub fn new(callback: F) -> (r: Self)
        ensures
            r.callback == callback,
    {
        Notifier { callback }
    }

    /// Deliver an event carrying `object_count` objects: the callback
    /// runs exactly when the count is positive.
    pub fn indicate(&self, object_count: i32) -> (called: bool)
        requires
            object_count > 0 ==> call_requires(self.callback, ()),
        ensures
            called == (object_count > 0),
    {
        if object_count > 0 {
            (self.callback)();
            true
        } else {
            false
        }
    }
}

/// Retry bookkeeping for the device-interface listing: on a too-small
/// buffer the listing is retried, up to the retry limit.
#[derive(Debug, Clone, Copy, PartialEq, Eq, Structural)]
pub struct ListSession {
    /// Attempts made so far.
    pub attempt: u8,
}

impl ListSession {
    /// A fresh session.
    pub fn new() -> (r: Self)
        ensures
            r == (ListSession { attempt: 0 }),
    {
        ListSession { attempt: 0 }
    }

    /// Feed the outcome of one listing attempt: success ends the
    /// session, a too-small buffer asks for a retry until the limit,
    /// after which the session fails, as does any call beyond it.
    pub fn on_result(&mut self, buffer_small: bool) -> (r: Result<bool, Error>)
        ensures
            old(self).attempt >= LIST_RETRY_LIMIT ==> r == Result::<bool, Error>::Err(
                Error::TooManyRetries,
            ) && *final(self) == *old(self),
            old(self).attempt < LIST_RETRY_LIMIT ==> final(self).attempt == old(self).attempt + 1,
            old(self).attempt < LIST_RETRY_LIMIT && !buffer_small ==> r == Result::<
                bool,
                Error,
            >::Ok(true),
            old(self).attempt < LIST_RETRY_LIMIT && buffer_small && old(self).attempt + 1
                < LIST_RETRY_LIMIT ==> r == Result::<bool, Error>::Ok(false),
            old(self).attempt < LIST_RETRY_LIMIT && buffer_small && old(self).attempt + 1
                >= LIST_RETRY_LIMIT ==> r == Result::<bool, Error>::Err(Error::TooManyRetries),
    {
        if self.attempt >= LIST_RETRY_LIMIT {
            return Err(Error::TooManyRetries);
        }
        self.attempt = self.attempt + 1;
        if !buffer_small {
            return Ok(true);
        }
        if self.attempt < LIST_RETRY_LIMIT {
            return Ok(false);
        }
        Err(Error::TooManyRetries)
    }
}

/// Decode a doubly-null-terminated device-interface listing into
/// volume names.  A malformed region (no terminating null) is refused.
pub fn volumes_from_buffer(buffer: Vec<u16>) -> (r: Option<Vec<VolumeName>>)
    ensures
        r is Some <==> (buffer@.len() == 0 || buffer@[buffer@.len() - 1] == 0),
        r matches Some(v) ==> {
            let names = pzz_strings(buffer@, 0);
            &&& v@.len() == names.len()
            &&& forall|i: int| 0 <= i < v@.len() ==> v@[i].name@ == utf16_decoded(#[trigger] names[i])
        },
{
    let ghost gbuf = buffer@;
    let mut it = match PzzWSTRIter::new(buffer) {
        Some(it) => it,
        None => {
            return None;
        },
    };
    let raw = it.all();
    let mut out: Vec<VolumeName> = Vec::new();
    let mut i: usize = 0;
    while i < raw.len()
        invariant
            0 <= i <= raw@.len(),
            raw.deep_view() == pzz_strings(gbuf, 0),
            raw@.len() == raw.deep_view().len(),
            out@.len() == i,
            forall|j: int| 0 <= j < i ==> out@[j].name@ == utf16_decoded(
                #[trigger] pzz_strings(gbuf, 0)[j],
            ),
        decreases raw@.len() - i,
    {
        let s = decode_utf16_lossy(&raw[i]);
        proof {
            assert(raw.deep_view()[i as int] == raw@[i as int]@);
        }
        out.push(VolumeName { name: s });
        i = i + 1;
    }
    Some(out)
}

/// The notification source's own state: the pending-volume queue, the
/// abort registry, and the event subscription.
pub struct HcmNotifier {
    /// Volumes seen arriving but not yet accepted or declined.
    pub pending: Vec<String>,
    /// Abort handles of the spawned per-volume tasks.
    pub aborter: AbortHandleHolder,
    /// The logical-disk event subscription.
    pub wmi: Observer,
}

impl HcmNotifier {
    /// Queue and registry both keep at most one entry per volume.
    pub open spec fn wf(self) -> bool {
        &&& pending_wf(self.pending@)
        &&& self.aborter.wf()
    }

    /// A fresh source: nothing pending, nothing registered.
    pub fn new() -> (r: Self)
        ensures
            r.wf(),
            r.pending@.len() == 0,
            r.aborter.entries@.len() == 0,
            !r.wmi.registered,
    {
        HcmNotifier {
            pending: Vec::new(),
            aborter: AbortHandleHolder::new(),
            wmi: Observer::new(),
        }
    }

    /// A device-interface arrival: the volume joins the pending queue,
    /// once.
    pub fn on_arrival(&mut self, vol: String)
        requires
            old(self).wf(),
        ensures
            final(self).wf(),
            forall|k: Seq<char>|
                pending_contains(final(self).pending@, k) <==> (pending_contains(
                    old(self).pending@,
                    k,
                ) || k == vol@),
            final(self).aborter.entries@ == old(self).aborter.entries@,
            final(self).wmi == old(self).wmi,
    {
        let mut i: usize = 0;
        while i < self.pending.len()
            invariant
                0 <= i <= self.pending@.len(),
                self.pending@ == old(self).pending@,
                old(self).wf(),
                forall|j: int| 0 <= j < i ==> self.pending@[j]@ != vol@,
                self.aborter.entries@ == old(self).aborter.entries@,
                self.wmi == old(self).wmi,
            decreases self.pending@.len() - i,
        {
            if self.pending[i] == vol {
                proof {
                    assert(pending_contains(self.pending@, vol@));
                }
                return ;
            }
            i = i + 1;
        }
        let ghost pre = self.pending@;
        self.pending.push(vol);
        proof {
            assert forall|k: Seq<char>|
                pending_contains(self.pending@, k) <==> (pending_contains(pre, k)
                    || k == vol@) by {
                if pending_contains(pre, k) {
                    let w = choose|i: int| 0 <= i < pre.len() && pre[i]@ == k;
                    assert(self.pending@[w]@ == k);
                }
                if pending_contains(self.pending@, k) {
                    let w = choose|i: int| 0 <= i < self.pending@.len() && self.pending@[i]@ == k;
                    if w < pre.len() {
                        assert(pre[w]@ == k);
                    }
                }
                if k == vol@ {
                    assert(self.pending@[pre.len() as int]@ == k);
                }
            }
        }
    }

    /// A device-interface removal: the volume leaves the pending
    /// queue, its task is aborted and its registry entry dropped.  The
    /// cleanup ticket of the dropped entry, if any, is returned for
    /// the caller to run exactly once.
    pub fn on_removal(&mut self, vol: &String) -> (cleanup: Option<Option<u64>>)
        requires
            old(self).wf(),
        ensures
            final(self).wf(),
            forall|k: Seq<char>|
                pending_contains(final(self).pending@, k) <==> (pending_contains(
                    old(self).pending@,
                    k,
                ) && k != vol@),
            cleanup == reg_lookup(old(self).aborter.entries@, vol@),
            reg_lookup(final(self).aborter.entries@, vol@) is None,
            forall|k: Seq<char>|
                k != vol@ ==> reg_lookup(final(self).aborter.entries@, k) == reg_lookup(
                    old(self).aborter.entries@,
                    k,
                ),
            final(self).wmi == old(self).wmi,
    {
        self.remove_pending(vol);
        self.aborter.remove_abort(vol)
    }

    /// Drop a volume from the pending queue.
    fn remove_pending(&mut self, vol: &String)
        requires
            old(self).wf(),
        ensures
            final(self).wf(),
            forall|k: Seq<char>|
                pending_contains(final(self).pending@, k) <==> (pending_contains(
                    old(self).pending@,
                    k,
                ) && k != vol@),
            final(self).aborter.entries@ == old(self).aborter.entries@,
            final(self).wmi == old(self).wmi,
    {
        let mut i: usize = 0;
        while i < self.pending.len()
            invariant
                0 <= i <= self.pending@.len(),
                self.pending@ == old(self).pending@,
                old(self).wf(),
                forall|j: int| 0 <= j < i ==> self.pending@[j]@ != vol@,
                self.aborter.entries@ == old(self).aborter.entries@,
                self.wmi == old(self).wmi,
            decreases self.pending@.len() - i,
        {
            if self.pending[i] == *vol {
                let ghost pre = self.pending@;
                let _ = self.pending.remove(i);
                proof {
                    assert(self.pending@ =~= pre.remove(i as int));
                    assert forall|k: Seq<char>|
                        pending_contains(self.pending@, k) <==> (pending_contains(pre, k)
                            && k != vol@) by {
                        if pending_contains(self.pending@, k) {
                            let w = choose|a: int|
                                0 <= a < self.pending@.len() && self.pending@[a]@ == k;
                            if w < i {
                                assert(pre[w]@ == k);
                            } else {
                                assert(pre[w + 1]@ == k);
                            }
                        }
                        if pending_contains(pre, k) && k != vol@ {
                            let w = choose|a: int| 0 <= a < pre.len() && pre[a]@ == k;
                            if w < i {
                                assert(self.pending@[w]@ == k);
                            } else {
                                assert(w != i);
                                assert(self.pending@[w - 1]@ == k);
                            }
                        }
                    }
                    assert forall|a: int, b: int|
                        0 <= a < b < self.pending@.len() implies self.pending@[a]@
                        != self.pending@[b]@ by {}
                }
                return ;
            }
            i = i + 1;
        }
        proof {
            assert forall|k: Seq<char>|
                pending_contains(self.pending@, k) <==> (pending_contains(old(self).pending@, k)
                    && k != vol@) by {
                if pending_contains(self.pending@, k) && k == vol@ {
                    let w = choose|a: int|
                        0 <= a < self.pending@.len() && self.pending@[a]@ == k;
                }
            }
        }
    }

    /// One step of the pending-queue drain for volume `vol`:
    /// `Spawned` registers the task and drops the volume from the
    /// queue; `Ignore` and a resolution failure drop it; `Skip` keeps
    /// it for the next event.  Returns the cleanup ticket of a
    /// replaced registry entry, if one was displaced.
    pub fn drain_step(&mut self, vol: &String, res: DrainResolution) -> (replaced: Option<
        Option<u64>,
    >)
        requires
            old(self).wf(),
        ensures
            final(self).wf(),
            final(self).wmi == old(self).wmi,
            res is Resolved && res->Resolved_0 is Skip ==> final(self).pending@ == old(self).pending@ && final(self).aborter.entries@ == old(self).aborter.entries@,
            !(res is Resolved && res->Resolved_0 is Skip) ==> forall|k: Seq<char>|
                pending_contains(final(self).pending@, k) <==> (pending_contains(
                    old(self).pending@,
                    k,
                ) && k != vol@),
            res is ResolveFailed || (res is Resolved && res->Resolved_0 is Ignore) ==> final(self).aborter.entries@ == old(self).aborter.entries@,
            res matches DrainResolution::Resolved(SpawnerDisposition::Spawned(h, c)) ==> {
                &&& reg_lookup(final(self).aborter.entries@, vol@) == Some(c)
                &&& forall|k: Seq<char>|
                    k != vol@ ==> reg_lookup(final(self).aborter.entries@, k) == reg_lookup(
                        old(self).aborter.entries@,
                        k,
                    )
                &&& replaced == reg_lookup(old(self).aborter.entries@, vol@)
            },
    {
        match res {
            DrainResolution::ResolveFailed => {
                self.remove_pending(vol);
                None
            },
            DrainResolution::Resolved(SpawnerDisposition::Ignore) => {
                self.remove_pending(vol);
                None
            },
            DrainResolution::Resolved(SpawnerDisposition::Skip) => None,
            DrainResolution::Resolved(SpawnerDisposition::Spawned(handle, cleanup)) => {
                self.remove_pending(vol);
                let key = vol.clone();
                self.aborter.insert(key, handle, cleanup)
            },
        }
    }

    /// Start the source: attach the logical-disk subscription (the
    /// device-interface filter is the application's part).
    pub fn start(&mut self) -> (attach: bool)
        requires
            old(self).wf(),
        ensures
            final(self).wf(),
            final(self).wmi.registered,
            attach == !old(self).wmi.registered,
            final(self).pending@ == old(self).pending@,
            final(self).aborter.entries@ == old(self).aborter.entries@,
    {
        self.wmi.register()
    }

    /// Pause the source: cancel the subscriptions but leave spawned
    /// tasks running; finished entries are collected.
    pub fn pause(&mut self) -> (cancel: bool)
        requires
            old(self).wf(),
        ensures
            final(self).wf(),
            !final(self).wmi.registered,
            cancel == old(self).wmi.registered,
            final(self).pending@ == old(self).pending@,
            forall|k: Seq<char>| #![all_triggers]
                reg_lookup(final(self).aborter.entries@, k) is Some ==> reg_lookup(
                    final(self).aborter.entries@,
                    k,
                ) == reg_lookup(old(self).aborter.entries@, k),
    {
        let cancel = self.wmi.unregister();
        self.aborter.gc();
        cancel
    }

    /// Reset the source: pause, then abort every spawned task.  The
    /// returned cleanup tickets are the caller's licence to run each
    /// cleanup exactly once.
    pub fn reset(&mut self) -> (cleanups: Vec<(String, u64)>)
        requires
            old(self).wf(),
        ensures
            final(self).wf(),
            !final(self).wmi.registered,
            final(self).aborter.entries@.len() == 0,
            final(self).pending@ == old(self).pending@,
            forall|i: int| #![all_triggers]
                0 <= i < cleanups@.len() ==> reg_lookup(old(self).aborter.entries@, cleanups@[i].0@)
                    == Some(Some(cleanups@[i].1)),
            forall|i: int, j: int|
                0 <= i < j < cleanups@.len() ==> cleanups@[i].0@ != cleanups@[j].0@,
    {
        let _ = self.pause();
        self.aborter.clear_abort()
    }


    /// Assemble the final volume listing from the per-volume
    /// resolution outcomes: each volume with its resolved device and
    /// first user-visible path.  A volume whose device did not resolve
    /// is dropped; the listing survives.
    pub fn list(&self, resolved: Vec<(VolumeName, Option<DeviceName>, Option<String>)>) -> (r:
        Vec<(VolumeName, DeviceName, Option<String>)>)
        ensures
            r@ == listing_spec(resolved@),
    {
        let mut resolved = resolved;
        let ghost full = resolved@;
        let ghost n = full.len();
        let m = resolved.len();
        proof {
            assert(n == m);
        }
        let mut r: Vec<(VolumeName, DeviceName, Option<String>)> = Vec::new();
        let mut i: usize = 0;
        proof {
            assert(resolved@ =~= full.subrange(0, n as int));
            assert(r@ =~= listing_spec(full.subrange(0, 0)));
        }
        while resolved.len() > 0
            invariant
                n == full.len(),
                n <= usize::MAX,
                i <= n,
                i + resolved@.len() == n,
                resolved@ == full.subrange(i as int, n as int),
                r@ == listing_spec(full.subrange(0, i as int)),
            decreases resolved@.len(),
        {
            let ghost pre_res = resolved@;
            let ghost pre_r = r@;
            let (vol, dev, path) = resolved.remove(0);
            proof {
                assert(full.subrange(i as int, n as int)[0] == full[i as int]);
                assert(pre_res[0] == full[i as int]);
                assert(vol == full[i as int].0);
                assert(dev == full[i as int].1);
                assert(path == full[i as int].2);
                assert(resolved@ =~= pre_res.remove(0));
                assert(pre_res.remove(0) =~= pre_res.subrange(1, pre_res.len() as int));
                assert forall|a: int| 0 <= a < n - i - 1 implies pre_res.subrange(
                    1,
                    pre_res.len() as int,
                )[a] == full.subrange(i + 1, n as int)[a] by {
                    assert(pre_res[a + 1] == full.subrange(i as int, n as int)[a + 1]);
                    assert(full.subrange(i as int, n as int)[a + 1] == full[i + 1 + a]);
                    assert(full.subrange(i + 1, n as int)[a] == full[i + 1 + a]);
                }
                assert(pre_res.subrange(1, pre_res.len() as int) =~= full.subrange(
                    i + 1,
                    n as int,
                ));
                assert(full.subrange(0, i + 1).drop_last() =~= full.subrange(0, i as int));
                assert(full.subrange(0, i + 1).last() == full[i as int]);
            }
            match dev {
                Some(d) => {
                    r.push((vol, d, path));
                    proof {
                        assert(full[i as int].1 matches Some(d2) && d2 == d);
                        assert(r@ =~= pre_r.push((full[i as int].0, d, full[i as int].2)));
                        assert(r@ =~= listing_spec(full.subrange(0, i + 1)));
                    }
                },
                None => {
                    proof {
                        assert(full[i as int].1 is None);
                        assert(listing_spec(full.subrange(0, i + 1)) =~= pre_r);
                    }
                },
            }
            i = i + 1;
        }
        proof {
            assert(full.subrange(0, n as int) =~= full);
        }
        r
    }

    /// Record every `Spawned` disposition of a fresh listing: the
    /// registry is first cleared (returning the old cleanup tickets),
    /// then holds exactly the spawned volumes.
    pub fn list_spawn(&mut self, results: Vec<(String, SpawnerDisposition)>) -> (cleanups: Vec<
        (String, u64),
    >)
        requires
            old(self).wf(),
        ensures
            final(self).wf(),
            final(self).pending@ == old(self).pending@,
            final(self).wmi == old(self).wmi,
            forall|i: int| #![all_triggers]
                0 <= i < cleanups@.len() ==> reg_lookup(old(self).aborter.entries@, cleanups@[i].0@)
                    == Some(Some(cleanups@[i].1)),
            forall|i: int, j: int|
                0 <= i < j < cleanups@.len() ==> cleanups@[i].0@ != cleanups@[j].0@,
            forall|k: Seq<char>|
                reg_lookup(final(self).aborter.entries@, k) == disp_lookup(results@, k),
    {
        let cleanups = self.aborter.clear_abort();
        let mut results = results;
        let ghost full = results@;
        let ghost n = full.len();
        let m = results.len();
        proof {
            assert(n == m);
        }
        let mut i: usize = 0;
        proof {
            assert(results@ =~= full.subrange(0, n as int));
            assert forall|k: Seq<char>|
                reg_lookup(self.aborter.entries@, k) == disp_lookup(
                    full.subrange(0, 0),
                    k,
                ) by {
                lemma_reg_empty(self.aborter.entries@, k);
            }
        }
        while results.len() > 0
            invariant
                self.aborter.wf(),
                pending_wf(self.pending@),
                self.pending@ == old(self).pending@,
                self.wmi == old(self).wmi,
                n == full.len(),
                n <= usize::MAX,
                i <= n,
                i + results@.len() == n,
                results@ == full.subrange(i as int, n as int),
                forall|k: Seq<char>|
                    reg_lookup(self.aborter.entries@, k) == disp_lookup(
                        full.subrange(0, i as int),
                        k,
                    ),
            decreases results@.len(),
        {
            let ghost pre = full.subrange(0, i as int);
            let ghost pre_res = results@;
            let (name, disp) = results.remove(0);
            proof {
                assert(i < n);
                assert(n == full.len());
                assert(pre_res == full.subrange(i as int, n as int));
                assert(full.subrange(i as int, n as int).len() == n - i);
                assert(full.subrange(i as int, n as int)[0] == full[i as int]);
                assert(pre_res[0] == full[i as int]);
                assert(name == full[i as int].0);
                assert(disp == full[i as int].1);
                assert(results@ =~= pre_res.remove(0));
                assert(pre_res.remove(0) =~= pre_res.subrange(1, pre_res.len() as int));
                assert forall|a: int| 0 <= a < n - i - 1 implies pre_res.subrange(
                    1,
                    pre_res.len() as int,
                )[a] == full.subrange(i + 1, n as int)[a] by {
                    assert(pre_res[a + 1] == full.subrange(i as int, n as int)[a + 1]);
                    assert(full.subrange(i as int, n as int)[a + 1] == full[i + 1 + a]);
                    assert(full.subrange(i + 1, n as int)[a] == full[i + 1 + a]);
                }
                assert(pre_res.subrange(1, pre_res.len() as int) =~= full.subrange(
                    i + 1,
                    n as int,
                ));
                assert(full.subrange(0, i + 1).drop_last() =~= pre);
                assert(full.subrange(0, i + 1).last() == full[i as int]);
            }
            let ghost key_view = full[i as int].0@;
            let ghost pre_entries = self.aborter.entries@;
            proof {
                assert(name@ == key_view);
            }
            match disp {
                SpawnerDisposition::Spawned(handle, cleanup) => {
                    let _ = self.aborter.insert(name, handle, cleanup);
                    proof {
                        assert(full[i as int].1 matches SpawnerDisposition::Spawned(_, c2)
                            && c2 == cleanup);
                        assert(full.subrange(0, i + 1).drop_last() =~= pre);
                        assert(full.subrange(0, i + 1).last() == full[i as int]);
                        assert forall|k: Seq<char>|
                            reg_lookup(self.aborter.entries@, k) == disp_lookup(
                                full.subrange(0, i + 1),
                                k,
                            ) by {
                            assert(reg_lookup(pre_entries, k) == disp_lookup(pre, k));
                            if k == key_view {
                                assert(reg_lookup(self.aborter.entries@, k) == Some(cleanup));
                            } else {
                                assert(reg_lookup(self.aborter.entries@, k) == reg_lookup(
                                    pre_entries,
                                    k,
                                ));
                            }
                        }
                    }
                },
                SpawnerDisposition::Ignore => {
                    proof {
                        assert(full[i as int].1 is Ignore);
                        assert(full.subrange(0, i + 1).drop_last() =~= pre);
                        assert(full.subrange(0, i + 1).last() == full[i as int]);
                        assert forall|k: Seq<char>|
                            reg_lookup(self.aborter.entries@, k) == disp_lookup(
                                full.subrange(0, i + 1),
                                k,
                            ) by {
                            assert(reg_lookup(pre_entries, k) == disp_lookup(pre, k));
                        }
                    }
                },
                SpawnerDisposition::Skip => {
                    proof {
                        assert(full[i as int].1 is Skip);
                        assert(full.subrange(0, i + 1).drop_last() =~= pre);
                        assert(full.subrange(0, i + 1).last() == full[i as int]);
                        assert forall|k: Seq<char>|
                            reg_lookup(self.aborter.entries@, k) == disp_lookup(
                                full.subrange(0, i + 1),
                                k,
                            ) by {
                            assert(reg_lookup(pre_entries, k) == disp_lookup(pre, k));
                        }
                    }
                },
            }
            i = i + 1;
        }
        proof {
            assert(full.subrange(0, n as int) =~= full);
        }
        cleanups
    }
}


/// The listing that survives per-volume resolution: exactly the
/// volumes whose device identity resolved, in order; a volume whose
/// resolution failed is dropped, and the listing itself never fails
/// on that account.
pub open spec fn listing_spec(
    items: Seq<(VolumeName, Option<DeviceName>, Option<String>)>,
) -> Seq<(VolumeName, DeviceName, Option<String>)>
    decreases items.len(),
{
    if items.len() == 0 {
        seq![]
    } else {
        listing_spec(items.drop_last()) + (match items.last().1 {
            Some(d) => seq![(items.last().0, d, items.last().2)],
            None => seq![],
        })
    }
}

/// What a listing's dispositions leave registered: the last `Spawned`
/// entry per volume name.
pub open spec fn disp_lookup(rs: Seq<(String, SpawnerDisposition)>, k: Seq<char>) -> Option<
    Option<u64>,
>
    decreases rs.len(),
{
    if rs.len() == 0 {
        None
    } else {
        match rs.last().1 {
            SpawnerDisposition::Spawned(h, c) => if rs.last().0@ == k {
                Some(c)
            } else {
                disp_lookup(rs.drop_last(), k)
            },
            _ => disp_lookup(rs.drop_last(), k),
        }
    }
}


/// Ghost image of one notification event, as the transitions consume
/// them: an arrival, a removal, or one pending-queue drain step with
/// what the spawner answered.
pub enum VnsEventV {
    /// A device-interface arrival for the volume.
    Arrival { vol: Seq<char> },
    /// A device-interface removal for the volume.
    Removal { vol: Seq<char> },
    /// A drain step whose spawner answered `Spawned` with this
    /// cleanup ticket.
    DrainSpawned { vol: Seq<char>, cleanup: Option<u64> },
    /// A drain step that did not spawn (resolution failure, `Ignore`
    /// or `Skip`); it never touches the registry.
    DrainOther { vol: Seq<char> },
}

/// Whether the event is a `Spawned` drain for the volume.
pub open spec fn is_spawn_for(e: VnsEventV, k: Seq<char>) -> bool {
    e matches VnsEventV::DrainSpawned { vol, cleanup } && vol == k
}

/// What the registry maps `k` to after replaying the events from a
/// fresh notifier.  Each transition of [`HcmNotifier`] performs, by
/// its `ensures`, exactly one step of this replay:
/// [`HcmNotifier::on_removal`] clears the key, a `Spawned`
/// [`HcmNotifier::drain_step`] binds it, and every other event leaves
/// the registry as it was ([`lemma_replay_extends`]).
pub open spec fn replay_reg(evts: Seq<VnsEventV>, k: Seq<char>) -> Option<Option<u64>>
    decreases evts.len(),
{
    if evts.len() == 0 {
        None
    } else {
        match evts.last() {
            VnsEventV::Removal { vol } => if vol == k {
                None
            } else {
                replay_reg(evts.drop_last(), k)
            },
            VnsEventV::DrainSpawned { vol, cleanup } => if vol == k {
                Some(cleanup)
            } else {
                replay_reg(evts.drop_last(), k)
            },
            _ => replay_reg(evts.drop_last(), k),
        }
    }
}

/// One more event performs one replay step.
pub proof fn lemma_replay_extends(evts: Seq<VnsEventV>, e: VnsEventV, k: Seq<char>)
    ensures
        replay_reg(evts.push(e), k) == (match e {
            VnsEventV::Removal { vol } => if vol == k {
                None
            } else {
                replay_reg(evts, k)
            },
            VnsEventV::DrainSpawned { vol, cleanup } => if vol == k {
                Some(cleanup)
            } else {
                replay_reg(evts, k)
            },
            _ => replay_reg(evts, k),
        }),
{
    assert(evts.push(e).drop_last() =~= evts);
    assert(evts.push(e).last() == e);
}

/// The registry tracks the spawner, whatever the order of events: a
/// volume is registered after a run of events exactly on account of a
/// `Spawned` drain with no removal for it since, and its cleanup
/// ticket is that drain's; once a removal for it is processed and no
/// later drain spawns it again, it is absent.
pub proof fn lemma_registry_tracks_spawner(evts: Seq<VnsEventV>, k: Seq<char>)
    ensures
        replay_reg(evts, k) is Some ==> exists|i: int|
            0 <= i < evts.len() && #[trigger] evts[i] == (VnsEventV::DrainSpawned {
                vol: k,
                cleanup: replay_reg(evts, k)->0,
            }) && forall|j: int|
                i < j < evts.len() ==> #[trigger] evts[j] != (VnsEventV::Removal { vol: k }),
        (exists|i: int|
            0 <= i < evts.len() && #[trigger] evts[i] == (VnsEventV::Removal { vol: k })
                && forall|j: int| i < j < evts.len() ==> !is_spawn_for(#[trigger] evts[j], k))
            ==> replay_reg(evts, k) is None,
    decreases evts.len(),
{
    if evts.len() == 0 {
        return ;
    }
    let pre = evts.drop_last();
    let e = evts.last();
    lemma_registry_tracks_spawner(pre, k);

    if replay_reg(evts, k) is Some {
        if e == (VnsEventV::DrainSpawned { vol: k, cleanup: replay_reg(evts, k)->0 }) {
            let w = evts.len() - 1;
            assert(evts[w] == (VnsEventV::DrainSpawned {
                vol: k,
                cleanup: replay_reg(evts, k)->0,
            }) && forall|j: int|
                w < j < evts.len() ==> #[trigger] evts[j] != (VnsEventV::Removal { vol: k }));
        } else {
            assert(replay_reg(pre, k) == replay_reg(evts, k));
            let i = choose|i: int|
                0 <= i < pre.len() && #[trigger] pre[i] == (VnsEventV::DrainSpawned {
                    vol: k,
                    cleanup: replay_reg(pre, k)->0,
                }) && forall|j: int|
                    i < j < pre.len() ==> #[trigger] pre[j] != (VnsEventV::Removal { vol: k });
            assert(evts[i] == pre[i]);
            assert(e != (VnsEventV::Removal { vol: k }));
            assert(evts[i] == (VnsEventV::DrainSpawned {
                vol: k,
                cleanup: replay_reg(evts, k)->0,
            }) && forall|j: int|
                i < j < evts.len() ==> #[trigger] evts[j] != (VnsEventV::Removal { vol: k })) by {
                assert forall|j: int|
                    i < j < evts.len() implies #[trigger] evts[j] != (VnsEventV::Removal {
                        vol: k,
                    }) by {
                    if j < pre.len() {
                        assert(evts[j] == pre[j]);
                    }
                }
            }
        }
    }

    if exists|i: int|
        0 <= i < evts.len() && #[trigger] evts[i] == (VnsEventV::Removal { vol: k }) && forall|
            j: int,
        | i < j < evts.len() ==> !is_spawn_for(#[trigger] evts[j], k) {
        let i = choose|i: int|
            0 <= i < evts.len() && #[trigger] evts[i] == (VnsEventV::Removal { vol: k })
                && forall|j: int| i < j < evts.len() ==> !is_spawn_for(#[trigger] evts[j], k);
        if i == evts.len() - 1 {
            assert(replay_reg(evts, k) is None);
        } else {
            assert(evts[i] == pre[i]);
            assert(!is_spawn_for(e, k));
            assert(exists|i2: int|
                0 <= i2 < pre.len() && #[trigger] pre[i2] == (VnsEventV::Removal { vol: k })
                    && forall|j: int| i2 < j < pre.len() ==> !is_spawn_for(
                    #[trigger] pre[j],
                    k,
                )) by {
                assert(pre[i] == (VnsEventV::Removal { vol: k }) && forall|j: int|
                    i < j < pre.len() ==> !is_spawn_for(#[trigger] pre[j], k)) by {
                    assert forall|j: int| i < j < pre.len() implies !is_spawn_for(
                        #[trigger] pre[j],
                        k,
                    ) by {
                        assert(pre[j] == evts[j]);
                    }
                }
            }
            assert(replay_reg(pre, k) is None);
            match e {
                VnsEventV::Removal { vol } => {},
                VnsEventV::DrainSpawned { vol, cleanup } => {
                    assert(vol != k);
                },
                _ => {},
            }
        }
    }
}

/// An empty registry maps every key to nothing.
proof fn lemma_reg_empty(s: Seq<crate::registry::RegEntry>, k: Seq<char>)
    requires
        s.len() == 0,
    ensures
        reg_lookup(s, k) is None,
{
}

} // verus!

//! Global and per-file progress accounting.

use vstd::prelude::*;

verus! {

/// Bytes that may accumulate between two progress callbacks of one
/// tracking writer before a new callback is due.
pub const PROGRESS_REPORT_STEP: u64 = 65536;

/// A five-counter progress tuple: total, in progress, done, skipped,
/// failed.
#[derive(Debug, Clone, Copy, PartialEq, Eq, Structural)]
pub struct ProgressTIDSF {
    /// Entries discovered so far.
    pub total: u64,
    /// Entries started and not yet terminal.
    pub in_progress: u64,
    /// Entries finished successfully.
    pub done: u64,
    /// Entries skipped because the destination already matches.
    pub skipped: u64,
    /// Entries that reached a terminal failure.
    pub failed: u64,
}

impl ProgressTIDSF {
    /// The all-zero counter tuple.
    pub fn new() -> (r: Self)
        ensures
            r == (ProgressTIDSF { total: 0, in_progress: 0, done: 0, skipped: 0, failed: 0 }),
    {
        ProgressTIDSF { total: 0, in_progress: 0, done: 0, skipped: 0, failed: 0 }
    }
}

/// Global progress: one counter tuple over file counts, one over bytes.
#[derive(Debug, Clone, Copy, PartialEq, Eq, Structural)]
pub struct GlobalProgress {
    /// Counters over file counts.
    pub files: ProgressTIDSF,
    /// Counters over byte counts.
    pub bytes: ProgressTIDSF,
}

/// Progress milestones of one `sync` run.
#[derive(Debug, Clone, Copy, PartialEq, Eq, Structural)]
pub enum ProgressMilestone {
    /// Discovery is complete: the totals are final.
    DiscoveryComplete,
    /// Every copier has terminated.
    CopyComplete,
}

/// Progress of a single in-flight file.
#[derive(Debug, Clone, Copy, PartialEq, Eq, Structural)]
pub struct FileProgress {
    /// Bytes the file is expected to hold.
    pub total: u64,
    /// Bytes written so far.
    pub done: u64,
}

impl GlobalProgress {
    /// All counters zero.
    pub fn new() -> (r: Self)
        ensures
            r == GlobalProgress::spec_zero(),
    {
        GlobalProgress { files: ProgressTIDSF::new(), bytes: ProgressTIDSF::new() }
    }

    /// The all-zero progress value.
    pub open spec fn spec_zero() -> Self {
        GlobalProgress {
            files: ProgressTIDSF { total: 0, in_progress: 0, done: 0, skipped: 0, failed: 0 },
            bytes: ProgressTIDSF { total: 0, in_progress: 0, done: 0, skipped: 0, failed: 0 },
        }
    }

    /// Record the discovery of a file of `size` bytes.
    pub fn discovered_file(&mut self, size: u64)
        requires
            old(self).files.total < u64::MAX,
            old(self).bytes.total + size <= u64::MAX,
        ensures
            *final(self) == (GlobalProgress {
                files: ProgressTIDSF { total: (old(self).files.total + 1) as u64, ..old(self).files },
                bytes: ProgressTIDSF { total: (old(self).bytes.total + size) as u64, ..old(self).bytes },
            }),
    {
        self.files.total = self.files.total + 1;
        self.bytes.total = self.bytes.total + size;
    }

    /// Record that a discovered file of `size` bytes was skipped.
    pub fn skipped_file(&mut self, size: u64)
        requires
            old(self).files.skipped < u64::MAX,
            old(self).bytes.skipped + size <= u64::MAX,
        ensures
            *final(self) == (GlobalProgress {
                files: ProgressTIDSF { skipped: (old(self).files.skipped + 1) as u64, ..old(self).files },
                bytes: ProgressTIDSF { skipped: (old(self).bytes.skipped + size) as u64, ..old(self).bytes },
            }),
    {
        self.files.skipped = self.files.skipped + 1;
        self.bytes.skipped = self.bytes.skipped + size;
    }

    /// Record a discovery-phase failure: the entry enters the totals and
    /// immediately counts as failed.
    pub fn discovery_failed(&mut self)
        requires
            old(self).files.total < u64::MAX,
            old(self).files.failed < u64::MAX,
        ensures
            *final(self) == (GlobalProgress {
                files: ProgressTIDSF {
                    total: (old(self).files.total + 1) as u64,
                    failed: (old(self).files.failed + 1) as u64,
                    ..old(self).files
                },
                ..*old(self)
            }),
    {
        self.files.total = self.files.total + 1;
        self.files.failed = self.files.failed + 1;
    }

    /// Record a file that failed before any byte was written (no open,
    /// no permit).
    pub fn file_failed_early(&mut self)
        requires
            old(self).files.failed < u64::MAX,
        ensures
            *final(self) == (GlobalProgress {
                files: ProgressTIDSF { failed: (old(self).files.failed + 1) as u64, ..old(self).files },
                ..*old(self)
            }),
    {
        self.files.failed = self.files.failed + 1;
    }
}

/// Per-job write accounting: wraps one destination sink, updating the
/// global counters and a [`FileProgress`] on every write, throttling
/// progress callbacks, and finalising exactly once.
///
/// A callback is modelled by the `bool` results: `true` means the caller
/// owes the consumer a progress callback at that point.  Construction
/// itself stands for the initial callback.
#[derive(Debug, Clone, Copy, PartialEq, Eq, Structural)]
pub struct TrackingWriter {
    /// Bytes the source metadata promised.
    pub size: u64,
    /// Bytes successfully handed to the sink.
    pub written: u64,
    /// Value of `written` when the last callback was emitted.
    pub last_reported: u64,
    /// A write error or size mismatch was recorded.
    pub failed: bool,
    /// Terminal accounting has run.
    pub finalized: bool,
    /// Progress of this one file.
    pub fp: FileProgress,
}

impl TrackingWriter {
    /// Internal consistency: the per-file progress mirrors the bytes
    /// written and no callback lies in the future.
    pub open spec fn wf(self) -> bool {
        &&& self.last_reported <= self.written
        &&& self.fp.done == self.written
        &&& self.fp.total == self.size
    }

    /// Start tracking one file of `size` expected bytes; the file enters
    /// the in-progress count and the initial callback is emitted.
    pub fn new(size: u64, gp: &mut GlobalProgress) -> (w: Self)
        requires
            old(gp).files.in_progress < u64::MAX,
        ensures
            w == (TrackingWriter {
                size,
                written: 0,
                last_reported: 0,
                failed: false,
                finalized: false,
                fp: FileProgress { total: size, done: 0 },
            }),
            *final(gp) == (GlobalProgress {
                files: ProgressTIDSF {
                    in_progress: (old(gp).files.in_progress + 1) as u64,
                    ..old(gp).files
                },
                ..*old(gp)
            }),
    {
        gp.files.in_progress = gp.files.in_progress + 1;
        TrackingWriter {
            size,
            written: 0,
            last_reported: 0,
            failed: false,
            finalized: false,
            fp: FileProgress { total: size, done: 0 },
        }
    }

    /// Record a successful write of `n` bytes.  Returns whether a
    /// progress callback is due: at most once per
    /// [`PROGRESS_REPORT_STEP`] accumulated bytes.
    ///
    /// Each callback sets `last_reported` to the bytes written at that
    /// moment (construction emits the initial callback at zero), and a
    /// new callback is due only once the written bytes exceed
    /// `last_reported` by the step.  Between two consecutive callbacks
    /// of one writer, therefore, either at least the step was written
    /// or the writer finalised.
    pub fn on_write(&mut self, n: u64, gp: &mut GlobalProgress) -> (reported: bool)
        requires
            old(self).wf(),
            old(self).written + n <= u64::MAX,
            old(gp).bytes.in_progress + n <= u64::MAX,
        ensures
            final(self).wf(),
            old(self).failed || old(self).finalized ==> {
                &&& *final(self) == *old(self)
                &&& *final(gp) == *old(gp)
                &&& !reported
            },
            !old(self).failed && !old(self).finalized ==> {
                &&& final(self).written == old(self).written + n
                &&& final(self).fp == (FileProgress {
                    done: (old(self).fp.done + n) as u64,
                    ..old(self).fp
                })
                &&& *final(gp) == (GlobalProgress {
                    bytes: ProgressTIDSF {
                        in_progress: (old(gp).bytes.in_progress + n) as u64,
                        ..old(gp).bytes
                    },
                    ..*old(gp)
                })
                &&& reported <==> old(self).written + n - old(self).last_reported
                    >= PROGRESS_REPORT_STEP
                &&& final(self).last_reported == (if reported {
                    final(self).written
                } else {
                    old(self).last_reported
                })
                &&& final(self).size == old(self).size
                &&& final(self).failed == old(self).failed
                &&& final(self).finalized == old(self).finalized
            },
    {
        if self.failed || self.finalized {
            return false;
        }
        self.written = self.written + n;
        self.fp.done = self.fp.done + n;
        gp.bytes.in_progress = gp.bytes.in_progress + n;
        if self.written - self.last_reported >= PROGRESS_REPORT_STEP {
            self.last_reported = self.written;
            true
        } else {
            false
        }
    }

    /// Record an I/O error: the file fails exactly once.
    pub fn on_error(&mut self, gp: &mut GlobalProgress)
        requires
            old(gp).bytes.failed + old(self).size <= u64::MAX,
            old(gp).files.failed < u64::MAX,
            !old(self).failed ==> old(gp).files.in_progress >= 1,
        ensures
            old(self).failed ==> *final(self) == *old(self) && *final(gp) == *old(gp),
            !old(self).failed ==> {
                &&& *final(self) == (TrackingWriter { failed: true, ..*old(self) })
                &&& *final(gp) == (GlobalProgress {
                    files: ProgressTIDSF {
                        in_progress: (old(gp).files.in_progress - 1) as u64,
                        failed: (old(gp).files.failed + 1) as u64,
                        ..old(gp).files
                    },
                    bytes: ProgressTIDSF {
                        failed: (old(gp).bytes.failed + old(self).size) as u64,
                        ..old(gp).bytes
                    },
                })
            },
    {
        if !self.failed {
            gp.bytes.failed = gp.bytes.failed + self.size;
            gp.files.in_progress = gp.files.in_progress - 1;
            gp.files.failed = gp.files.failed + 1;
            self.failed = true;
        }
    }

    /// Terminal accounting, run exactly once: on a full write the file
    /// and its bytes move to done; on a size mismatch the file fails.
    /// The final progress callback is always due, so this returns no
    /// flag.
    pub fn finalize(&mut self, gp: &mut GlobalProgress)
        requires
            !old(self).failed && !old(self).finalized ==> old(gp).files.in_progress >= 1,
            !old(self).failed && !old(self).finalized && old(self).written == old(self).size ==> {
                &&& old(gp).bytes.in_progress >= old(self).size
                &&& old(gp).bytes.done + old(self).written <= u64::MAX
                &&& old(gp).files.done < u64::MAX
            },
            !old(self).failed && !old(self).finalized && old(self).written != old(self).size ==> {
                &&& old(gp).bytes.failed + old(self).size <= u64::MAX
                &&& old(gp).files.failed < u64::MAX
            },
        ensures
            old(self).failed || old(self).finalized ==> {
                &&& *final(self) == (TrackingWriter { finalized: true, ..*old(self) })
                &&& *final(gp) == *old(gp)
            },
            !old(self).failed && !old(self).finalized && old(self).written == old(self).size ==> {
                &&& *final(self) == (TrackingWriter { finalized: true, ..*old(self) })
                &&& *final(gp) == (GlobalProgress {
                    files: ProgressTIDSF {
                        in_progress: (old(gp).files.in_progress - 1) as u64,
                        done: (old(gp).files.done + 1) as u64,
                        ..old(gp).files
                    },
                    bytes: ProgressTIDSF {
                        in_progress: (old(gp).bytes.in_progress - old(self).size) as u64,
                        done: (old(gp).bytes.done + old(self).written) as u64,
                        ..old(gp).bytes
                    },
                })
            },
            !old(self).failed && !old(self).finalized && old(self).written != old(self).size ==> {
                &&& *final(self) == (TrackingWriter {
                    finalized: true,
                    failed: true,
                    ..*old(self)
                })
                &&& *final(gp) == (GlobalProgress {
                    files: ProgressTIDSF {
                        in_progress: (old(gp).files.in_progress - 1) as u64,
                        failed: (old(gp).files.failed + 1) as u64,
                        ..old(gp).files
                    },
                    bytes: ProgressTIDSF {
                        failed: (old(gp).bytes.failed + old(self).size) as u64,
                        ..old(gp).bytes
                    },
                })
            },
    {
        if !self.failed && !self.finalized {
            if self.written == self.size {
                gp.bytes.in_progress = gp.bytes.in_progress - self.size;
                gp.bytes.done = gp.bytes.done + self.written;
                gp.files.in_progress = gp.files.in_progress - 1;
                gp.files.done = gp.files.done + 1;
            } else {
                gp.bytes.failed = gp.bytes.failed + self.size;
                gp.files.in_progress = gp.files.in_progress - 1;
                gp.files.failed = gp.files.failed + 1;
                self.failed = true;
            }
        }
        self.finalized = true;
    }

    /// Remove the provisional done accounting of a finalised successful
    /// write, used when a short copy is detected only after terminal
    /// accounting ran.  Does nothing on a writer that failed or has not
    /// finalised.
    pub fn revert_progress(&mut self, gp: &mut GlobalProgress)
        requires
            !old(self).failed && old(self).finalized ==> {
                &&& old(gp).bytes.done >= old(self).written
                &&& old(gp).files.done >= 1
            },
        ensures
            old(self).failed || !old(self).finalized ==> *final(gp) == *old(gp),
            !old(self).failed && old(self).finalized ==> *final(gp) == (GlobalProgress {
                files: ProgressTIDSF {
                    done: (old(gp).files.done - 1) as u64,
                    ..old(gp).files
                },
                bytes: ProgressTIDSF {
                    done: (old(gp).bytes.done - old(self).written) as u64,
                    ..old(gp).bytes
                },
            }),
            *final(self) == *old(self),
    {
        if !self.failed && self.finalized {
            gp.bytes.done = gp.bytes.done - self.written;
            gp.files.done = gp.files.done - 1;
        }
    }
}

} // verus!

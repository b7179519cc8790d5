//! Tests of the mirror engine: walker, copier, counters, milestones.

use volsync::config::{Config, ConfigIssue, DeviceMatchConfig, SyncPairDest, SyncPairSource, SyncPairs};
use volsync::engine::{copy_file, one_pct, tick_due, CopyJob, Semaphore, SyncFS, WalkAction};
use volsync::errors::SyncError;
use volsync::fsmodel::{DestState, FileMeta, SrcNode};
use volsync::progress::{GlobalProgress, ProgressMilestone, TrackingWriter};

fn seg(s: &str) -> String {
    s.to_string()
}

fn file(mtime: u64, content: &[u8]) -> SrcNode {
    SrcNode::File {
        meta: FileMeta { size: content.len() as u64, mtime },
        content: Some(content.to_vec()),
    }
}

fn two_file_tree() -> SrcNode {
    SrcNode::Dir {
        entries: vec![
            (seg("a.txt"), file(100, b"hello world")),
            (
                seg("sub"),
                SrcNode::Dir { entries: vec![(seg("b.txt"), file(100, b"goodbye world"))] },
            ),
        ],
    }
}

fn dest_content(dest: &DestState, path: &[&str]) -> Option<Vec<u8>> {
    let p: Vec<String> = path.iter().map(|s| s.to_string()).collect();
    dest.get(&p).map(|f| f.content.clone())
}

#[test]
fn test_copy_file() {
    let mut gp = GlobalProgress::new();
    let mut dest = DestState::new();
    let job = CopyJob {
        path: vec![seg("dest")],
        size: 11,
        mtime: 0,
        content: Some(b"hello world".to_vec()),
    };
    let copied = copy_file(&job, true, &mut gp, &mut dest).unwrap();
    assert_eq!(copied, 11);
    assert_eq!(dest_content(&dest, &["dest"]).unwrap(), b"hello world");
}

#[test]
fn test_sync() {
    let src = SrcNode::Dir {
        entries: vec![
            (seg("file"), file(10, b"hello world")),
            (
                seg("subdir"),
                SrcNode::Dir { entries: vec![(seg("subfile"), file(10, b"goodbye world"))] },
            ),
        ],
    };
    let mut dest = DestState::new();
    let mut sync = SyncFS::new(seg("src"), seg("dest"), 1);
    let report = sync.sync(&src, &mut dest);
    assert!(report.errors.is_empty(), "Error occurred: {:?}", report.errors);
    assert_eq!(sync.progress.files.done, 2);
    assert_eq!(dest_content(&dest, &["file"]).unwrap(), b"hello world");
    assert_eq!(dest_content(&dest, &["subdir", "subfile"]).unwrap(), b"goodbye world");
}

#[test]
fn test_sync_two_files_counters() {
    let src = two_file_tree();
    let mut dest = DestState::new();
    let mut sync = SyncFS::new(seg("src"), seg("dest"), 1);
    let report = sync.sync(&src, &mut dest);
    assert!(report.errors.is_empty());
    assert_eq!(sync.progress.files.total, 2);
    assert_eq!(sync.progress.files.done, 2);
    assert_eq!(sync.progress.files.failed, 0);
    assert_eq!(sync.progress.files.in_progress, 0);
    assert_eq!(sync.progress.bytes.done, 24);
    assert_eq!(dest_content(&dest, &["a.txt"]).unwrap(), b"hello world");
    assert_eq!(dest_content(&dest, &["sub", "b.txt"]).unwrap(), b"goodbye world");
}

#[test]
fn test_sync_second_run_skips() {
    let mut dest = DestState::new();
    let mut first = SyncFS::new(seg("src"), seg("dest"), 1);
    let _ = first.sync(&two_file_tree(), &mut dest);
    let mut second = SyncFS::new(seg("src"), seg("dest"), 1);
    let report = second.sync(&two_file_tree(), &mut dest);
    assert!(report.errors.is_empty());
    assert_eq!(second.progress.files.total, 2);
    assert_eq!(second.progress.files.skipped, 2);
    assert_eq!(second.progress.files.done, 0);
    assert_eq!(second.progress.bytes.skipped, 24);
    assert_eq!(dest_content(&dest, &["a.txt"]).unwrap(), b"hello world");
}

#[test]
fn test_sync_empty_tree() {
    let src = SrcNode::Dir { entries: vec![] };
    let mut dest = DestState::new();
    let mut sync = SyncFS::new(seg("src"), seg("dest"), 1);
    let report = sync.sync(&src, &mut dest);
    assert_eq!(
        report.milestones,
        vec![ProgressMilestone::DiscoveryComplete, ProgressMilestone::CopyComplete]
    );
    assert!(report.errors.is_empty());
    assert_eq!(sync.progress.files.total, 0);
    assert_eq!(sync.progress.files.done, 0);
    assert_eq!(sync.progress.bytes.total, 0);
}

#[test]
fn test_sync_recopies_older_destination() {
    let mut content = Vec::with_capacity(1 << 20);
    let mut x: u32 = 0x2545_f491;
    for _ in 0..(1 << 20) {
        x = x.wrapping_mul(1664525).wrapping_add(1013904223);
        content.push((x >> 24) as u8);
    }
    let src = SrcNode::Dir {
        entries: vec![(
            seg("big.bin"),
            SrcNode::File {
                meta: FileMeta { size: 1 << 20, mtime: 200 },
                content: Some(content.clone()),
            },
        )],
    };
    // Pre-existing destination: same size, older mtime.
    let mut dest = DestState::new();
    let mut first = SyncFS::new(seg("src"), seg("dest"), 1);
    let older = SrcNode::Dir {
        entries: vec![(
            seg("big.bin"),
            SrcNode::File {
                meta: FileMeta { size: 1 << 20, mtime: 100 },
                content: Some(vec![0u8; 1 << 20]),
            },
        )],
    };
    let _ = first.sync(&older, &mut dest);
    let mut sync = SyncFS::new(seg("src"), seg("dest"), 1);
    let report = sync.sync(&src, &mut dest);
    assert!(report.errors.is_empty());
    assert_eq!(sync.progress.files.done, 1);
    assert_eq!(sync.progress.files.skipped, 0);
    assert_eq!(sync.progress.bytes.done, 1 << 20);
    assert_eq!(dest_content(&dest, &["big.bin"]).unwrap(), content);
}

#[test]
fn test_sync_vanished_source_continues() {
    let src = SrcNode::Dir {
        entries: vec![
            (
                seg("gone.txt"),
                SrcNode::File { meta: FileMeta { size: 5, mtime: 10 }, content: None },
            ),
            (seg("ok.txt"), file(10, b"still here")),
        ],
    };
    let mut dest = DestState::new();
    let mut sync = SyncFS::new(seg("src"), seg("dest"), 1);
    let report = sync.sync(&src, &mut dest);
    assert_eq!(report.errors.len(), 1);
    match &report.errors[0] {
        SyncError::CopyFailed { path } => assert_eq!(path, &vec![seg("gone.txt")]),
        e => panic!("unexpected error {:?}", e),
    }
    assert_eq!(sync.progress.files.total, 2);
    assert_eq!(sync.progress.files.done, 1);
    assert_eq!(sync.progress.files.failed, 1);
    assert_eq!(sync.progress.files.in_progress, 0);
    assert_eq!(dest_content(&dest, &["ok.txt"]).unwrap(), b"still here");
}

#[test]
fn test_sync_unreadable_entry_reported() {
    let src = SrcNode::Dir {
        entries: vec![(seg("bad"), SrcNode::Unreadable), (seg("ok.txt"), file(1, b"x"))],
    };
    let mut dest = DestState::new();
    let mut sync = SyncFS::new(seg("src"), seg("dest"), 1);
    let report = sync.sync(&src, &mut dest);
    assert_eq!(report.errors.len(), 1);
    match &report.errors[0] {
        SyncError::StatFailed { path } => assert_eq!(path, &vec![seg("bad")]),
        e => panic!("unexpected error {:?}", e),
    }
    assert_eq!(sync.progress.files.total, 2);
    assert_eq!(sync.progress.files.failed, 1);
    assert_eq!(sync.progress.files.done, 1);
}

#[test]
fn test_short_copy_reported() {
    let mut gp = GlobalProgress::new();
    let mut dest = DestState::new();
    let job = CopyJob {
        path: vec![seg("f")],
        size: 100,
        mtime: 0,
        content: Some(b"short".to_vec()),
    };
    match copy_file(&job, true, &mut gp, &mut dest) {
        Err(SyncError::ShortCopy { path, copied, expected }) => {
            assert_eq!(path, vec![seg("f")]);
            assert_eq!(copied, 5);
            assert_eq!(expected, 100);
        }
        r => panic!("unexpected result {:?}", r),
    }
    assert_eq!(gp.files.failed, 1);
    assert_eq!(gp.bytes.failed, 100);
    assert!(dest_content(&dest, &["f"]).is_none());
}

#[test]
fn test_copy_without_permit_cancelled() {
    let mut gp = GlobalProgress::new();
    let mut dest = DestState::new();
    let job = CopyJob { path: vec![seg("f")], size: 1, mtime: 0, content: Some(vec![7]) };
    match copy_file(&job, false, &mut gp, &mut dest) {
        Err(SyncError::Cancelled) => {}
        r => panic!("unexpected result {:?}", r),
    }
    assert_eq!(gp.files.failed, 1);
}

#[test]
fn test_mkdir_precedes_children_in_plan() {
    let src = two_file_tree();
    let mut dest = DestState::new();
    let mut sync = SyncFS::new(seg("src"), seg("dest"), 1);
    let report = sync.sync(&src, &mut dest);
    let mut seen_dirs: Vec<Vec<String>> = Vec::new();
    for action in &report.actions {
        match action {
            WalkAction::MkDir { path } => seen_dirs.push(path.clone()),
            WalkAction::Emit { path } => {
                let mut parent = path.clone();
                parent.pop();
                assert!(
                    seen_dirs.contains(&parent),
                    "no mkdir before copy of {:?}",
                    path
                );
            }
            _ => {}
        }
    }
}

#[test]
fn test_tracking_writer_throttle() {
    let mut gp = GlobalProgress::new();
    let mut w = TrackingWriter::new(200000, &mut gp);
    assert!(!w.on_write(30000, &mut gp));
    assert!(w.on_write(40000, &mut gp));
    assert!(!w.on_write(60000, &mut gp));
    assert!(w.on_write(10000, &mut gp));
    w.finalize(&mut gp);
    // 30000 + 40000 + 60000 + 10000 != 200000: size mismatch fails the file.
    assert_eq!(gp.files.failed, 1);
}

#[test]
fn test_tracking_writer_success_accounting() {
    let mut gp = GlobalProgress::new();
    let mut w = TrackingWriter::new(10, &mut gp);
    assert_eq!(gp.files.in_progress, 1);
    let _ = w.on_write(10, &mut gp);
    w.finalize(&mut gp);
    assert_eq!(gp.files.in_progress, 0);
    assert_eq!(gp.files.done, 1);
    assert_eq!(gp.bytes.done, 10);
    assert_eq!(gp.bytes.in_progress, 0);
}

#[test]
fn test_tracking_writer_error_once() {
    let mut gp = GlobalProgress::new();
    let mut w = TrackingWriter::new(50, &mut gp);
    w.on_error(&mut gp);
    w.on_error(&mut gp);
    assert_eq!(gp.files.failed, 1);
    assert_eq!(gp.bytes.failed, 50);
    assert_eq!(gp.files.in_progress, 0);
}

#[test]
fn test_tracking_writer_ignores_late_writes() {
    let mut gp = GlobalProgress::new();
    let mut w = TrackingWriter::new(10, &mut gp);
    let _ = w.on_write(10, &mut gp);
    w.finalize(&mut gp);
    let snapshot = gp;
    assert!(!w.on_write(5, &mut gp));
    assert_eq!(gp, snapshot);
}

#[test]
fn test_semaphore_single_permit() {
    let mut s = Semaphore::new(1);
    assert!(s.try_acquire());
    assert!(!s.try_acquire());
    s.release();
    assert!(s.try_acquire());
    assert_eq!(s.held, 1);
    assert_eq!(s.max, 1);
}

#[test]
fn test_one_pct_and_tick() {
    assert_eq!(one_pct(0), 1);
    assert_eq!(one_pct(99), 1);
    assert_eq!(one_pct(500), 5);
    assert!(tick_due(10, 5, 5));
    assert!(!tick_due(10, 6, 5));
}

#[test]
fn test_config_validation() {
    let good = Config {
        pairs: vec![SyncPairs {
            src: SyncPairSource {
                matcher: DeviceMatchConfig {
                    volume: Some(seg("\\\\?\\Volume{x}")),
                    device: None,
                },
                path: seg("photos"),
            },
            dest: SyncPairDest { path: seg("/backup") },
            concurrency: 2,
        }],
    };
    assert!(good.validate().is_ok());

    let zero = Config {
        pairs: vec![SyncPairs {
            src: SyncPairSource {
                matcher: DeviceMatchConfig { volume: Some(seg("v")), device: None },
                path: seg("p"),
            },
            dest: SyncPairDest { path: seg("d") },
            concurrency: 0,
        }],
    };
    let e = zero.validate().unwrap_err();
    assert_eq!(e.pair, 0);
    assert_eq!(e.issue, ConfigIssue::ZeroConcurrency);

    let unmatched = Config {
        pairs: vec![SyncPairs {
            src: SyncPairSource {
                matcher: DeviceMatchConfig { volume: None, device: None },
                path: seg("p"),
            },
            dest: SyncPairDest { path: seg("d") },
            concurrency: 1,
        }],
    };
    let e = unmatched.validate().unwrap_err();
    assert_eq!(e.issue, ConfigIssue::NoMatchField);
}

#[test]
fn test_device_match() {
    let m = DeviceMatchConfig { volume: Some(seg("VOL")), device: Some(seg("DEV")) };
    assert!(m.matches("VOL", "DEV"));
    assert!(!m.matches("VOL", "OTHER"));
    assert!(!m.matches("OTHER", "DEV"));
    let volume_only = DeviceMatchConfig { volume: Some(seg("VOL")), device: None };
    assert!(volume_only.matches("VOL", "anything"));
}

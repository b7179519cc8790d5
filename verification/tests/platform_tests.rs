//! Tests of the platform-side models: abort registry, notification
//! source, mount-manager decoding, string lists, and the byte buffer.

use volsync::buffer::AlignedBuffer;
use volsync::engine::{apply_mkdir_failures, WalkAction};
use volsync::errors::{Error, SyncError};
use volsync::mount::{parse_mountdev_name, MountMgr, QuerySession};
use volsync::pzz::PzzWSTRIter;
use volsync::registry::AbortHandleHolder;
use volsync::shell::{LazyCell, Message, NotificationSource, TaskID, UnimplementedNotifier};
use volsync::vns::{DrainResolution, HcmNotifier, ListSession, SpawnerDisposition};
use volsync::volume::{find_dos_path, DeviceName, VolumeName};

use tokio::task::AbortHandle;

fn runtime() -> tokio::runtime::Runtime {
    tokio::runtime::Builder::new_multi_thread().enable_all().build().unwrap()
}

fn dummy_handle(rt: &tokio::runtime::Runtime) -> AbortHandle {
    rt.spawn(std::future::pending::<()>()).abort_handle()
}

#[test]
fn test_registry_clear_abort() {
    let rt = runtime();
    let mut reg = AbortHandleHolder::new();
    assert!(reg.insert("v1".to_string(), dummy_handle(&rt), Some(1)).is_none());
    assert!(reg.insert("v2".to_string(), dummy_handle(&rt), None).is_none());
    let cleanups = reg.clear_abort();
    assert!(reg.entries.is_empty());
    assert_eq!(cleanups.len(), 1);
    assert_eq!(cleanups[0].0, "v1");
    assert_eq!(cleanups[0].1, 1);
}

#[test]
fn test_registry_insert_replaces() {
    let rt = runtime();
    let mut reg = AbortHandleHolder::new();
    assert_eq!(reg.insert("v".to_string(), dummy_handle(&rt), Some(1)), None);
    let prev = reg.insert("v".to_string(), dummy_handle(&rt), Some(2));
    assert_eq!(prev, Some(Some(1)));
    assert_eq!(reg.entries.len(), 1);
}

#[test]
fn test_registry_remove_abort_once() {
    let rt = runtime();
    let mut reg = AbortHandleHolder::new();
    let _ = reg.insert("v".to_string(), dummy_handle(&rt), Some(7));
    assert_eq!(reg.remove_abort(&"v".to_string()), Some(Some(7)));
    assert_eq!(reg.remove_abort(&"v".to_string()), None);
}

#[test]
fn test_vns_spawner_ignore_keeps_registry_empty() {
    let mut vns = HcmNotifier::new();
    vns.on_arrival("V".to_string());
    let _ = vns.drain_step(&"V".to_string(), DrainResolution::Resolved(SpawnerDisposition::Ignore));
    assert!(vns.pending.is_empty());
    assert!(vns.aborter.entries.is_empty());
}

#[test]
fn test_vns_skip_keeps_pending() {
    let mut vns = HcmNotifier::new();
    vns.on_arrival("V".to_string());
    let _ = vns.drain_step(&"V".to_string(), DrainResolution::Resolved(SpawnerDisposition::Skip));
    assert_eq!(vns.pending.len(), 1);
    assert!(vns.aborter.entries.is_empty());
}

#[test]
fn test_vns_arrival_spawn_then_removal() {
    let rt = runtime();
    let mut vns = HcmNotifier::new();
    vns.on_arrival("V".to_string());
    let _ = vns.drain_step(
        &"V".to_string(),
        DrainResolution::Resolved(SpawnerDisposition::Spawned(dummy_handle(&rt), Some(42))),
    );
    assert!(vns.pending.is_empty());
    assert_eq!(vns.aborter.entries.len(), 1);
    let cleanup = vns.on_removal(&"V".to_string());
    assert_eq!(cleanup, Some(Some(42)));
    assert!(vns.aborter.entries.is_empty());
    assert_eq!(vns.on_removal(&"V".to_string()), None);
}

#[test]
fn test_vns_resolve_failure_drops_volume() {
    let mut vns = HcmNotifier::new();
    vns.on_arrival("V".to_string());
    let _ = vns.drain_step(&"V".to_string(), DrainResolution::ResolveFailed);
    assert!(vns.pending.is_empty());
    assert!(vns.aborter.entries.is_empty());
}

#[test]
fn test_vns_start_pause_reset() {
    let rt = runtime();
    let mut vns = HcmNotifier::new();
    assert!(vns.start());
    assert!(!vns.start());
    assert!(vns.wmi.registered);
    let _ = vns.drain_step(
        &"V".to_string(),
        DrainResolution::Resolved(SpawnerDisposition::Spawned(dummy_handle(&rt), Some(5))),
    );
    assert!(vns.pause());
    assert!(!vns.wmi.registered);
    let cleanups = vns.reset();
    assert!(vns.aborter.entries.is_empty());
    assert_eq!(cleanups, vec![("V".to_string(), 5)]);
}

#[test]
fn test_vns_list_spawn() {
    let rt = runtime();
    let mut vns = HcmNotifier::new();
    let _ = vns.drain_step(
        &"OLD".to_string(),
        DrainResolution::Resolved(SpawnerDisposition::Spawned(dummy_handle(&rt), Some(9))),
    );
    let results = vec![
        ("A".to_string(), SpawnerDisposition::Spawned(dummy_handle(&rt), Some(1))),
        ("B".to_string(), SpawnerDisposition::Ignore),
        ("C".to_string(), SpawnerDisposition::Spawned(dummy_handle(&rt), None)),
    ];
    let cleanups = vns.list_spawn(results);
    assert_eq!(cleanups, vec![("OLD".to_string(), 9)]);
    assert_eq!(vns.aborter.entries.len(), 2);
}

#[test]
fn test_query_session_growth() {
    let mut s = QuerySession::new(256);
    assert_eq!(s.on_result(true), Ok(false));
    assert_eq!(s.buf_size, 512);
    assert_eq!(s.on_result(false), Ok(true));
}

#[test]
fn test_query_session_exhaustion() {
    let mut s = QuerySession::new(64);
    assert_eq!(s.on_result(true), Ok(false));
    assert_eq!(s.on_result(true), Ok(false));
    assert_eq!(s.on_result(true), Ok(false));
    assert_eq!(s.on_result(true), Ok(false));
    assert_eq!(s.on_result(true), Err(Error::TooManyRetries));
}

#[test]
fn test_list_session_retries() {
    let mut s = ListSession::new();
    assert_eq!(s.on_result(true), Ok(false));
    assert_eq!(s.on_result(false), Ok(true));
    let mut t = ListSession::new();
    for _ in 0..4 {
        assert_eq!(t.on_result(true), Ok(false));
    }
    assert_eq!(t.on_result(true), Err(Error::TooManyRetries));
}

fn mount_reply(names: &[&str]) -> Vec<u8> {
    // Header: size (u32), count (u32); entries of 24 bytes at offset 8;
    // name bytes appended after the entries.
    let count = names.len();
    let mut strings: Vec<Vec<u8>> = Vec::new();
    for n in names {
        let mut bytes = Vec::new();
        for unit in n.encode_utf16() {
            bytes.extend_from_slice(&unit.to_le_bytes());
        }
        strings.push(bytes);
    }
    let mut buf = vec![0u8; 8 + 24 * count];
    buf[4..8].copy_from_slice(&(count as u32).to_le_bytes());
    for (i, bytes) in strings.iter().enumerate() {
        let off = buf.len() as u32;
        let base = 8 + 24 * i;
        buf[base..base + 4].copy_from_slice(&off.to_le_bytes());
        buf[base + 4..base + 6].copy_from_slice(&(bytes.len() as u16).to_le_bytes());
        buf.extend_from_slice(bytes);
    }
    let total = buf.len() as u32;
    buf[0..4].copy_from_slice(&total.to_le_bytes());
    buf
}

#[test]
fn test_mount_query_decode_and_strip() {
    let buf = mount_reply(&["\\DosDevices\\C:", "\\??\\Volume{1}"]);
    let mgr = MountMgr::new();
    let names = mgr.query_points(&buf).unwrap();
    assert_eq!(names, vec!["\\DosDevices\\C:".to_string(), "\\??\\Volume{1}".to_string()]);
    let dev = DeviceName("\\Device\\HarddiskVolume3".to_string());
    let paths = dev.dos_paths(&names);
    assert_eq!(paths, vec!["C:".to_string()]);
}

#[test]
fn test_mount_query_rejects_overrun() {
    let mut buf = mount_reply(&["\\DosDevices\\D:"]);
    // Announce one more entry than the buffer holds.
    buf[4..8].copy_from_slice(&2u32.to_le_bytes());
    let mgr = MountMgr::new();
    assert_eq!(mgr.query_points(&buf), Err(Error::Overflow));
}

#[test]
fn test_parse_mountdev_name() {
    let name: Vec<u16> = "\\Device\\HarddiskVolume3".encode_utf16().collect();
    let mut buf = Vec::new();
    buf.extend_from_slice(&((name.len() * 2) as u16).to_le_bytes());
    for unit in &name {
        buf.extend_from_slice(&unit.to_le_bytes());
    }
    let parsed = parse_mountdev_name(&buf).unwrap();
    assert_eq!(parsed, name);
    assert_eq!(parse_mountdev_name(&vec![8, 0]), Err(Error::Overflow));
}

#[test]
fn test_find_dos_path() {
    assert_eq!(find_dos_path("\\DosDevices\\C:"), Some("C:"));
    assert_eq!(find_dos_path("\\??\\Volume{1}"), None);
    assert_eq!(find_dos_path("short"), None);
}

#[test]
fn test_volume_dos_paths() {
    let vol = VolumeName { name: "\\\\?\\Volume{guid}".to_string() };
    assert_eq!(vol.name(), "\\\\?\\Volume{guid}");
    let points = vec!["\\DosDevices\\E:".to_string(), "\\other".to_string()];
    assert_eq!(vol.dos_paths(&points), vec!["E:".to_string()]);
}

#[test]
fn test_pzz_iteration() {
    let data: Vec<u16> = vec![97, 98, 0, 99, 0, 0];
    let mut it = PzzWSTRIter::new(data).unwrap();
    assert_eq!(it.next(), Some(vec![97, 98]));
    assert_eq!(it.next(), Some(vec![99]));
    assert_eq!(it.next(), None);
}

#[test]
fn test_pzz_all_and_reject() {
    let data: Vec<u16> = vec![104, 105, 0, 0];
    let mut it = PzzWSTRIter::new(data).unwrap();
    assert_eq!(it.all(), vec![vec![104, 105]]);
    assert!(PzzWSTRIter::new(vec![104, 105]).is_none());
}

#[test]
fn test_aligned_buffer_writes() {
    let mut buf = AlignedBuffer::new(16, 8).unwrap();
    assert_eq!(buf.byte_len(), 16);
    assert_eq!(buf.write_aligned(&vec![1u8], 1), Some(0));
    // Next write aligned to 4 lands at offset 4.
    assert_eq!(buf.write_aligned(&vec![2u8, 3u8], 4), Some(4));
    assert_eq!(buf.bytes()[0], 1);
    assert_eq!(buf.bytes()[4], 2);
    assert_eq!(buf.bytes()[5], 3);
    // Too large for the space left: refused with the buffer untouched.
    assert_eq!(buf.write_aligned(&vec![0u8; 11], 1), None);
    assert_eq!(buf.write_aligned(&vec![0u8; 10], 1), Some(6));
}

#[test]
fn test_aligned_buffer_rejects_bad_align() {
    assert!(AlignedBuffer::new(8, 3).is_none());
    assert!(AlignedBuffer::new(8, 0).is_none());
    assert!(AlignedBuffer::new(8, 4).is_some());
}

#[test]
fn test_lazycell_evaluates_once() {
    let mut cell = LazyCell::new(|| 41 + 1);
    assert_eq!(*cell.get(), 42);
    assert_eq!(*cell.get(), 42);
}

#[test]
fn test_unimplemented_notifier() {
    let mut n: UnimplementedNotifier<()> = match UnimplementedNotifier::new(()) {
        Ok(n) => n,
        Err(_) => panic!("stub constructor cannot fail"),
    };
    let listing = match n.list() {
        Ok(l) => l,
        Err(_) => panic!("stub list cannot fail"),
    };
    assert!(listing.is_empty());
    assert!(n.list_spawn().is_ok());
    assert!(n.start().is_ok());
    assert!(n.pause().is_ok());
    assert!(n.reset().is_ok());
}

#[test]
fn test_shell_basics() {
    assert!(volsync::shell::platform_init().is_ok());
    let id = TaskID(3);
    assert_eq!(id.0, 3);
    assert_ne!(Message::InitSpawn, Message::ListMounts);
    let err = volsync::shell::NotImplementedError;
    assert_eq!(err.message(), "Not implemented");
}

#[test]
fn test_volumes_from_buffer() {
    let mut buffer: Vec<u16> = Vec::new();
    for name in ["\\\\?\\Volume{1}", "\\\\?\\Volume{2}"] {
        buffer.extend(name.encode_utf16());
        buffer.push(0);
    }
    buffer.push(0);
    let volumes = volsync::vns::volumes_from_buffer(buffer).unwrap();
    assert_eq!(volumes.len(), 2);
    assert_eq!(volumes[0].name(), "\\\\?\\Volume{1}");
    assert_eq!(volumes[1].name(), "\\\\?\\Volume{2}");
    assert!(volsync::vns::volumes_from_buffer(vec![65u16]).is_none());
}

#[test]
fn test_device_name_decoding() {
    let vol = VolumeName { name: "\\\\?\\Volume{guid}".to_string() };
    let name: Vec<u16> = "\\Device\\HarddiskVolume3".encode_utf16().collect();
    let mut reply = Vec::new();
    reply.extend_from_slice(&((name.len() * 2) as u16).to_le_bytes());
    for unit in &name {
        reply.extend_from_slice(&unit.to_le_bytes());
    }
    let dev = vol.device_name(&reply).unwrap();
    assert_eq!(dev.name(), "\\Device\\HarddiskVolume3");

    // An unpaired surrogate is not valid UTF-16.
    let bad_reply: Vec<u8> = vec![2, 0, 0x00, 0xD8];
    assert_eq!(vol.device_name(&bad_reply), Err(Error::DecodeUtf16Error));
    assert_eq!(vol.device_name(&vec![9u8]), Err(Error::Overflow));
}

#[test]
fn test_notifier_indicate() {
    let count = std::cell::Cell::new(0u32);
    let notifier = volsync::vns::Notifier::new(|| count.set(count.get() + 1));
    assert!(!notifier.indicate(0));
    assert!(notifier.indicate(2));
    assert!(notifier.indicate(1));
    assert_eq!(count.get(), 2);
}

#[test]
fn test_init_spawn_runs_once() {
    let mut init = volsync::shell::InitSpawn::new(|| Ok::<(), u32>(()));
    assert_eq!(*init.cell.get(), Ok(()));
    assert_eq!(*init.cell.get(), Ok(()));
}

#[test]
fn test_apply_mkdir_failures_prunes_subtree() {
    let seg = |s: &str| s.to_string();
    let plan = vec![
        WalkAction::MkDir { path: vec![] },
        WalkAction::Emit { path: vec![seg("a.txt")] },
        WalkAction::MkDir { path: vec![seg("sub")] },
        WalkAction::MkDir { path: vec![seg("sub"), seg("inner")] },
        WalkAction::Emit { path: vec![seg("sub"), seg("inner"), seg("b.txt")] },
        WalkAction::SkipFile { path: vec![seg("c.txt")] },
    ];
    let failed = vec![vec![seg("sub")]];
    let (kept, errors) = apply_mkdir_failures(&plan, &failed);
    // The failed directory's whole subtree is gone, nothing else.
    assert_eq!(kept.len(), 3);
    assert!(matches!(&kept[0], WalkAction::MkDir { path } if path.is_empty()));
    assert!(matches!(&kept[1], WalkAction::Emit { path } if path == &vec![seg("a.txt")]));
    assert!(matches!(&kept[2], WalkAction::SkipFile { path } if path == &vec![seg("c.txt")]));
    // One CopyFailed for the attempted mkdir; none for its never-attempted child.
    assert_eq!(errors, vec![SyncError::CopyFailed { path: vec![seg("sub")] }]);
}

#[test]
fn test_vns_list_drops_unresolved() {
    let vns = HcmNotifier::new();
    let v = |n: &str| VolumeName { name: n.to_string() };
    let resolved = vec![
        (v("V1"), Some(DeviceName("D1".to_string())), Some("C:".to_string())),
        (v("V2"), None, None),
        (v("V3"), Some(DeviceName("D3".to_string())), None),
    ];
    let listing = vns.list(resolved);
    assert_eq!(listing.len(), 2);
    assert_eq!(listing[0].0.name(), "V1");
    assert_eq!(listing[0].1.name(), "D1");
    assert_eq!(listing[0].2, Some("C:".to_string()));
    assert_eq!(listing[1].0.name(), "V3");
    assert_eq!(listing[1].2, None);
}

#[test]
fn test_query_session_stays_failed() {
    let mut s = QuerySession::new(64);
    for _ in 0..4 {
        assert_eq!(s.on_result(true), Ok(false));
    }
    assert_eq!(s.on_result(true), Err(Error::TooManyRetries));
    let attempts = s.attempt;
    assert_eq!(s.on_result(false), Err(Error::TooManyRetries));
    assert_eq!(s.attempt, attempts);
}

#[test]
fn test_error_constructors() {
    assert_eq!(Error::win32("CreateFileW", -5), Error::Win32Error("CreateFileW", -5));
    assert_eq!(
        Error::syscall("CM_Register_Notification", 28),
        Error::SyscallFailed("CM_Register_Notification", 28)
    );
}

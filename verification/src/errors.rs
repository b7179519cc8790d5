//! Error kinds surfaced by the mirror engine and the platform layer.

use vstd::prelude::*;

verus! {

/// An error raised while synchronising one entry, carrying the relative
/// path of the entry concerned.
#[derive(Debug, Clone, PartialEq, Eq)]
pub enum SyncError {
    /// The source entry could not be stat'ed or listed.
    StatFailed {
        /// Relative path of the entry.
        path: Vec<String>,
    },
    /// The operation was cancelled before the copy began.
    Cancelled,
    /// The source file could not be opened or the destination not written.
    CopyFailed {
        /// Relative path of the file.
        path: Vec<String>,
    },
    /// Fewer (or more) bytes than expected arrived; the source mutated
    /// under us or the file system lied.
    ShortCopy {
        /// Relative path of the file.
        path: Vec<String>,
        /// Bytes actually copied.
        copied: u64,
        /// Bytes the source metadata promised.
        expected: u64,
    },
    /// A copier task ended abnormally; likely a bug.
    JoinError,
}

/// Ghost image of a [`SyncError`], with paths as sequences of segments.
pub enum SyncErrorV {
    /// See [`SyncError::StatFailed`].
    StatFailed { path: Seq<Seq<char>> },
    /// See [`SyncError::Cancelled`].
    Cancelled,
    /// See [`SyncError::CopyFailed`].
    CopyFailed { path: Seq<Seq<char>> },
    /// See [`SyncError::ShortCopy`].
    ShortCopy { path: Seq<Seq<char>>, copied: u64, expected: u64 },
    /// See [`SyncError::JoinError`].
    JoinError,
}

/// The ghost image of an error value.
pub open spec fn err_view(e: SyncError) -> SyncErrorV {
    match e {
        SyncError::StatFailed { path } => SyncErrorV::StatFailed { path: path.deep_view() },
        SyncError::Cancelled => SyncErrorV::Cancelled,
        SyncError::CopyFailed { path } => SyncErrorV::CopyFailed { path: path.deep_view() },
        SyncError::ShortCopy { path, copied, expected } => SyncErrorV::ShortCopy {
            path: path.deep_view(),
            copied,
            expected,
        },
        SyncError::JoinError => SyncErrorV::JoinError,
    }
}

/// Errors of the platform notification layer.  Payloads carry the name of
/// the system call concerned and its status code as plain values.
#[derive(Debug, Clone, PartialEq, Eq)]
pub enum Error {
    /// A setup-class system call returned a failure status.
    SyscallFailed(&'static str, u32),
    /// A Win32-style API call failed with the given code.
    Win32Error(&'static str, i32),
    /// A device I/O control call failed with the given code.
    Win32ErrorOnIoctl(&'static str, i32),
    /// The platform handed back a string that is not valid UTF-16.
    DecodeUtf16Error,
    /// A grow-and-retry query still did not fit after the retry limit.
    TooManyRetries,
    /// Data did not fit in the buffer offered to it.
    Overflow,
    /// A buffer allocation failed.
    AllocFailed,
}

impl Error {
    /// Wrap a failing Win32-style call.
    pub fn win32(name: &'static str, code: i32) -> (r: Self)
        ensures
            r == Error::Win32Error(name, code),
    {
        Error::Win32Error(name, code)
    }

    /// Wrap a failing setup-class system call.
    pub fn syscall(name: &'static str, code: u32) -> (r: Self)
        ensures
            r == Error::SyscallFailed(name, code),
    {
        Error::SyscallFailed(name, code)
    }
}

} // verus!

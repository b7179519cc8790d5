//! A hot-plug driven file synchroniser core.
//!
//! The crate models the two subsystems of the synchroniser: a volume
//! notification source (pending-volume queue, abort registry, mount-point
//! resolution) and an incremental mirror engine (directory walker, file
//! comparator, copier accounting and progress counters).  The decision and
//! accounting logic is verified; platform event plumbing and actual file
//! I/O live outside the library and feed it plain values.

pub mod buffer;
pub mod config;
pub mod engine;
pub mod errors;
pub mod fsmodel;
pub mod laws;
pub mod mount;
pub mod progress;
pub mod pzz;
pub mod registry;
pub mod shell;
pub mod vns;
pub mod volume;


//! Small host-side building blocks: lazy one-shot evaluation, message
//! identifiers, platform stubs, and the notification-source interface.

use vstd::prelude::*;

verus! {

use vstd::pervasive::unreached;

/// A value computed on first access from a one-shot closure.
#[verifier::reject_recursive_types(R)]
pub enum LazyCell<R, F: FnOnce() -> R> {
    /// Not yet computed; the closure is always present here.
    UnEvaluated(Option<F>),
    /// Computed.
    Evaluated(R),
}

impl<R, F: FnOnce() -> R> LazyCell<R, F> {
    /// Wrap a closure for later evaluation.
    pub fn new(f: F) -> (r: Self)
        ensures
            r == LazyCell::<R, F>::UnEvaluated(Some(f)),
    {
        LazyCell::UnEvaluated(Some(f))
    }

    /// The value, computing it on the first call.  What is returned
    /// either was already stored, or satisfies the closure's
    /// postcondition.
    pub fn get(&mut self) -> (r: &R)
        requires
            (*old(self)) is UnEvaluated ==> (*old(self))->UnEvaluated_0 is Some && call_requires(
                (*old(self))->UnEvaluated_0->0,
                (),
            ),
        ensures
            (*final(self)) is Evaluated,
            *r == (*final(self))->Evaluated_0,
            (*old(self)) is Evaluated ==> *r == (*old(self))->Evaluated_0,
            (*old(self)) is UnEvaluated ==> call_ensures((*old(self))->UnEvaluated_0->0, (), *r),
    {
        let run: Option<F> = match self {
            LazyCell::UnEvaluated(fo) => fo.take(),
            LazyCell::Evaluated(_) => None,
        };
        match run {
            Some(f) => {
                let v = f();
                *self = LazyCell::Evaluated(v);
            },
            None => {},
        }
        proof {
            assert((*self) is Evaluated);
        }
        match self {
            LazyCell::Evaluated(r) => r,
            LazyCell::UnEvaluated(_) => unreached(),
        }
    }
}

/// Identifier of one message sent to the task dispatcher.
#[derive(Debug, Clone, Copy, PartialEq, Eq, Structural)]
pub struct TaskID(pub u64);

/// A request the task dispatcher understands.
#[derive(Debug, Clone, Copy, PartialEq, Eq, Structural)]
pub enum Message {
    /// Start the notifier and spawn tasks for present volumes, once.
    InitSpawn,
    /// List the currently mounted volumes.
    ListMounts,
}

/// One-shot initialisation guarded behind lazy evaluation.
#[verifier::reject_recursive_types(R)]
pub struct InitSpawn<R, F: FnOnce() -> R> {
    /// The deferred initialisation step.
    pub cell: LazyCell<R, F>,
}

impl<R, F: FnOnce() -> R> InitSpawn<R, F> {
    /// Defer an initialisation step.
    pub fn new(f: F) -> (r: Self)
        ensures
            r.cell == LazyCell::<R, F>::UnEvaluated(Some(f)),
    {
        InitSpawn { cell: LazyCell::new(f) }
    }
}

/// A file system identifier.
pub trait FileSystem {
    /// The file system's name.
    fn name(&self) -> &str;
}

/// A device identifier.
pub trait Device {
    /// The device's name.
    fn name(&self) -> &str;
}

/// The file-system stand-in on platforms without a notifier.
#[derive(Debug, Clone, Copy, PartialEq, Eq, Structural)]
pub struct UnimplementedFileSystem;

impl FileSystem for UnimplementedFileSystem {
    fn name(&self) -> &str {
        "unknown"
    }
}

/// The device stand-in on platforms without a notifier.
#[derive(Debug, Clone, Copy, PartialEq, Eq, Structural)]
pub struct UnimplementedDevice;

impl Device for UnimplementedDevice {
    fn name(&self) -> &str {
        "unknown"
    }
}

/// The error of platforms without a notifier.
#[derive(Clone, Copy, PartialEq, Eq, Structural)]
pub struct NotImplementedError;

impl NotImplementedError {
    /// A short description of the error.
    pub fn message(&self) -> (r: &'static str)
        ensures
            r@ == "Not implemented"@,
    {
        "Not implemented"
    }
}

/// A source of volume arrival and removal notifications.  `F` is the
/// spawner callback handed to `new`; what it receives and returns is
/// the implementation's affair.
pub trait NotificationSource<F>: Sized {
    /// The file system type, usually a volume identifier.
    type FileSystem;
    /// The device identifier.
    type Device;
    /// The error type.
    type Error;

    /// Create a source with the given spawner.
    fn new(callback: F) -> Result<Self, Self::Error>;

    /// List the file systems currently present, with their devices and
    /// first user-visible path.
    fn list(&self) -> Result<
        Vec<(Self::FileSystem, Self::Device, Option<String>)>,
        Self::Error,
    >;

    /// List the present file systems and spawn a task for each.
    fn list_spawn(&self) -> Result<(), Self::Error>;

    /// Start delivering notifications.
    fn start(&mut self) -> Result<(), Self::Error>;

    /// Stop delivering notifications, leaving spawned tasks running.
    fn pause(&mut self) -> Result<(), Self::Error>;

    /// Stop delivering notifications and abort spawned tasks.
    fn reset(&mut self) -> Result<(), Self::Error>;
}

/// The no-op notification source for unsupported platforms: every
/// operation succeeds and nothing is ever reported.
pub struct UnimplementedNotifier<F> {
    /// The spawner is never called.
    marker: core::marker::PhantomData<F>,
}

impl<F> NotificationSource<F> for UnimplementedNotifier<F> {
    type FileSystem = UnimplementedFileSystem;

    type Device = UnimplementedDevice;

    type Error = NotImplementedError;

    fn new(_callback: F) -> Result<Self, NotImplementedError> {
        Ok(UnimplementedNotifier { marker: core::marker::PhantomData })
    }

    fn list(&self) -> Result<
        Vec<(UnimplementedFileSystem, UnimplementedDevice, Option<String>)>,
        NotImplementedError,
    > {
        Ok(Vec::new())
    }

    fn list_spawn(&self) -> Result<(), NotImplementedError> {
        Ok(())
    }

    fn start(&mut self) -> Result<(), NotImplementedError> {
        Ok(())
    }

    fn pause(&mut self) -> Result<(), NotImplementedError> {
        Ok(())
    }

    fn reset(&mut self) -> Result<(), NotImplementedError> {
        Ok(())
    }
}

/// Initialise the platform-specific components; on platforms without a
/// notifier there is nothing to do.
pub fn platform_init() -> (r: Result<(), crate::errors::Error>)
    ensures
        r is Ok,
{
    Ok(())
}

} // verus!

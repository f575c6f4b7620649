//! What passes between the teardown and its caller: the operation that the
//! teardown asks for next, and the caller's report of what came of it.

use vstd::prelude::*;
use crate::marker::texts;

verus! {

/// The two layers of a teardown.
#[derive(Debug, Clone, Copy, PartialEq, Eq, Structural)]
pub enum Stage {
    /// Detaching the marked mounts.
    Mounts,
    /// Removing the marked devices.
    Devices,
}

/// Why a teardown failed.
#[derive(Debug, PartialEq, Eq)]
pub enum CleanupError {
    /// The mount table could not be read.
    MountRead,
    /// This mount point could not be detached.
    Detach(String),
    /// The device-mapper management interface could not be initialised.
    DmInit,
    /// The devices could not be listed.
    DmList,
    /// These devices were still there when a pass removed nothing.
    Remaining(Vec<String>),
}

/// A `CleanupError` over plain values.
pub enum Failure {
    MountRead,
    Detach(Seq<char>),
    DmInit,
    DmList,
    Remaining(Seq<Seq<char>>),
}

impl View for CleanupError {
    type V = Failure;

    open spec fn view(&self) -> Failure {
        match self {
            CleanupError::MountRead => Failure::MountRead,
            CleanupError::Detach(point) => Failure::Detach(point@),
            CleanupError::DmInit => Failure::DmInit,
            CleanupError::DmList => Failure::DmList,
            CleanupError::Remaining(names) => Failure::Remaining(texts(names@)),
        }
    }
}

/// The layer that a failure belongs to.
pub open spec fn stage_of(failure: Failure) -> Stage {
    match failure {
        Failure::MountRead => Stage::Mounts,
        Failure::Detach(_) => Stage::Mounts,
        Failure::DmInit => Stage::Devices,
        Failure::DmList => Stage::Devices,
        Failure::Remaining(_) => Stage::Devices,
    }
}

/// The message that names a layer's failure.
pub open spec fn context_of(stage: Stage) -> Seq<char> {
    match stage {
        Stage::Mounts => "Failed to ensure all test-generated filesystems were unmounted"@,
        Stage::Devices => "Failed to ensure removal of all test-generated DM devices"@,
    }
}

/// The message that names the cause of a failure, without the names it
/// carries.
pub open spec fn cause_of(failure: Failure) -> Seq<char> {
    match failure {
        Failure::MountRead => "failed while reading the mount table"@,
        Failure::Detach(_) => "failed to detach a test-generated filesystem"@,
        Failure::DmInit => "Unable to initialize DM"@,
        Failure::DmList => "failed while listing DM devices, giving up"@,
        Failure::Remaining(_) => "Some test-generated DM devices remaining"@,
    }
}

impl CleanupError {
    /// The layer that left resources behind.
    pub fn stage(&self) -> (stage: Stage)
        ensures
            stage == stage_of(self@),
    {
        match self {
            CleanupError::MountRead => Stage::Mounts,
            CleanupError::Detach(_) => Stage::Mounts,
            CleanupError::DmInit => Stage::Devices,
            CleanupError::DmList => Stage::Devices,
            CleanupError::Remaining(_) => Stage::Devices,
        }
    }

    /// The message that says which layer failed.
    pub fn context(&self) -> (message: &'static str)
        ensures
            message@ == context_of(stage_of(self@)),
    {
        match self.stage() {
            Stage::Mounts => "Failed to ensure all test-generated filesystems were unmounted",
            Stage::Devices => "Failed to ensure removal of all test-generated DM devices",
        }
    }

    /// The message that says what went wrong in that layer.
    pub fn cause(&self) -> (message: &'static str)
        ensures
            message@ == cause_of(self@),
    {
        match self {
            CleanupError::MountRead => "failed while reading the mount table",
            CleanupError::Detach(_) => "failed to detach a test-generated filesystem",
            CleanupError::DmInit => "Unable to initialize DM",
            CleanupError::DmList => "failed while listing DM devices, giving up",
            CleanupError::Remaining(_) => "Some test-generated DM devices remaining",
        }
    }
}

/// What the caller reports back after it has performed an operation.
#[derive(Debug)]
pub enum Event {
    /// The whole content of the mount table, after `Action::ReadMounts`.
    MountTable(Vec<u8>),
    /// The names of all devices, after `Action::ListDevices`.
    Devices(Vec<String>),
    /// The operation succeeded.
    Succeeded,
    /// The operation failed.
    Failed,
}

/// An `Event` over plain values.
pub enum Reply {
    MountTable(Seq<u8>),
    Devices(Seq<Seq<char>>),
    Succeeded,
    Failed,
}

impl View for Event {
    type V = Reply;

    open spec fn view(&self) -> Reply {
        match self {
            Event::MountTable(data) => Reply::MountTable(data@),
            Event::Devices(names) => Reply::Devices(texts(names@)),
            Event::Succeeded => Reply::Succeeded,
            Event::Failed => Reply::Failed,
        }
    }
}

/// What the caller is to do next.
#[derive(Debug, PartialEq, Eq)]
pub enum Action {
    /// Read the mount table and report `Event::MountTable`.
    ReadMounts,
    /// Detach this mount point lazily and report success or failure.
    Detach(String),
    /// Make sure the management interface is initialised.
    OpenDm,
    /// List all devices and report `Event::Devices`.
    ListDevices,
    /// Try to remove the device of this name.
    Remove(String),
    /// Nothing is left to do: every marked resource is gone.
    Done,
    /// Give up with this error.
    Fail(CleanupError),
    /// The work had ended before this event came.
    Halted,
}

/// An `Action` over plain values.
pub enum Request {
    ReadMounts,
    Detach(Seq<char>),
    OpenDm,
    ListDevices,
    Remove(Seq<char>),
    Done,
    Fail(Failure),
    Halted,
}

impl View for Action {
    type V = Request;

    open spec fn view(&self) -> Request {
        match self {
            Action::ReadMounts => Request::ReadMounts,
            Action::Detach(point) => Request::Detach(point@),
            Action::OpenDm => Request::OpenDm,
            Action::ListDevices => Request::ListDevices,
            Action::Remove(name) => Request::Remove(name@),
            Action::Done => Request::Done,
            Action::Fail(error) => Request::Fail(error@),
            Action::Halted => Request::Halted,
        }
    }
}

/// The request names a resource to detach or remove.
pub open spec fn targets(request: Request, name: Seq<char>) -> bool {
    request == Request::Detach(name) || request == Request::Remove(name)
}

/// The request is one of the device layer's operations.
pub open spec fn touches_devices(request: Request) -> bool {
    request is OpenDm || request is ListDevices || request is Remove
}

/// The request is one of the mount layer's operations.
pub open spec fn touches_mounts(request: Request) -> bool {
    request is ReadMounts || request is Detach
}

} // verus!

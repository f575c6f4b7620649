//! The whole teardown: the mount sweep, and after its success the device
//! sweep.

use vstd::prelude::*;
use crate::device_sweep::{
    device_step,
    dm_test_devices_remove,
    DevicePhase,
    DeviceSweep,
    DeviceSweepView,
};
use crate::marker::is_marked;
use crate::mount_sweep::{dm_test_fs_unmount, mount_step, MountSweep, MountSweepView};
use crate::protocol::{
    stage_of,
    targets,
    touches_devices,
    touches_mounts,
    Action,
    Event,
    Reply,
    Request,
    Stage,
};

verus! {

enum Progress {
    Mounts(MountSweep),
    Devices(DeviceSweep),
    Ended,
}

/// A teardown in progress.
pub struct Teardown {
    at: Progress,
}

/// A teardown over plain values.
pub enum TeardownView {
    /// The mount sweep is running.
    Mounts(MountSweepView),
    /// The mount sweep has succeeded and the device sweep is running.
    Devices(DeviceSweepView),
    /// The teardown has ended, in success or failure.
    Ended,
}

impl TeardownView {
    /// The sweep that is running is in a consistent state that has not ended.
    pub open spec fn wf(self) -> bool {
        match self {
            TeardownView::Mounts(sweep) => sweep.wf(),
            TeardownView::Devices(sweep) => sweep.wf(),
            TeardownView::Ended => true,
        }
    }
}

/// The teardown's rule: the running sweep takes the reply. When the mount
/// sweep is done the device sweep starts; when the device sweep is done the
/// teardown is. A failure of either sweep ends the teardown with that
/// failure.
pub open spec fn teardown_step(state: TeardownView, reply: Reply) -> (TeardownView, Request) {
    match state {
        TeardownView::Mounts(sweep) => {
            let (after, request) = mount_step(sweep, reply);
            match request {
                Request::Done => (
                    TeardownView::Devices(DeviceSweepView::idle(DevicePhase::Opening)),
                    Request::OpenDm,
                ),
                Request::Fail(failure) => (TeardownView::Ended, Request::Fail(failure)),
                Request::Halted => (TeardownView::Ended, Request::Halted),
                _ => (TeardownView::Mounts(after), request),
            }
        },
        TeardownView::Devices(sweep) => {
            let (after, request) = device_step(sweep, reply);
            match request {
                Request::Done => (TeardownView::Ended, Request::Done),
                Request::Fail(failure) => (TeardownView::Ended, Request::Fail(failure)),
                Request::Halted => (TeardownView::Ended, Request::Halted),
                _ => (TeardownView::Devices(after), request),
            }
        },
        TeardownView::Ended => (TeardownView::Ended, Request::Halted),
    }
}

impl View for Teardown {
    type V = TeardownView;

    closed spec fn view(&self) -> TeardownView {
        match self.at {
            Progress::Mounts(sweep) => TeardownView::Mounts(sweep@),
            Progress::Devices(sweep) => TeardownView::Devices(sweep@),
            Progress::Ended => TeardownView::Ended,
        }
    }
}

impl Teardown {
    /// The representation is consistent.
    pub closed spec fn wf(&self) -> bool {
        match self.at {
            Progress::Mounts(sweep) => sweep.wf(),
            Progress::Devices(sweep) => sweep.wf(),
            Progress::Ended => true,
        }
    }

    /// Starts a teardown: the first thing to do is to read the mount table.
    pub fn begin() -> (out: (Teardown, Action))
        ensures
            out.0.wf(),
            out.0@ == TeardownView::Mounts(MountSweepView::reading()),
            out.1@ == Request::ReadMounts,
    {
        let (sweep, action) = MountSweep::begin();
        (Teardown { at: Progress::Mounts(sweep) }, action)
    }

    /// Whether the teardown has ended.
    pub fn is_ended(&self) -> (ended: bool)
        ensures
            ended == (self@ is Ended),
    {
        match &self.at {
            Progress::Ended => true,
            _ => false,
        }
    }
}

/// One step of the teardown: takes the caller's report on the operation
/// asked for last and says what to do next. The marked mounts are detached
/// first; the device layer is touched only once that has succeeded.
pub fn clean_up(state: Teardown, event: Event) -> (out: (Teardown, Action))
    requires
        state.wf(),
    ensures
        out.0.wf(),
        (out.0@, out.1@) == teardown_step(state@, event@),
        forall|name: Seq<char>| targets(out.1@, name) ==> is_marked(name),
        touches_devices(out.1@) ==> out.0@ is Devices,
        touches_mounts(out.1@) ==> state@ is Mounts,
        out.1@ matches Request::Fail(failure) ==> match state@ {
            TeardownView::Mounts(_) => stage_of(failure) == Stage::Mounts,
            _ => stage_of(failure) == Stage::Devices,
        },
{
    match state.at {
        Progress::Mounts(sweep) => {
            let (after, action) = dm_test_fs_unmount(sweep, event);
            match action {
                Action::Done => {
                    let (devices, first) = DeviceSweep::begin();
                    (Teardown { at: Progress::Devices(devices) }, first)
                },
                Action::Fail(error) => (Teardown { at: Progress::Ended }, Action::Fail(error)),
                Action::Halted => (Teardown { at: Progress::Ended }, Action::Halted),
                other => (Teardown { at: Progress::Mounts(after) }, other),
            }
        },
        Progress::Devices(sweep) => {
            let (after, action) = dm_test_devices_remove(sweep, event);
            match action {
                Action::Done => (Teardown { at: Progress::Ended }, Action::Done),
                Action::Fail(error) => (Teardown { at: Progress::Ended }, Action::Fail(error)),
                Action::Halted => (Teardown { at: Progress::Ended }, Action::Halted),
                other => (Teardown { at: Progress::Devices(after) }, other),
            }
        },
        Progress::Ended => (Teardown { at: Progress::Ended }, Action::Halted),
    }
}

} // verus!

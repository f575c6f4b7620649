//! The device sweep: try to remove every marked device, pass after pass,
//! for as long as a pass removes at least one.

use vstd::prelude::*;
use crate::marker::{is_marked, lemma_marked_only_members, marked_only, select_marked, texts};
use crate::protocol::{Action, CleanupError, Event, Failure, Reply, Request};

verus! {

/// Where a device sweep stands.
#[derive(Debug, Clone, Copy, PartialEq, Eq, Structural)]
pub enum DevicePhase {
    /// The management interface has been asked for.
    Opening,
    /// The list of devices has been asked for.
    Listing,
    /// A removal has been asked for.
    Removing,
    /// The sweep has ended.
    Ended,
}

/// A device sweep in progress.
#[derive(Debug)]
pub struct DeviceSweep {
    phase: DevicePhase,
    queue: Vec<String>,
    next: usize,
    progress: bool,
    remain: Vec<String>,
}

/// A device sweep over plain values. Outside a pass the three fields of the
/// pass are empty and `false`.
pub struct DeviceSweepView {
    pub phase: DevicePhase,
    /// The devices of this pass still to attempt, the first of them being
    /// the one asked for.
    pub pending: Seq<Seq<char>>,
    /// Whether a removal has succeeded in this pass.
    pub progress: bool,
    /// The devices of this pass whose removal failed, in the order met.
    pub remain: Seq<Seq<char>>,
}

impl DeviceSweepView {
    /// A state between passes, or before or after them.
    pub open spec fn idle(phase: DevicePhase) -> DeviceSweepView {
        DeviceSweepView { phase, pending: Seq::empty(), progress: false, remain: Seq::empty() }
    }

    /// Only marked devices are pending or remaining, and only within a pass.
    pub open spec fn wf(self) -> bool {
        &&& self.phase == DevicePhase::Removing <==> self.pending.len() > 0
        &&& self.phase != DevicePhase::Removing ==> !self.progress && self.remain.len() == 0
        &&& forall|i: int| 0 <= i < self.pending.len() ==> is_marked(#[trigger] self.pending[i])
        &&& forall|i: int| 0 <= i < self.remain.len() ==> is_marked(#[trigger] self.remain[i])
    }
}

/// What the sweep does within a pass once `pending` is all that is left to
/// attempt: the next removal; at the end of a pass that removed something,
/// a new listing; at the end of one that removed nothing, success if no
/// device remains and else the failure that names those that do.
pub open spec fn device_next(pending: Seq<Seq<char>>, progress: bool, remain: Seq<Seq<char>>) -> (
    DeviceSweepView,
    Request,
) {
    if pending.len() > 0 {
        (
            DeviceSweepView { phase: DevicePhase::Removing, pending, progress, remain },
            Request::Remove(pending[0]),
        )
    } else if progress {
        (DeviceSweepView::idle(DevicePhase::Listing), Request::ListDevices)
    } else if remain.len() == 0 {
        (DeviceSweepView::idle(DevicePhase::Ended), Request::Done)
    } else {
        (DeviceSweepView::idle(DevicePhase::Ended), Request::Fail(Failure::Remaining(remain)))
    }
}

/// The device sweep's rule: the next state and request for a state and a
/// reply. A reply that does not answer the pending request counts as its
/// failure.
pub open spec fn device_step(sweep: DeviceSweepView, reply: Reply) -> (DeviceSweepView, Request) {
    match sweep.phase {
        DevicePhase::Opening => match reply {
            Reply::Succeeded => (DeviceSweepView::idle(DevicePhase::Listing), Request::ListDevices),
            _ => (DeviceSweepView::idle(DevicePhase::Ended), Request::Fail(Failure::DmInit)),
        },
        DevicePhase::Listing => match reply {
            Reply::Devices(names) => device_next(marked_only(names), false, Seq::empty()),
            _ => (DeviceSweepView::idle(DevicePhase::Ended), Request::Fail(Failure::DmList)),
        },
        DevicePhase::Removing => match reply {
            Reply::Succeeded => device_next(sweep.pending.skip(1), true, sweep.remain),
            _ => device_next(
                sweep.pending.skip(1),
                sweep.progress,
                sweep.remain.push(sweep.pending[0]),
            ),
        },
        DevicePhase::Ended => (DeviceSweepView::idle(DevicePhase::Ended), Request::Halted),
    }
}

impl View for DeviceSweep {
    type V = DeviceSweepView;

    closed spec fn view(&self) -> DeviceSweepView {
        DeviceSweepView {
            phase: self.phase,
            pending: texts(self.queue@).skip(self.next as int),
            progress: self.progress,
            remain: texts(self.remain@),
        }
    }
}

impl DeviceSweep {
    /// The representation is consistent.
    pub closed spec fn wf(&self) -> bool {
        &&& self.next <= self.queue@.len()
        &&& self@.wf()
    }

    fn idle(phase: DevicePhase) -> (sweep: DeviceSweep)
        requires
            phase != DevicePhase::Removing,
        ensures
            sweep.wf(),
            sweep@ == DeviceSweepView::idle(phase),
    {
        let sweep = DeviceSweep {
            phase,
            queue: Vec::new(),
            next: 0,
            progress: false,
            remain: Vec::new(),
        };
        proof {
            assert(sweep@.pending =~= Seq::empty());
            assert(sweep@.remain =~= Seq::empty());
        }
        sweep
    }

    fn proceed(queue: Vec<String>, next: usize, progress: bool, remain: Vec<String>) -> (out: (
        DeviceSweep,
        Action,
    ))
        requires
            next <= queue@.len(),
            forall|i: int| next <= i < queue@.len() ==> is_marked(#[trigger] queue@[i]@),
            forall|i: int| 0 <= i < remain@.len() ==> is_marked(#[trigger] remain@[i]@),
        ensures
            out.0.wf(),
            (out.0@, out.1@) == device_next(
                texts(queue@).skip(next as int),
                progress,
                texts(remain@),
            ),
    {
        if next < queue.len() {
            let name = queue[next].clone();
            let sweep = DeviceSweep { phase: DevicePhase::Removing, queue, next, progress, remain };
            (sweep, Action::Remove(name))
        } else if progress {
            (DeviceSweep::idle(DevicePhase::Listing), Action::ListDevices)
        } else if remain.len() == 0 {
            (DeviceSweep::idle(DevicePhase::Ended), Action::Done)
        } else {
            (DeviceSweep::idle(DevicePhase::Ended), Action::Fail(CleanupError::Remaining(remain)))
        }
    }

    /// Starts a sweep: the first thing to do is to make sure that the
    /// management interface is there.
    pub fn begin() -> (out: (DeviceSweep, Action))
        ensures
            out.0.wf(),
            out.0@ == DeviceSweepView::idle(DevicePhase::Opening),
            out.1@ == Request::OpenDm,
    {
        (DeviceSweep::idle(DevicePhase::Opening), Action::OpenDm)
    }
}

/// One step of the device sweep: takes the caller's report on the operation
/// asked for last and says what to do next. Each listing starts a pass over
/// its marked names, in the listing's order; a removal that fails puts the
/// name among those that remain and the pass goes on. A pass that removed
/// something is followed by a new listing. A pass that removed nothing ends
/// the sweep: with success if nothing remains, else with the names that do.
/// A failure to initialise or to list ends the sweep at once.
pub fn dm_test_devices_remove(sweep: DeviceSweep, event: Event) -> (out: (DeviceSweep, Action))
    requires
        sweep.wf(),
    ensures
        out.0.wf(),
        (out.0@, out.1@) == device_step(sweep@, event@),
        forall|name: Seq<char>| out.1@ == Request::Remove(name) ==> is_marked(name),
{
    match sweep.phase {
        DevicePhase::Opening => match event {
            Event::Succeeded => (DeviceSweep::idle(DevicePhase::Listing), Action::ListDevices),
            _ => (DeviceSweep::idle(DevicePhase::Ended), Action::Fail(CleanupError::DmInit)),
        },
        DevicePhase::Listing => match event {
            Event::Devices(names) => {
                let queue = select_marked(&names);
                let remain: Vec<String> = Vec::new();
                proof {
                    lemma_marked_only_members(texts(names@));
                    assert(texts(queue@).skip(0) =~= texts(queue@));
                    assert(texts(remain@) =~= Seq::<Seq<char>>::empty());
                    assert forall|i: int| 0 <= i < queue@.len() implies is_marked(
                        #[trigger] queue@[i]@,
                    ) by {
                        assert(texts(queue@)[i] == queue@[i]@);
                    }
                }
                DeviceSweep::proceed(queue, 0, false, remain)
            },
            _ => (DeviceSweep::idle(DevicePhase::Ended), Action::Fail(CleanupError::DmList)),
        },
        DevicePhase::Removing => {
            let DeviceSweep { phase: _, queue, next, progress, remain } = sweep;
            let count: usize = queue.len();
            proof {
                assert(sweep@.pending.len() > 0);
                assert(next < count);
                assert(texts(queue@).skip(next as int).skip(1) =~= texts(queue@).skip(next + 1));
                assert(texts(queue@).skip(next as int)[0] == queue@[next as int]@);
                assert forall|i: int| next <= i < queue@.len() implies is_marked(
                    #[trigger] queue@[i]@,
                ) by {
                    assert(sweep@.pending[i - next] == queue@[i]@);
                }
                assert forall|i: int| 0 <= i < remain@.len() implies is_marked(
                    #[trigger] remain@[i]@,
                ) by {
                    assert(sweep@.remain[i] == remain@[i]@);
                }
            }
            match event {
                Event::Succeeded => DeviceSweep::proceed(queue, next + 1, true, remain),
                _ => {
                    let mut remain = remain;
                    let ghost before = remain@;
                    remain.push(queue[next].clone());
                    proof {
                        assert(texts(remain@) =~= texts(before).push(queue@[next as int]@));
                    }
                    DeviceSweep::proceed(queue, next + 1, progress, remain)
                },
            }
        },
        DevicePhase::Ended => (DeviceSweep::idle(DevicePhase::Ended), Action::Halted),
    }
}

} // verus!

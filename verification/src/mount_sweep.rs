//! The mount sweep: detach every marked mount, and stop at the first one
//! that cannot be detached.

use vstd::prelude::*;
use crate::marker::{is_marked, lemma_marked_only_members, texts};
use crate::mountinfo::{marked_mount_points, marked_points};
use crate::protocol::{Action, CleanupError, Event, Failure, Reply, Request};

verus! {

/// Where a mount sweep stands.
#[derive(Debug, Clone, Copy, PartialEq, Eq, Structural)]
pub enum MountPhase {
    /// The mount table has been asked for.
    Reading,
    /// A detach has been asked for.
    Detaching,
    /// The sweep has ended.
    Ended,
}

/// A mount sweep in progress.
#[derive(Debug)]
pub struct MountSweep {
    phase: MountPhase,
    targets: Vec<String>,
    next: usize,
}

/// A mount sweep over plain values.
pub struct MountSweepView {
    pub phase: MountPhase,
    /// While detaching: the mount points still to detach, the first of them
    /// being the one asked for. Empty otherwise.
    pub pending: Seq<Seq<char>>,
}

impl MountSweepView {
    /// The sweep waits for the mount table.
    pub open spec fn reading() -> MountSweepView {
        MountSweepView { phase: MountPhase::Reading, pending: Seq::empty() }
    }

    /// The sweep has ended.
    pub open spec fn ended() -> MountSweepView {
        MountSweepView { phase: MountPhase::Ended, pending: Seq::empty() }
    }

    /// Only marked mount points are pending, and only while detaching.
    pub open spec fn wf(self) -> bool {
        &&& self.phase == MountPhase::Detaching <==> self.pending.len() > 0
        &&& forall|i: int| 0 <= i < self.pending.len() ==> is_marked(#[trigger] self.pending[i])
    }
}

/// What the sweep does once `pending` is all that is left to detach.
pub open spec fn mount_next(pending: Seq<Seq<char>>) -> (MountSweepView, Request) {
    if pending.len() == 0 {
        (MountSweepView::ended(), Request::Done)
    } else {
        (MountSweepView { phase: MountPhase::Detaching, pending }, Request::Detach(pending[0]))
    }
}

/// The mount sweep's rule: the next state and request for a state and a
/// reply. A reply that does not answer the pending request counts as its
/// failure.
pub open spec fn mount_step(sweep: MountSweepView, reply: Reply) -> (MountSweepView, Request) {
    match sweep.phase {
        MountPhase::Reading => match reply {
            Reply::MountTable(data) => mount_next(marked_mount_points(data)),
            _ => (MountSweepView::ended(), Request::Fail(Failure::MountRead)),
        },
        MountPhase::Detaching => match reply {
            Reply::Succeeded => mount_next(sweep.pending.skip(1)),
            _ => (MountSweepView::ended(), Request::Fail(Failure::Detach(sweep.pending[0]))),
        },
        MountPhase::Ended => (MountSweepView::ended(), Request::Halted),
    }
}

impl View for MountSweep {
    type V = MountSweepView;

    closed spec fn view(&self) -> MountSweepView {
        MountSweepView {
            phase: self.phase,
            pending: texts(self.targets@).skip(self.next as int),
        }
    }
}

impl MountSweep {
    /// The representation is consistent.
    pub closed spec fn wf(&self) -> bool {
        &&& self.next <= self.targets@.len()
        &&& self@.wf()
    }

    fn ended() -> (sweep: MountSweep)
        ensures
            sweep.wf(),
            sweep@ == MountSweepView::ended(),
    {
        let sweep = MountSweep { phase: MountPhase::Ended, targets: Vec::new(), next: 0 };
        proof {
            assert(sweep@.pending =~= Seq::empty());
        }
        sweep
    }

    fn proceed(targets: Vec<String>, next: usize) -> (out: (MountSweep, Action))
        requires
            next <= targets@.len(),
            forall|i: int| next <= i < targets@.len() ==> is_marked(#[trigger] targets@[i]@),
        ensures
            out.0.wf(),
            (out.0@, out.1@) == mount_next(texts(targets@).skip(next as int)),
    {
        if next < targets.len() {
            let point = targets[next].clone();
            let sweep = MountSweep { phase: MountPhase::Detaching, targets, next };
            (sweep, Action::Detach(point))
        } else {
            (MountSweep::ended(), Action::Done)
        }
    }

    /// Starts a sweep: the first thing to do is to read the mount table.
    pub fn begin() -> (out: (MountSweep, Action))
        ensures
            out.0.wf(),
            out.0@ == MountSweepView::reading(),
            out.1@ == Request::ReadMounts,
    {
        let sweep = MountSweep { phase: MountPhase::Reading, targets: Vec::new(), next: 0 };
        proof {
            assert(sweep@.pending =~= Seq::empty());
        }
        (sweep, Action::ReadMounts)
    }
}

/// One step of the mount sweep: takes the caller's report on the operation
/// asked for last and says what to do next. After the mount table has come,
/// each marked mount point is asked to be detached in the table's order; the
/// first failure ends the sweep with that mount point's name, and the mount
/// points behind it are left alone.
pub fn dm_test_fs_unmount(sweep: MountSweep, event: Event) -> (out: (MountSweep, Action))
    requires
        sweep.wf(),
    ensures
        out.0.wf(),
        (out.0@, out.1@) == mount_step(sweep@, event@),
        forall|point: Seq<char>| out.1@ == Request::Detach(point) ==> is_marked(point),
{
    match sweep.phase {
        MountPhase::Reading => match event {
            Event::MountTable(data) => {
                let targets = marked_points(data.as_slice());
                proof {
                    lemma_marked_only_members(crate::mountinfo::present(
                        crate::mountinfo::mountinfo_entries(data@),
                    ));
                    assert(texts(targets@).skip(0) =~= texts(targets@));
                    assert forall|i: int| 0 <= i < targets@.len() implies is_marked(
                        #[trigger] targets@[i]@,
                    ) by {
                        assert(texts(targets@)[i] == targets@[i]@);
                    }
                }
                MountSweep::proceed(targets, 0)
            },
            _ => (MountSweep::ended(), Action::Fail(CleanupError::MountRead)),
        },
        MountPhase::Detaching => match event {
            Event::Succeeded => {
                let MountSweep { phase: _, targets, next } = sweep;
                let count: usize = targets.len();
                proof {
                    assert(sweep@.pending.len() > 0);
                    assert(next < count);
                    assert(texts(targets@).skip(next as int).skip(1) =~= texts(targets@).skip(
                        next + 1,
                    ));
                    assert forall|i: int| next + 1 <= i < targets@.len() implies is_marked(
                        #[trigger] targets@[i]@,
                    ) by {
                        assert(texts(targets@).skip(next as int)[i - next] == targets@[i]@);
                    }
                }
                MountSweep::proceed(targets, next + 1)
            },
            _ => {
                let point = sweep.targets[sweep.next].clone();
                (MountSweep::ended(), Action::Fail(CleanupError::Detach(point)))
            },
        },
        MountPhase::Ended => (MountSweep::ended(), Action::Halted),
    }
}

} // verus!

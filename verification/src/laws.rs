//! What holds of every teardown, whatever the caller reports.

use vstd::prelude::*;
use crate::device_sweep::{device_step, DevicePhase, DeviceSweepView};
use crate::marker::{is_marked, lemma_marked_only_members, marked_only};
use crate::mount_sweep::{mount_step, MountPhase, MountSweepView};
use crate::mountinfo::{marked_mount_points, mountinfo_entries, present};
use crate::protocol::{targets, touches_devices, touches_mounts, Reply, Request};
use crate::teardown::{teardown_step, TeardownView};

verus! {

/// A device sweep that finds no marked device in its listing ends at once
/// in success: nothing is attempted, no progress is made, nothing remains.
pub proof fn law_nothing_marked_is_success(names: Seq<Seq<char>>)
    requires
        forall|i: int| 0 <= i < names.len() ==> !is_marked(#[trigger] names[i]),
    ensures
        marked_only(names).len() == 0,
        device_step(DeviceSweepView::idle(DevicePhase::Listing), Reply::Devices(names)) == (
            DeviceSweepView::idle(DevicePhase::Ended),
            Request::Done,
        ),
{
    lemma_marked_only_members(names);
    if marked_only(names).len() > 0 {
        let kept = marked_only(names)[0];
        names.lemma_filter_contains_rev(|name: Seq<char>| is_marked(name), kept);
        assert(marked_only(names).contains(kept));
        assert(names.contains(kept));
    }
}

/// The candidates of a pass are marked names of its listing: a name without
/// the marker is never among them, however many such names the listing
/// holds.
pub proof fn law_candidates_are_marked(names: Seq<Seq<char>>, name: Seq<char>)
    requires
        marked_only(names).contains(name),
    ensures
        is_marked(name),
        names.contains(name),
{
    lemma_marked_only_members(names);
    names.lemma_filter_contains_rev(|n: Seq<char>| is_marked(n), name);
}

/// A consistent mount sweep stays consistent, and it asks to detach marked
/// mount points only.
pub proof fn law_mount_sweep_targets_marked(sweep: MountSweepView, reply: Reply)
    requires
        sweep.wf(),
    ensures
        mount_step(sweep, reply).0.wf(),
        forall|name: Seq<char>| targets(mount_step(sweep, reply).1, name) ==> is_marked(name),
{
    if let Reply::MountTable(data) = reply {
        lemma_marked_only_members(present(mountinfo_entries(data)));
        assert(marked_mount_points(data) == marked_only(present(mountinfo_entries(data))));
    }
    if sweep.phase == MountPhase::Detaching {
        let rest = sweep.pending.skip(1);
        assert forall|i: int| 0 <= i < rest.len() implies is_marked(#[trigger] rest[i]) by {
            assert(rest[i] == sweep.pending[i + 1]);
        }
    }
}

/// A consistent device sweep stays consistent, and it asks to remove marked
/// devices only.
pub proof fn law_device_sweep_targets_marked(sweep: DeviceSweepView, reply: Reply)
    requires
        sweep.wf(),
    ensures
        device_step(sweep, reply).0.wf(),
        forall|name: Seq<char>| targets(device_step(sweep, reply).1, name) ==> is_marked(name),
{
    if let Reply::Devices(names) = reply {
        lemma_marked_only_members(names);
    }
    if sweep.phase == DevicePhase::Removing {
        let rest = sweep.pending.skip(1);
        assert forall|i: int| 0 <= i < rest.len() implies is_marked(#[trigger] rest[i]) by {
            assert(rest[i] == sweep.pending[i + 1]);
        }
    }
}

/// A consistent teardown stays consistent, and whatever it asks to detach
/// or remove is marked.
pub proof fn law_teardown_targets_marked(state: TeardownView, reply: Reply)
    requires
        state.wf(),
    ensures
        teardown_step(state, reply).0.wf(),
        forall|name: Seq<char>| targets(teardown_step(state, reply).1, name) ==> is_marked(name),
{
    match state {
        TeardownView::Mounts(sweep) => law_mount_sweep_targets_marked(sweep, reply),
        TeardownView::Devices(sweep) => law_device_sweep_targets_marked(sweep, reply),
        TeardownView::Ended => {},
    }
}

/// The requests that a teardown makes, one for each reply, from `state` on.
pub open spec fn requests_of(state: TeardownView, replies: Seq<Reply>) -> Seq<Request>
    decreases replies.len(),
{
    if replies.len() == 0 {
        Seq::empty()
    } else {
        let (after, request) = teardown_step(state, replies[0]);
        seq![request] + requests_of(after, replies.skip(1))
    }
}

/// Once the mount sweep is over, nothing is asked of the mount layer again,
/// nor is the management interface asked for again.
pub proof fn lemma_mounts_are_left_for_good(state: TeardownView, replies: Seq<Reply>)
    requires
        !(state is Mounts),
    ensures
        requests_of(state, replies).len() == replies.len(),
        forall|j: int|
            0 <= j < replies.len() ==> !touches_mounts(#[trigger] requests_of(state, replies)[j]),
        forall|j: int|
            0 <= j < replies.len() ==> !(#[trigger] requests_of(state, replies)[j] is OpenDm),
    decreases replies.len(),
{
    if replies.len() > 0 {
        let (after, request) = teardown_step(state, replies[0]);
        lemma_mounts_are_left_for_good(after, replies.skip(1));
        let rest = requests_of(after, replies.skip(1));
        assert forall|j: int| 0 <= j < replies.len() implies !touches_mounts(
            #[trigger] requests_of(state, replies)[j],
        ) && !(requests_of(state, replies)[j] is OpenDm) by {
            if j > 0 {
                assert(requests_of(state, replies)[j] == rest[j - 1]);
            }
        }
    }
}

/// The management interface is asked for at most once in a teardown, and
/// nothing is asked of the device layer before it.
pub proof fn law_interface_is_opened_once(state: TeardownView, replies: Seq<Reply>)
    requires
        state is Mounts,
    ensures
        requests_of(state, replies).len() == replies.len(),
        forall|i: int, j: int|
            0 <= i < j < replies.len() && #[trigger] requests_of(state, replies)[i] is OpenDm ==> !(
            #[trigger] requests_of(state, replies)[j] is OpenDm),
        forall|i: int, j: int|
            0 <= i < j < replies.len() && #[trigger] requests_of(state, replies)[j] is OpenDm
                ==> !touches_devices(#[trigger] requests_of(state, replies)[i]),
    decreases replies.len(),
{
    if replies.len() > 0 {
        let (after, request) = teardown_step(state, replies[0]);
        let rest = requests_of(after, replies.skip(1));
        let all = requests_of(state, replies);
        assert(all[0] == request);
        if after is Mounts {
            law_interface_is_opened_once(after, replies.skip(1));
        } else {
            lemma_mounts_are_left_for_good(after, replies.skip(1));
        }
        assert forall|i: int, j: int|
            0 <= i < j < replies.len() && #[trigger] all[i] is OpenDm implies !(
        #[trigger] all[j] is OpenDm) by {
            assert(all[j] == rest[j - 1]);
            if i > 0 {
                assert(all[i] == rest[i - 1]);
            }
        }
        assert forall|i: int, j: int|
            0 <= i < j < replies.len() && #[trigger] all[j] is OpenDm implies !touches_devices(
            #[trigger] all[i],
        ) by {
            assert(all[j] == rest[j - 1]);
            if i > 0 {
                assert(all[i] == rest[i - 1]);
            }
        }
    }
}

/// The mount sweep is complete before the device layer is touched: in the
/// requests of a teardown, whatever the replies, no request to the mount
/// layer comes after one to the device layer.
pub proof fn law_mounts_before_devices(state: TeardownView, replies: Seq<Reply>)
    ensures
        requests_of(state, replies).len() == replies.len(),
        forall|i: int, j: int|
            0 <= i < j < replies.len() && touches_devices(#[trigger] requests_of(state, replies)[i])
                ==> !touches_mounts(#[trigger] requests_of(state, replies)[j]),
    decreases replies.len(),
{
    if replies.len() > 0 {
        let (after, request) = teardown_step(state, replies[0]);
        let rest = requests_of(after, replies.skip(1));
        let all = requests_of(state, replies);
        law_mounts_before_devices(after, replies.skip(1));
        assert(all[0] == request);
        assert forall|i: int, j: int|
            0 <= i < j < replies.len() && touches_devices(#[trigger] all[i]) implies !touches_mounts(
            #[trigger] all[j],
        ) by {
            assert(all[j] == rest[j - 1]);
            if i == 0 {
                assert(after is Devices);
                lemma_mounts_are_left_for_good(after, replies.skip(1));
            } else {
                assert(all[i] == rest[i - 1]);
            }
        }
    }
}

/// A failed mount sweep ends the teardown at once: the device sweep never
/// starts.
pub proof fn law_mount_failure_ends_teardown(sweep: MountSweepView, reply: Reply)
    requires
        mount_step(sweep, reply).1 is Fail,
    ensures
        teardown_step(TeardownView::Mounts(sweep), reply) == (
            TeardownView::Ended,
            mount_step(sweep, reply).1,
        ),
{
}

} // verus!

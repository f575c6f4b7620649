//! Why repeated passes suffice: a model of devices that hold one another
//! open, and the proof that the device sweep unwinds every stack of them.

use vstd::prelude::*;
use crate::device_sweep::{device_next, device_step, DevicePhase, DeviceSweepView};
use crate::marker::{is_marked, marked_only};
use crate::protocol::{Failure, Reply, Request};

verus! {

/// The fixed part of a model kernel: the order in which it lists devices,
/// and for each device the devices that hold it open.
pub struct Stacking {
    pub order: Seq<Seq<char>>,
    pub holders: spec_fn(Seq<char>) -> Set<Seq<char>>,
}

impl Stacking {
    /// What a listing shows while the devices `alive` exist.
    pub open spec fn listing(self, alive: Set<Seq<char>>) -> Seq<Seq<char>> {
        self.order.filter(|name: Seq<char>| alive.contains(name))
    }

    /// A device can be removed if it exists and no existing device holds it.
    pub open spec fn free(self, alive: Set<Seq<char>>, name: Seq<char>) -> bool {
        &&& alive.contains(name)
        &&& forall|holder: Seq<char>|
            alive.contains(holder) ==> !(#[trigger] (self.holders)(name).contains(holder))
    }

    /// The devices that exist after a request, and the reply to it.
    pub open spec fn respond(self, alive: Set<Seq<char>>, request: Request) -> (
        Set<Seq<char>>,
        Reply,
    ) {
        match request {
            Request::ListDevices => (alive, Reply::Devices(self.listing(alive))),
            Request::Remove(name) => if self.free(alive, name) {
                (alive.remove(name), Reply::Succeeded)
            } else {
                (alive, Reply::Failed)
            },
            _ => (alive, Reply::Succeeded),
        }
    }
}

/// A device sweep at work on a model kernel.
pub struct Run {
    /// The devices that exist.
    pub alive: Set<Seq<char>>,
    pub sweep: DeviceSweepView,
    /// The request that the sweep has made and the kernel has not answered.
    pub request: Request,
    /// The listings answered so far: the passes begun.
    pub listings: nat,
}

/// The request ends a sweep.
pub open spec fn is_last(request: Request) -> bool {
    request is Done || request is Fail || request is Halted
}

/// Lets the kernel answer and the sweep step, up to `fuel` times or until
/// the sweep ends.
pub open spec fn run(env: Stacking, at: Run, fuel: nat) -> Run
    decreases fuel,
{
    if fuel == 0 || is_last(at.request) {
        at
    } else {
        let (alive, reply) = env.respond(at.alive, at.request);
        let (sweep, request) = device_step(at.sweep, reply);
        let listings = if at.request is ListDevices {
            at.listings + 1
        } else {
            at.listings
        };
        run(env, Run { alive, sweep, request, listings }, (fuel - 1) as nat)
    }
}

/// What a pass has come to when its last candidate has been attempted.
pub struct PassEnd {
    pub alive: Set<Seq<char>>,
    pub progress: bool,
    pub remain: Seq<Seq<char>>,
}

/// The end of a pass that still has `pending` to attempt.
pub open spec fn pass_end(
    env: Stacking,
    alive: Set<Seq<char>>,
    pending: Seq<Seq<char>>,
    progress: bool,
    remain: Seq<Seq<char>>,
) -> PassEnd
    decreases pending.len(),
{
    if pending.len() == 0 {
        PassEnd { alive, progress, remain }
    } else if env.free(alive, pending[0]) {
        pass_end(env, alive.remove(pending[0]), pending.skip(1), true, remain)
    } else {
        pass_end(env, alive, pending.skip(1), progress, remain.push(pending[0]))
    }
}

/// The sweep, run through the rest of a pass, arrives at `pass_end`.
proof fn lemma_run_reaches_pass_end(
    env: Stacking,
    alive: Set<Seq<char>>,
    pending: Seq<Seq<char>>,
    progress: bool,
    remain: Seq<Seq<char>>,
    listings: nat,
    fuel: nat,
)
    ensures
        ({
            let start = device_next(pending, progress, remain);
            let end = pass_end(env, alive, pending, progress, remain);
            let after = device_next(Seq::empty(), end.progress, end.remain);
            run(env, Run { alive, sweep: start.0, request: start.1, listings }, fuel + pending.len())
                == run(
                env,
                Run { alive: end.alive, sweep: after.0, request: after.1, listings },
                fuel,
            )
        }),
    decreases pending.len(),
{
    if pending.len() == 0 {
        assert(pending =~= Seq::empty());
    } else {
        let start = device_next(pending, progress, remain);
        let (alive2, reply) = env.respond(alive, start.1);
        let rest = pending.skip(1);
        assert(fuel + pending.len() - 1 == fuel + rest.len());
        if env.free(alive, pending[0]) {
            assert(device_step(start.0, reply) == device_next(rest, true, remain));
            lemma_run_reaches_pass_end(env, alive2, rest, true, remain, listings, fuel);
        } else {
            assert(device_step(start.0, reply) == device_next(
                rest,
                progress,
                remain.push(pending[0]),
            ));
            lemma_run_reaches_pass_end(
                env,
                alive2,
                rest,
                progress,
                remain.push(pending[0]),
                listings,
                fuel,
            );
        }
    }
}

/// A pass removes devices only, and it reports progress exactly if it was
/// handed progress or has removed one.
proof fn lemma_pass_shrinks(
    env: Stacking,
    alive: Set<Seq<char>>,
    pending: Seq<Seq<char>>,
    progress: bool,
    remain: Seq<Seq<char>>,
)
    requires
        alive.finite(),
    ensures
        ({
            let end = pass_end(env, alive, pending, progress, remain);
            &&& end.alive.finite()
            &&& end.alive.subset_of(alive)
            &&& end.alive.len() <= alive.len()
            &&& progress ==> end.progress
            &&& end.progress && !progress ==> end.alive.len() < alive.len()
        }),
    decreases pending.len(),
{
    if pending.len() > 0 {
        if env.free(alive, pending[0]) {
            lemma_pass_shrinks(env, alive.remove(pending[0]), pending.skip(1), true, remain);
        } else {
            lemma_pass_shrinks(env, alive, pending.skip(1), progress, remain.push(pending[0]));
        }
    }
}

/// A pass that has a free device among its candidates makes progress.
proof fn lemma_free_device_is_progress(
    env: Stacking,
    alive: Set<Seq<char>>,
    pending: Seq<Seq<char>>,
    progress: bool,
    remain: Seq<Seq<char>>,
    free: Seq<char>,
)
    requires
        alive.finite(),
        pending.contains(free),
        env.free(alive, free),
    ensures
        pass_end(env, alive, pending, progress, remain).progress,
    decreases pending.len(),
{
    if env.free(alive, pending[0]) {
        lemma_pass_shrinks(env, alive.remove(pending[0]), pending.skip(1), true, remain);
    } else {
        let at = choose|i: int| 0 <= i < pending.len() && pending[i] == free;
        assert(pending.skip(1)[at - 1] == free);
        lemma_free_device_is_progress(
            env,
            alive,
            pending.skip(1),
            progress,
            remain.push(pending[0]),
            free,
        );
    }
}

/// Progress, once made, is not lost in the rest of the pass.
proof fn lemma_progress_is_kept(
    env: Stacking,
    alive: Set<Seq<char>>,
    pending: Seq<Seq<char>>,
    remain: Seq<Seq<char>>,
)
    ensures
        pass_end(env, alive, pending, true, remain).progress,
    decreases pending.len(),
{
    if pending.len() > 0 {
        if env.free(alive, pending[0]) {
            lemma_progress_is_kept(env, alive.remove(pending[0]), pending.skip(1), remain);
        } else {
            lemma_progress_is_kept(env, alive, pending.skip(1), remain.push(pending[0]));
        }
    }
}

/// A pass without progress has found none of its candidates free: it
/// leaves the devices as they were, and all its candidates remain, in their
/// order.
proof fn lemma_pass_without_progress(
    env: Stacking,
    alive: Set<Seq<char>>,
    pending: Seq<Seq<char>>,
    remain: Seq<Seq<char>>,
)
    ensures
        ({
            let end = pass_end(env, alive, pending, false, remain);
            !end.progress ==> {
                &&& end.alive == alive
                &&& end.remain == remain + pending
                &&& forall|i: int| 0 <= i < pending.len() ==> !env.free(alive, #[trigger] pending[i])
            }
        }),
    decreases pending.len(),
{
    if pending.len() == 0 {
        assert(remain + pending =~= remain);
    } else if env.free(alive, pending[0]) {
        lemma_progress_is_kept(env, alive.remove(pending[0]), pending.skip(1), remain);
    } else {
        let rest = pending.skip(1);
        lemma_pass_without_progress(env, alive, rest, remain.push(pending[0]));
        assert(remain.push(pending[0]) + rest =~= remain + pending);
        if !pass_end(env, alive, pending, false, remain).progress {
            assert forall|i: int| 0 <= i < pending.len() implies !env.free(
                alive,
                #[trigger] pending[i],
            ) by {
                if i > 0 {
                    assert(pending[i] == rest[i - 1]);
                }
            }
        }
    }
}

/// What one pass comes to. A listing and the attempts on its marked names
/// lead, if any of them was removed, to the next listing. If none was, the
/// sweep ends, the devices are what they were, and none of the marked ones
/// could be removed: with none of them there the sweep succeeds, else it
/// fails and names exactly the marked devices of the listing, in its order.
pub proof fn law_pass_outcome(env: Stacking, alive: Set<Seq<char>>)
    ensures
        ({
            let names = marked_only(env.listing(alive));
            let end = pass_end(env, alive, names, false, Seq::empty());
            let start = Run {
                alive,
                sweep: DeviceSweepView::idle(DevicePhase::Listing),
                request: Request::ListDevices,
                listings: 0,
            };
            let after = run(env, start, 1 + names.len());
            &&& after.listings == 1
            &&& after.alive == end.alive
            &&& end.progress ==> after.request == Request::ListDevices && after.sweep
                == DeviceSweepView::idle(DevicePhase::Listing)
            &&& !end.progress ==> {
                &&& after.sweep == DeviceSweepView::idle(DevicePhase::Ended)
                &&& after.alive == alive
                &&& forall|i: int| 0 <= i < names.len() ==> !env.free(alive, #[trigger] names[i])
                &&& names.len() == 0 ==> after.request == Request::Done
                &&& names.len() > 0 ==> after.request == Request::Fail(Failure::Remaining(names))
            }
        }),
{
    let names = marked_only(env.listing(alive));
    let first = device_next(names, false, Seq::empty());
    let start = Run {
        alive,
        sweep: DeviceSweepView::idle(DevicePhase::Listing),
        request: Request::ListDevices,
        listings: 0,
    };
    let listed = Run { alive, sweep: first.0, request: first.1, listings: 1 };
    assert(device_step(start.sweep, Reply::Devices(env.listing(alive))) == first);
    assert(run(env, start, 1 + names.len()) == run(env, listed, 0 + names.len()));
    lemma_run_reaches_pass_end(env, alive, names, false, Seq::empty(), 1, 0);
    lemma_pass_without_progress(env, alive, names, Seq::empty());
    assert(Seq::<Seq<char>>::empty() + names =~= names);
}

/// A device of `alive` of the least rank.
proof fn lemma_least_rank(
    alive: Set<Seq<char>>,
    rank: spec_fn(Seq<char>) -> nat,
    from: Seq<char>,
) -> (least: Seq<char>)
    requires
        alive.contains(from),
    ensures
        alive.contains(least),
        forall|other: Seq<char>| alive.contains(other) ==> rank(least) <= #[trigger] rank(other),
    decreases rank(from),
{
    if exists|other: Seq<char>| alive.contains(other) && rank(other) < rank(from) {
        let other = choose|other: Seq<char>| alive.contains(other) && rank(other) < rank(from);
        lemma_least_rank(alive, rank, other)
    } else {
        from
    }
}

/// Where every name is marked, all of them are in scope.
proof fn lemma_all_marked(names: Seq<Seq<char>>)
    requires
        forall|i: int| 0 <= i < names.len() ==> is_marked(#[trigger] names[i]),
    ensures
        marked_only(names) == names,
    decreases names.len(),
{
    reveal(Seq::filter);
    if names.len() > 0 {
        lemma_all_marked(names.drop_last());
        assert(names.drop_last().push(names.last()) =~= names);
    }
}

/// The devices exist in a state that the sweep can unwind: they are
/// finitely many, all marked and all listed, and `rank` orders them so that
/// whatever holds a device has a lower rank than the device.
pub open spec fn unwindable(
    env: Stacking,
    alive: Set<Seq<char>>,
    rank: spec_fn(Seq<char>) -> nat,
) -> bool {
    &&& alive.finite()
    &&& forall|name: Seq<char>| alive.contains(name) ==> is_marked(name)
    &&& forall|name: Seq<char>| alive.contains(name) ==> env.order.contains(name)
    &&& forall|name: Seq<char>, holder: Seq<char>|
        alive.contains(name) && alive.contains(holder) && #[trigger] (env.holders)(name).contains(
            holder,
        ) ==> rank(holder) < rank(name)
}

proof fn lemma_unwinds_from(
    env: Stacking,
    alive: Set<Seq<char>>,
    rank: spec_fn(Seq<char>) -> nat,
    seen: nat,
) -> (fuel: (nat, nat))
    requires
        unwindable(env, alive, rank),
    ensures
        ({
            let start = Run {
                alive,
                sweep: DeviceSweepView::idle(DevicePhase::Listing),
                request: Request::ListDevices,
                listings: seen,
            };
            let cleared = run(env, start, fuel.0);
            let end = run(env, start, fuel.1);
            &&& cleared.alive == Set::<Seq<char>>::empty()
            &&& cleared.listings <= seen + alive.len()
            &&& end.request == Request::Done
            &&& end.sweep == DeviceSweepView::idle(DevicePhase::Ended)
            &&& end.alive == Set::<Seq<char>>::empty()
            &&& end.listings <= seen + alive.len() + 1
        }),
    decreases alive.len(),
{
    let names = env.listing(alive);
    let shown = |name: Seq<char>| alive.contains(name);
    assert forall|i: int| 0 <= i < names.len() implies is_marked(#[trigger] names[i]) by {
        env.order.lemma_filter_pred(shown, i);
    }
    lemma_all_marked(names);
    let first = device_next(names, false, Seq::empty());
    let start = Run {
        alive,
        sweep: DeviceSweepView::idle(DevicePhase::Listing),
        request: Request::ListDevices,
        listings: seen,
    };
    let listed = Run { alive, sweep: first.0, request: first.1, listings: seen + 1 };
    assert(env.respond(alive, Request::ListDevices) == (alive, Reply::Devices(names)));
    assert(device_step(start.sweep, Reply::Devices(names)) == first);
    if alive.len() == 0 {
        alive.lemma_len0_is_empty();
        if names.len() > 0 {
            env.order.lemma_filter_pred(shown, 0);
        }
        assert(run(env, start, 1) == run(env, listed, 0));
        (0, 1)
    } else {
        let some = alive.choose();
        let least = lemma_least_rank(alive, rank, some);
        assert(env.free(alive, least)) by {
            assert forall|holder: Seq<char>| alive.contains(holder) implies !(#[trigger] (
            env.holders)(least).contains(holder)) by {
                if (env.holders)(least).contains(holder) {
                    assert(rank(holder) < rank(least));
                }
            }
        }
        let at = choose|i: int| 0 <= i < env.order.len() && env.order[i] == least;
        env.order.lemma_filter_contains(shown, at);
        lemma_free_device_is_progress(env, alive, names, false, Seq::empty(), least);
        lemma_pass_shrinks(env, alive, names, false, Seq::empty());
        let end = pass_end(env, alive, names, false, Seq::empty());
        let fuel = lemma_unwinds_from(env, end.alive, rank, seen + 1);
        lemma_run_reaches_pass_end(env, alive, names, false, Seq::empty(), seen + 1, fuel.0);
        lemma_run_reaches_pass_end(env, alive, names, false, Seq::empty(), seen + 1, fuel.1);
        assert(run(env, start, 1 + fuel.0 + names.len()) == run(env, listed, fuel.0 + names.len()));
        assert(run(env, start, 1 + fuel.1 + names.len()) == run(env, listed, fuel.1 + names.len()));
        (1 + fuel.0 + names.len(), 1 + fuel.1 + names.len())
    }
}

/// A stack of marked devices is always unwound. Let the devices that exist
/// be marked, and let what holds a device open be of lower rank than the
/// device, so that no device holds itself through others. Then a device
/// sweep that starts with a listing has removed every device by the end of
/// as many passes as there were devices, and after one more pass, which
/// finds nothing, it ends in success. The result gives the number of
/// steps to each of the two moments.
pub proof fn law_stack_is_unwound(
    env: Stacking,
    alive: Set<Seq<char>>,
    rank: spec_fn(Seq<char>) -> nat,
) -> (fuel: (nat, nat))
    requires
        unwindable(env, alive, rank),
    ensures
        ({
            let start = Run {
                alive,
                sweep: DeviceSweepView::idle(DevicePhase::Listing),
                request: Request::ListDevices,
                listings: 0,
            };
            let cleared = run(env, start, fuel.0);
            let end = run(env, start, fuel.1);
            &&& cleared.alive == Set::<Seq<char>>::empty()
            &&& cleared.listings <= alive.len()
            &&& end.request == Request::Done
            &&& end.sweep == DeviceSweepView::idle(DevicePhase::Ended)
            &&& end.alive == Set::<Seq<char>>::empty()
            &&& end.listings <= alive.len() + 1
        }),
{
    lemma_unwinds_from(env, alive, rank, 0)
}

} // verus!

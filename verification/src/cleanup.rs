//! The cleanup decision machine.
//!
//! Cleanup alternates kernel work (reading the mount table, unmounting,
//! listing and removing device-mapper devices) with decisions.  The
//! decisions live here, verified: the machine says which action to perform
//! next, the caller performs it and reports the outcome, and the machine
//! moves on.  Marked mounts are unmounted first, failing fast; marked
//! devices are then removed in repeated best-effort passes until a pass
//! makes no progress, because a successful removal may unblock a device
//! that was busy as somebody's backing store.  The dependency graph between
//! devices is never modelled: an admissible removal order is discovered
//! empirically through the retries.

use vstd::prelude::*;
use vstd::seq_lib::group_filter_ensures;

use crate::errors::CleanupError;
use crate::naming::is_marked;
use crate::naming::is_marked_str;

verus! {

broadcast use group_filter_ensures;

/// The predicate that selects marked names out of a listing.
pub open spec fn marked_pred() -> spec_fn(String) -> bool {
    |s: String| is_marked(s@)
}

/// The marked entries of a listing, in listing order.
pub open spec fn marked_of(v: Seq<String>) -> Seq<String> {
    v.filter(marked_pred())
}

fn filter_marked(v: &Vec<String>) -> (out: Vec<String>)
    ensures
        out@ == marked_of(v@),
{
    let mut out: Vec<String> = Vec::new();
    proof {
        reveal_with_fuel(Seq::<_>::filter, 1);
        assert(v@.subrange(0, 0) =~= Seq::<String>::empty());
    }
    let mut i: usize = 0;
    while i < v.len()
        invariant
            i <= v@.len(),
            out@ == marked_of(v@.subrange(0, i as int)),
        decreases v@.len() - i,
    {
        let s = &v[i];
        if is_marked_str(s.as_str()) {
            out.push(s.clone());
        }
        proof {
            reveal_with_fuel(Seq::<_>::filter, 2);
            assert(v@.subrange(0, i + 1) =~= v@.subrange(0, i as int) + seq![v@[i as int]]);
            Seq::filter_distributes_over_add(
                v@.subrange(0, i as int),
                seq![v@[i as int]],
                marked_pred(),
            );
            assert(seq![v@[i as int]].drop_last() =~= Seq::<String>::empty());
        }
        i += 1;
    }
    proof {
        assert(v@.subrange(0, v@.len() as int) =~= v@);
    }
    out
}

/// What the caller must do next.
#[derive(Debug)]
pub enum Action {
    /// Read the mount table: the mount paths of every mount under the root.
    ListMounts,
    /// Detach-unmount the given mount path, lazily, and report the outcome.
    Unmount { path: String },
    /// Open, or find already open, the device-mapper control channel, and
    /// report whether it is usable.
    AccessDm,
    /// List the names of all device-mapper devices, and report them.
    ListDevices,
    /// Remove the named device-mapper device, and report the outcome.
    RemoveDevice { name: String },
    /// Cleanup is over; collect the result.
    Done,
}

/// The outcome of a performed action, reported back to the machine.
/// Failures of listings, of the control channel and of unmounts carry their
/// cause as text; a failed removal carries none, because its reason is
/// deliberately discarded — it only makes the device a retry candidate.
#[derive(Debug)]
pub enum Event {
    /// The mount paths read, or the cause when the table could not be read.
    MountsListed { mounts: Result<Vec<String>, String> },
    /// Whether the requested unmount succeeded, with the cause if not.
    UnmountDone { outcome: Result<(), String> },
    /// Whether the device-mapper control channel is usable, with the cause
    /// if not.
    DmReady { outcome: Result<(), String> },
    /// The device names listed, or the cause when listing failed.
    DevicesListed { devices: Result<Vec<String>, String> },
    /// Whether the requested removal succeeded.
    RemoveDone { ok: bool },
}

/// Where the machine stands.
#[derive(Debug)]
pub enum Phase {
    /// Waiting for the mount table.
    AwaitMounts,
    /// Unmounting marked mount paths; the head of `pending` is in flight.
    Unmounting { pending: Vec<String> },
    /// Waiting for the device-mapper control channel.
    AwaitDm,
    /// Waiting for a device listing: the start of a removal pass.
    AwaitDevices,
    /// Removing the marked devices of one listing; the head of `pending` is
    /// in flight, `remain` holds the names whose removal failed this pass,
    /// and `progress` records whether any removal of this pass succeeded.
    Removing { pending: Vec<String>, remain: Vec<String>, progress: bool },
    /// Nothing left to do.
    Finished { failure: Option<CleanupError> },
}

/// The cleanup decision machine.
#[derive(Debug)]
pub struct Cleanup {
    pub phase: Phase,
}

impl Cleanup {
    /// Pending work is never empty and never touches an unmarked name.
    pub open spec fn wf(self) -> bool {
        match self.phase {
            Phase::Unmounting { pending } => {
                &&& pending@.len() >= 1
                &&& forall|i: int| 0 <= i < pending@.len() ==> is_marked(#[trigger] pending@[i]@)
            },
            Phase::Removing { pending, remain, .. } => {
                &&& pending@.len() >= 1
                &&& forall|i: int| 0 <= i < pending@.len() ==> is_marked(#[trigger] pending@[i]@)
                &&& forall|i: int| 0 <= i < remain@.len() ==> is_marked(#[trigger] remain@[i]@)
            },
            _ => true,
        }
    }

    /// The stage of cleanup: mounts first (0), then devices (1), then done
    /// (2).  Steps never decrease it: that is the ordering contract.
    pub open spec fn stage(self) -> int {
        match self.phase {
            Phase::AwaitMounts => 0,
            Phase::Unmounting { .. } => 0,
            Phase::AwaitDm => 1,
            Phase::AwaitDevices => 1,
            Phase::Removing { .. } => 1,
            Phase::Finished { .. } => 2,
        }
    }

    /// Which events the machine consumes in its current phase.
    pub open spec fn accepts(self, e: Event) -> bool {
        match (self.phase, e) {
            (Phase::AwaitMounts, Event::MountsListed { .. }) => true,
            (Phase::Unmounting { .. }, Event::UnmountDone { .. }) => true,
            (Phase::AwaitDm, Event::DmReady { .. }) => true,
            (Phase::AwaitDevices, Event::DevicesListed { .. }) => true,
            (Phase::Removing { .. }, Event::RemoveDone { .. }) => true,
            _ => false,
        }
    }
}

/// The transition relation: how one consumed event moves the machine on.
pub open spec fn steps_to(pre: Cleanup, e: Event, post: Cleanup) -> bool {
    match (pre.phase, e) {
        (Phase::AwaitMounts, Event::MountsListed { mounts }) => match mounts {
            Err(cause) => post.phase == Phase::Finished {
                failure: Some(CleanupError::MountListing { cause }),
            },
            Ok(paths) => {
                let m = marked_of(paths@);
                if m.len() == 0 {
                    post.phase == Phase::AwaitDm
                } else {
                    post.phase matches Phase::Unmounting { pending } && pending@ == m
                }
            },
        },
        (Phase::Unmounting { pending }, Event::UnmountDone { outcome }) => match outcome {
            Err(cause) => post.phase == Phase::Finished {
                failure: Some(CleanupError::Unmount { path: pending@[0], cause }),
            },
            Ok(_) => {
                if pending@.len() > 1 {
                    post.phase matches Phase::Unmounting { pending: p2 } && p2@ == pending@.remove(
                        0,
                    )
                } else {
                    post.phase == Phase::AwaitDm
                }
            },
        },
        (Phase::AwaitDm, Event::DmReady { outcome }) => match outcome {
            Ok(_) => post.phase == Phase::AwaitDevices,
            Err(cause) => post.phase == Phase::Finished {
                failure: Some(CleanupError::Initialization { cause }),
            },
        },
        (Phase::AwaitDevices, Event::DevicesListed { devices }) => match devices {
            Err(cause) => post.phase == Phase::Finished {
                failure: Some(CleanupError::DeviceListing { cause }),
            },
            Ok(names) => {
                let m = marked_of(names@);
                if m.len() == 0 {
                    post.phase == Phase::Finished { failure: None }
                } else {
                    post.phase matches Phase::Removing { pending, remain, progress } && pending@
                        == m && remain@ == Seq::<String>::empty() && progress == false
                }
            },
        },
        (Phase::Removing { pending, remain, progress }, Event::RemoveDone { ok }) => {
            let remain2 = if ok {
                remain@
            } else {
                remain@.push(pending@[0])
            };
            let progress2 = progress || ok;
            if pending@.len() > 1 {
                post.phase matches Phase::Removing { pending: p2, remain: r2, progress: g2 }
                    && p2@ == pending@.remove(0) && r2@ == remain2 && g2 == progress2
            } else if progress2 {
                post.phase == Phase::AwaitDevices
            } else if remain2.len() == 0 {
                post.phase == Phase::Finished { failure: None }
            } else {
                post.phase matches Phase::Finished { failure } && failure matches Some(
                    CleanupError::Residual { remaining },
                ) && remaining@ == remain2
            }
        },
        _ => false,
    }
}

impl Cleanup {
    /// Consume one event and move on.  An event the current phase does not
    /// expect leaves the machine unchanged.
    pub fn step(self, e: Event) -> (next: Cleanup)
        requires
            self.wf(),
        ensures
            self.accepts(e) ==> steps_to(self, e, next),
            !self.accepts(e) ==> next == self,
            next.wf(),
    {
        match (self.phase, e) {
            (Phase::AwaitMounts, Event::MountsListed { mounts }) => match mounts {
                Err(cause) => Cleanup {
                    phase: Phase::Finished { failure: Some(CleanupError::MountListing { cause }) },
                },
                Ok(paths) => {
                    let marked = filter_marked(&paths);
                    if marked.len() == 0 {
                        Cleanup { phase: Phase::AwaitDm }
                    } else {
                        Cleanup { phase: Phase::Unmounting { pending: marked } }
                    }
                },
            },
            (Phase::Unmounting { mut pending }, Event::UnmountDone { outcome }) => {
                let ghost old_seq = pending@;
                let current = pending.remove(0);
                match outcome {
                    Err(cause) => Cleanup {
                        phase: Phase::Finished {
                            failure: Some(CleanupError::Unmount { path: current, cause }),
                        },
                    },
                    Ok(_) => {
                        if pending.len() > 0 {
                            proof {
                                assert forall|i: int|
                                    0 <= i < pending@.len() implies is_marked(
                                    #[trigger] pending@[i]@,
                                ) by {
                                    assert(pending@[i] == old_seq[i + 1]) by {
                                        old_seq.remove_ensures(0);
                                    }
                                }
                            }
                            Cleanup { phase: Phase::Unmounting { pending } }
                        } else {
                            Cleanup { phase: Phase::AwaitDm }
                        }
                    },
                }
            },
            (Phase::AwaitDm, Event::DmReady { outcome }) => match outcome {
                Ok(_) => Cleanup { phase: Phase::AwaitDevices },
                Err(cause) => Cleanup {
                    phase: Phase::Finished {
                        failure: Some(CleanupError::Initialization { cause }),
                    },
                },
            },
            (Phase::AwaitDevices, Event::DevicesListed { devices }) => match devices {
                Err(cause) => Cleanup {
                    phase: Phase::Finished { failure: Some(CleanupError::DeviceListing { cause }) },
                },
                Ok(names) => {
                    let marked = filter_marked(&names);
                    if marked.len() == 0 {
                        Cleanup { phase: Phase::Finished { failure: None } }
                    } else {
                        Cleanup {
                            phase: Phase::Removing {
                                pending: marked,
                                remain: Vec::new(),
                                progress: false,
                            },
                        }
                    }
                },
            },
            (Phase::Removing { mut pending, mut remain, progress }, Event::RemoveDone { ok }) => {
                let ghost old_seq = pending@;
                let current = pending.remove(0);
                proof {
                    if pending@.len() > 0 {
                        assert forall|i: int| 0 <= i < pending@.len() implies is_marked(
                            #[trigger] pending@[i]@,
                        ) by {
                            old_seq.remove_ensures(0);
                            assert(pending@[i] == old_seq[i + 1]);
                        }
                    }
                }
                let progress2 = progress || ok;
                if !ok {
                    remain.push(current);
                }
                if pending.len() > 0 {
                    Cleanup { phase: Phase::Removing { pending, remain, progress: progress2 } }
                } else if progress2 {
                    Cleanup { phase: Phase::AwaitDevices }
                } else if remain.len() == 0 {
                    Cleanup { phase: Phase::Finished { failure: None } }
                } else {
                    Cleanup {
                        phase: Phase::Finished {
                            failure: Some(CleanupError::Residual { remaining: remain }),
                        },
                    }
                }
            },
            (ph, _) => Cleanup { phase: ph },
        }
    }
}

/// The action the machine requests of its caller in each phase.
pub open spec fn action_matches(s: Cleanup, a: Action) -> bool {
    match s.phase {
        Phase::AwaitMounts => a == Action::ListMounts,
        Phase::Unmounting { pending } => a matches Action::Unmount { path } && path == pending@[0],
        Phase::AwaitDm => a == Action::AccessDm,
        Phase::AwaitDevices => a == Action::ListDevices,
        Phase::Removing { pending, .. } => a matches Action::RemoveDevice { name } && name
            == pending@[0],
        Phase::Finished { .. } => a == Action::Done,
    }
}

impl Cleanup {
    /// The action to perform next.
    pub fn current_action(&self) -> (a: Action)
        requires
            self.wf(),
        ensures
            action_matches(*self, a),
    {
        match &self.phase {
            Phase::AwaitMounts => Action::ListMounts,
            Phase::Unmounting { pending } => Action::Unmount { path: pending[0].clone() },
            Phase::AwaitDm => Action::AccessDm,
            Phase::AwaitDevices => Action::ListDevices,
            Phase::Removing { pending, .. } => Action::RemoveDevice { name: pending[0].clone() },
            Phase::Finished { .. } => Action::Done,
        }
    }

    /// Whether cleanup is over.
    pub fn is_finished(&self) -> (b: bool)
        ensures
            b == (self.phase matches Phase::Finished { .. }),
    {
        match &self.phase {
            Phase::Finished { .. } => true,
            _ => false,
        }
    }

    /// The outcome of a finished cleanup.
    pub fn into_result(self) -> (r: Result<(), CleanupError>)
        requires
            self.phase matches Phase::Finished { .. },
        ensures
            self.phase matches Phase::Finished { failure } ==> r == (match failure {
                None => Ok::<(), CleanupError>(()),
                Some(e) => Err::<(), CleanupError>(e),
            }),
    {
        match self.phase {
            Phase::Finished { failure: None } => Ok(()),
            Phase::Finished { failure: Some(e) } => Err(e),
            _ => Ok(()),
        }
    }
}

/// Begin a cleanup.  The machine asks for the mount table first: filesystems
/// must be unmounted before their backing devices can be removed.
pub fn clean_up() -> (c: Cleanup)
    ensures
        c.phase == Phase::AwaitMounts,
        c.wf(),
{
    Cleanup { phase: Phase::AwaitMounts }
}

/// Marker filter correctness: a well-formed machine only ever asks to
/// unmount or to remove a name that contains the marker.
pub proof fn lemma_only_marked_touched(s: Cleanup, a: Action)
    requires
        s.wf(),
        action_matches(s, a),
    ensures
        a matches Action::Unmount { path } ==> is_marked(path@),
        a matches Action::RemoveDevice { name } ==> is_marked(name@),
{
}

/// One step never decreases the stage: device work never precedes mount work.
pub proof fn lemma_step_stage_monotone(pre: Cleanup, e: Event, post: Cleanup)
    requires
        steps_to(pre, e, post),
    ensures
        post.stage() >= pre.stage(),
{
}

/// Position `i` of `tr` is a step of the machine.
pub open spec fn run_step(tr: Seq<Cleanup>, i: int) -> bool {
    exists|e: Event| #[trigger] steps_to(tr[i], e, tr[i + 1])
}

/// `tr` is a run of the machine: consecutive states are related by steps.
pub open spec fn is_run(tr: Seq<Cleanup>) -> bool {
    forall|i: int| 0 <= i < tr.len() - 1 ==> #[trigger] run_step(tr, i)
}

/// Along any run the stage never goes back.
pub proof fn lemma_run_stage_monotone(tr: Seq<Cleanup>, i: int, j: int)
    requires
        is_run(tr),
        0 <= i <= j < tr.len(),
    ensures
        tr[j].stage() >= tr[i].stage(),
    decreases j - i,
{
    if i < j {
        lemma_run_stage_monotone(tr, i, j - 1);
        assert(run_step(tr, j - 1));
        let e = choose|e: Event| #[trigger] steps_to(tr[j - 1], e, tr[j]);
        lemma_step_stage_monotone(tr[j - 1], e, tr[j]);
    }
}

/// Order invariant: once the machine is removing devices it never again
/// unmounts, so for a device backing a marked mount, the unmount of the
/// mount precedes every attempt to remove the device in any run.
pub proof fn lemma_no_unmount_after_remove(tr: Seq<Cleanup>, i: int, j: int)
    requires
        is_run(tr),
        0 <= i <= j < tr.len(),
        tr[i].phase matches Phase::Removing { .. },
    ensures
        !(tr[j].phase matches Phase::Unmounting { .. }),
{
    lemma_run_stage_monotone(tr, i, j);
}

/// Fail-fast unmount: the first unmount failure finishes cleanup at once,
/// with an error naming the offending path, and the machine accepts no
/// further event — the remaining pending mounts are never attempted.
pub proof fn lemma_unmount_fail_fast(pre: Cleanup, post: Cleanup, pending: Vec<String>, cause: String)
    requires
        (pre.phase == Phase::Unmounting { pending }),
        steps_to(pre, Event::UnmountDone { outcome: Err(cause) }, post),
    ensures
        (post.phase == Phase::Finished {
            failure: Some(CleanupError::Unmount { path: pending@[0], cause }),
        }),
        (forall|e: Event, s2: Cleanup| !steps_to(post, e, s2)),
{
}

/// Idempotence: when nothing marked remains — as right after a completed
/// cleanup with no intervening resource creation — a cleanup run is a
/// no-op: it never reaches an unmounting or removing phase, and finishes
/// without failure.
pub proof fn lemma_cleanup_noop(
    s0: Cleanup,
    s1: Cleanup,
    s2: Cleanup,
    s3: Cleanup,
    paths: Vec<String>,
    names: Vec<String>,
)
    requires
        s0.phase == Phase::AwaitMounts,
        steps_to(s0, Event::MountsListed { mounts: Ok(paths) }, s1),
        marked_of(paths@).len() == 0,
        steps_to(s1, Event::DmReady { outcome: Ok(()) }, s2),
        steps_to(s2, Event::DevicesListed { devices: Ok(names) }, s3),
        marked_of(names@).len() == 0,
    ensures
        s1.phase == Phase::AwaitDm,
        s2.phase == Phase::AwaitDevices,
        (s3.phase == Phase::Finished { failure: None }),
{
}

/// A permanently busy device: when a listing shows exactly one marked
/// device and its removal fails, cleanup terminates at once and reports
/// exactly that device as residual.
pub proof fn lemma_busy_device_reported(s0: Cleanup, s1: Cleanup, s2: Cleanup, names: Vec<String>)
    requires
        s0.phase == Phase::AwaitDevices,
        steps_to(s0, Event::DevicesListed { devices: Ok(names) }, s1),
        marked_of(names@).len() == 1,
        steps_to(s1, Event::RemoveDone { ok: false }, s2),
    ensures
        (s2.phase matches Phase::Finished { failure } && failure matches Some(
            CleanupError::Residual { remaining },
        ) && remaining@ == marked_of(names@)),
        (forall|e: Event, s3: Cleanup| !steps_to(s2, e, s3)),
{
    let m = marked_of(names@);
    assert(Seq::<String>::empty().push(m[0]) =~= m);
}

/// Some removal of the pass succeeded.
pub open spec fn any_true(oks: Seq<bool>) -> bool {
    exists|i: int| 0 <= i < oks.len() && oks[i]
}

/// Step `i` of `tr` consumes the removal outcome `oks[i]`.
pub open spec fn pass_step(tr: Seq<Cleanup>, oks: Seq<bool>, i: int) -> bool {
    steps_to(tr[i], Event::RemoveDone { ok: oks[i] }, tr[i + 1])
}

/// One whole removal pass, summarised.  Starting from a removal phase and
/// feeding the machine one outcome per pending device: if any removal
/// succeeded (or an earlier one of the same pass had), the machine lists
/// again — a successful removal may have unblocked a stacked device — and
/// otherwise it finishes, reporting as residual exactly the names whose
/// removal failed, in order.
pub proof fn lemma_removal_pass(
    tr: Seq<Cleanup>,
    oks: Seq<bool>,
    pending: Vec<String>,
    remain: Vec<String>,
    progress: bool,
)
    requires
        tr.len() == oks.len() + 1,
        oks.len() == pending@.len(),
        pending@.len() >= 1,
        (tr[0].phase == Phase::Removing { pending, remain, progress }),
        (forall|i: int| 0 <= i < oks.len() ==> #[trigger] pass_step(tr, oks, i)),
    ensures
        ((progress || any_true(oks)) ==> tr[oks.len() as int].phase == Phase::AwaitDevices),
        (!(progress || any_true(oks)) ==> (tr[oks.len() as int].phase matches Phase::Finished {
            failure,
        } && failure matches Some(CleanupError::Residual { remaining }) && remaining@ == remain@
            + pending@)),
    decreases oks.len(),
{
    assert(pass_step(tr, oks, 0));
    assert(steps_to(tr[0], Event::RemoveDone { ok: oks[0] }, tr[1]));
    if oks.len() == 1 {
        if progress || any_true(oks) {
            if !progress {
                let i = choose|i: int| 0 <= i < oks.len() && oks[i];
                assert(oks[0]);
            }
        } else {
            assert(!oks[0]);
            assert(remain@.push(pending@[0]) =~= remain@ + pending@);
        }
    } else {
        match tr[1].phase {
            Phase::Removing { pending: p2, remain: r2, progress: g2 } => {
                let tr2 = tr.drop_first();
                let oks2 = oks.drop_first();
                assert(tr[1].phase == Phase::Removing { pending: p2, remain: r2, progress: g2 });
                assert(p2@ == pending@.remove(0));
                assert(p2@.len() == pending@.len() - 1) by {
                    pending@.remove_ensures(0);
                }
                assert forall|i: int| 0 <= i < oks2.len() implies #[trigger] pass_step(
                    tr2,
                    oks2,
                    i,
                ) by {
                    assert(pass_step(tr, oks, i + 1));
                    assert(tr2[i] == tr[i + 1]);
                    assert(tr2[i + 1] == tr[i + 2]);
                    assert(oks2[i] == oks[i + 1]);
                }
                lemma_removal_pass(tr2, oks2, p2, r2, g2);
                assert(tr2[oks2.len() as int] == tr[oks.len() as int]);
                assert(any_true(oks) <==> (oks[0] || any_true(oks2))) by {
                    if any_true(oks) {
                        let i = choose|i: int| 0 <= i < oks.len() && oks[i];
                        if i > 0 {
                            assert(oks2[i - 1]);
                        }
                    }
                    if any_true(oks2) {
                        let i = choose|i: int| 0 <= i < oks2.len() && oks2[i];
                        assert(oks[i + 1]);
                    }
                }
                if !(progress || any_true(oks)) {
                    assert(!oks[0]);
                    assert(r2@ == remain@.push(pending@[0]));
                    assert(r2@ + p2@ =~= remain@ + pending@);
                }
            },
            _ => {
                assert(false);
            },
        }
    }
}

/// Pass `i` removed some of the live devices and nothing else, and removed
/// at least one whenever any were left.
pub open spec fn pass_shrinks(live: Seq<Set<int>>, i: int) -> bool {
    &&& live[i + 1].subset_of(live[i])
    &&& (!live[i].is_empty() ==> live[i + 1] != live[i])
}

/// Fixpoint termination: every pass that still sees marked devices strictly
/// shrinks the set of live marked devices — over a chain of stacked
/// devices, the device whose dependent is already gone is always removable,
/// so a non-degenerate pass succeeds on at least that one — and therefore a
/// chain of `k` marked devices is fully removed within `k` passes.
pub proof fn lemma_fixpoint_bound(live: Seq<Set<int>>, k: nat)
    requires
        live.len() == k + 1,
        live[0].finite(),
        live[0].len() <= k,
        (forall|i: int| 0 <= i < k ==> #[trigger] pass_shrinks(live, i)),
    ensures
        live[k as int].is_empty(),
    decreases k,
{
    if k == 0 {
        vstd::set_lib::lemma_set_empty_equivalency_len(live[0]);
        assert(live[0] =~= Set::<int>::empty());
    } else {
        assert(pass_shrinks(live, 0));
        vstd::set_lib::lemma_len_subset(live[1], live[0]);
        if live[0].is_empty() {
            assert(live[1] =~= Set::<int>::empty());
        } else {
            if live[1].len() == live[0].len() {
                vstd::set_lib::lemma_subset_equality(live[1], live[0]);
                assert(false);
            }
        }
        let tail = live.drop_first();
        assert forall|i: int| 0 <= i < k - 1 implies #[trigger] pass_shrinks(tail, i) by {
            assert(pass_shrinks(live, i + 1));
            assert(tail[i] == live[i + 1]);
            assert(tail[i + 1] == live[i + 2]);
        }
        assert(tail[0].len() <= (k - 1) as nat);
        lemma_fixpoint_bound(tail, (k - 1) as nat);
        assert(tail[(k - 1) as int] == live[k as int]);
    }
}

} // verus!

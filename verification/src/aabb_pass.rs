//! The integer control of one collision-AABB pass: the reset on an invalid
//! request or a new target, the counting of instances and children, and
//! the retry policy of failed children. The caller tests attachment,
//! captures baselines, computes and writes the boxes (float work) and hands
//! each child's outcome to the pass.
use crate::retry::{
    AabbRetryState, ClothInstanceAabbRetry, ClothInstanceAabbScaleResult, RejectionStage,
};
use vstd::prelude::*;

verus! {

/// The boxes one child may have written.
pub const MAX_AABBS_PER_CHILD: usize = 3;

/// The `f32` fields of one box: minimum and maximum corners.
pub const FIELDS_PER_AABB: usize = 6;

/// What became of one valid child of an instance.
#[derive(Clone, Copy, Debug, PartialEq, Eq, Structural)]
pub enum ChildOutcome {
    /// Its instance is not yet at the requested scale; `transforms` tells
    /// whether it has readable transform entries.
    OtherGeneration { transforms: bool },
    /// Its particles are not attached to the live instance root.
    Detached,
    /// It has no collision-particle box of its own; the native box serves.
    NativeManaged,
    /// No baseline could be captured for it.
    BaselineFailed,
    /// Its target boxes could not be computed; `captured` tells whether its
    /// baseline was captured in this pass.
    TargetFailed { captured: bool },
    /// Its boxes already match the targets.
    AlreadyCurrent { captured: bool },
    /// Writing its boxes was refused.
    WriteFailed { captured: bool },
    /// `aabbs` boxes were written.
    Written { captured: bool, aabbs: usize },
}

/// The state of the collision-AABB pass of one target.
pub struct AabbPassState {
    pub retries: AabbRetryState,
    pub result: ClothInstanceAabbScaleResult,
    pub unreadable_instances: usize,
    pub live: Vec<ClothInstanceAabbRetry>,
}

/// The counters of a pass are consistent: six fields per written box,
/// every rejected child counted under one kind (or as an unreadable
/// instance), deferrals among the rejections, and active children among
/// the children, each active child counted at most once as native, current
/// or rejected.
pub open spec fn aabb_counters_wf(r: ClothInstanceAabbScaleResult, unreadable: usize) -> bool {
    &&& r.fields_written == FIELDS_PER_AABB * r.aabbs_written
    &&& r.rejected_children == r.baseline_rejected_children + r.target_rejected_children
        + r.write_rejected_children + unreadable
    &&& r.deferred_rejected_children <= r.baseline_rejected_children + r.target_rejected_children
        + r.write_rejected_children
    &&& r.active_children + r.non_target_generation_children + r.detached_children <= r.children
    &&& r.captured_children <= r.active_children
    &&& r.native_managed_children + r.already_current + r.baseline_rejected_children
        + r.target_rejected_children + r.write_rejected_children <= r.active_children
}

/// Every counter has room for one more child.
pub open spec fn aabb_counters_room(r: ClothInstanceAabbScaleResult, unreadable: usize) -> bool {
    &&& r.instances < usize::MAX
    &&& r.children < usize::MAX
    &&& r.rejected_children < usize::MAX
    &&& unreadable < usize::MAX
    &&& r.aabbs_written + MAX_AABBS_PER_CHILD <= usize::MAX
    &&& r.fields_written + FIELDS_PER_AABB * MAX_AABBS_PER_CHILD <= usize::MAX
}

/// A result with every counter zero and no flag set.
pub open spec fn zero_aabb_result() -> ClothInstanceAabbScaleResult {
    ClothInstanceAabbScaleResult {
        topology_readable: false,
        instances: 0,
        children: 0,
        active_children: 0,
        captured_children: 0,
        dropped_children: 0,
        aabbs_written: 0,
        fields_written: 0,
        already_current: 0,
        non_target_generation_children: 0,
        detached_children: 0,
        native_managed_children: 0,
        rejected_children: 0,
        baseline_rejected_children: 0,
        target_rejected_children: 0,
        write_rejected_children: 0,
        deferred_rejected_children: 0,
        work_pending: false,
    }
}

fn empty_aabb_result() -> (r: ClothInstanceAabbScaleResult)
    ensures
        r == zero_aabb_result(),
{
    ClothInstanceAabbScaleResult {
        topology_readable: false,
        instances: 0,
        children: 0,
        active_children: 0,
        captured_children: 0,
        dropped_children: 0,
        aabbs_written: 0,
        fields_written: 0,
        already_current: 0,
        non_target_generation_children: 0,
        detached_children: 0,
        native_managed_children: 0,
        rejected_children: 0,
        baseline_rejected_children: 0,
        target_rejected_children: 0,
        write_rejected_children: 0,
        deferred_rejected_children: 0,
        work_pending: false,
    }
}

/// The rejection stage of an outcome, if it rejects the child.
pub open spec fn rejection_of(outcome: ChildOutcome) -> Option<RejectionStage> {
    match outcome {
        ChildOutcome::BaselineFailed => Some(RejectionStage::Baseline),
        ChildOutcome::TargetFailed { .. } => Some(RejectionStage::Target),
        ChildOutcome::WriteFailed { .. } => Some(RejectionStage::Write),
        _ => None,
    }
}

/// Whether an outcome resolves the child's retry.
pub open spec fn resolves(outcome: ChildOutcome) -> bool {
    match outcome {
        ChildOutcome::NativeManaged | ChildOutcome::AlreadyCurrent { .. } | ChildOutcome::Written {
            ..
        } => true,
        _ => false,
    }
}

/// Whether an outcome's child was active (attached at the requested scale).
pub open spec fn active(outcome: ChildOutcome) -> bool {
    !(outcome is OtherGeneration || outcome is Detached)
}

/// Whether an outcome captured a baseline in this pass.
pub open spec fn captured(outcome: ChildOutcome) -> bool {
    match outcome {
        ChildOutcome::TargetFailed { captured } | ChildOutcome::AlreadyCurrent { captured }
        | ChildOutcome::WriteFailed { captured } | ChildOutcome::Written { captured, .. } => captured,
        _ => false,
    }
}

/// The boxes an outcome wrote.
pub open spec fn written(outcome: ChildOutcome) -> nat {
    match outcome {
        ChildOutcome::Written { aabbs, .. } => aabbs as nat,
        _ => 0,
    }
}

fn count(b: bool) -> (n: usize)
    ensures
        n == (if b {
            1usize
        } else {
            0
        }),
{
    if b {
        1
    } else {
        0
    }
}

impl AabbPassState {
    /// No target, nothing counted.
    pub fn new() -> (s: AabbPassState)
        ensures
            s.retries.target_input == 0,
            s.retries.immediate_retries@.len() == 0,
            s.result == zero_aabb_result(),
            s.unreadable_instances == 0,
            s.live@.len() == 0,
    {
        AabbPassState {
            retries: AabbRetryState::new(),
            result: empty_aabb_result(),
            unreadable_instances: 0,
            live: Vec::new(),
        }
    }
}

/// Starts a pass. An invalid target or scale clears the state (the caller
/// drops its baselines) and returns false; a new target clears the retries
/// of the old one, and a new scale forgets the retries. Every counter
/// starts at zero.
pub fn aabb_pass_begin(state: &mut AabbPassState, target_input: usize, scale_bits: u32, scale_valid: bool) -> (proceed:
    bool)
    ensures
        proceed == (target_input != 0 && scale_valid),
        final(state).result == zero_aabb_result(),
        final(state).unreadable_instances == 0,
        final(state).live@.len() == 0,
        !proceed ==> final(state).retries.target_input == 0 && final(state).retries.immediate_retries@.len()
            == 0,
        proceed ==> final(state).retries.target_input == target_input
            && final(state).retries.last_requested_scale_bits == scale_bits,
        proceed && (old(state).retries.target_input != 0 && old(state).retries.target_input
            != target_input || old(state).retries.last_requested_scale_bits != scale_bits)
            ==> final(state).retries.immediate_retries@.len() == 0,
        proceed && !(old(state).retries.target_input != 0 && old(state).retries.target_input
            != target_input || old(state).retries.last_requested_scale_bits != scale_bits)
            ==> final(state).retries.immediate_retries@ == old(state).retries.immediate_retries@,
{
    state.result = empty_aabb_result();
    state.unreadable_instances = 0;
    state.live = Vec::new();
    if target_input == 0 || !scale_valid {
        state.retries = AabbRetryState::new();
        return false;
    }
    state.retries.begin_pass(target_input, scale_bits);
    true
}

/// Counts a valid instance; an unreadable or truncated child list rejects
/// it and leaves work pending.
pub fn aabb_instance(state: &mut AabbPassState, readable: bool)
    requires
        aabb_counters_wf(old(state).result, old(state).unreadable_instances),
        aabb_counters_room(old(state).result, old(state).unreadable_instances),
    ensures
        aabb_counters_wf(final(state).result, final(state).unreadable_instances),
        final(state).result == (if readable {
            ClothInstanceAabbScaleResult {
                instances: (old(state).result.instances + 1) as usize,
                topology_readable: true,
                ..old(state).result
            }
        } else {
            ClothInstanceAabbScaleResult {
                instances: (old(state).result.instances + 1) as usize,
                rejected_children: (old(state).result.rejected_children + 1) as usize,
                work_pending: true,
                ..old(state).result
            }
        }),
        final(state).unreadable_instances == old(state).unreadable_instances + (if readable {
            0int
        } else {
            1
        }),
        final(state).retries == old(state).retries,
        final(state).live == old(state).live,
{
    state.result.instances = state.result.instances + 1;
    if readable {
        state.result.topology_readable = true;
    } else {
        state.result.rejected_children = state.result.rejected_children + 1;
        state.result.work_pending = true;
        state.unreadable_instances = state.unreadable_instances + 1;
    }
}

/// Counts one valid child with its outcome and applies the retry policy: a
/// baseline or write failure earns one immediate retry per unresolved
/// child, a target failure waits for the audit, and a native, current or
/// written child is resolved. Every written box counts six fields.
pub fn aabb_pass_step(state: &mut AabbPassState, child: ClothInstanceAabbRetry, outcome: ChildOutcome) -> (r:
    ClothInstanceAabbScaleResult)
    requires
        aabb_counters_wf(old(state).result, old(state).unreadable_instances),
        aabb_counters_room(old(state).result, old(state).unreadable_instances),
        written(outcome) <= MAX_AABBS_PER_CHILD,
    ensures
        r == final(state).result,
        aabb_counters_wf(r, final(state).unreadable_instances),
        final(state).unreadable_instances == old(state).unreadable_instances,
        final(state).live@ == old(state).live@.push(child),
        r.children == old(state).result.children + 1,
        r.instances == old(state).result.instances,
        r.active_children == old(state).result.active_children + (if active(outcome) {
            1int
        } else {
            0
        }),
        r.captured_children == old(state).result.captured_children + (if captured(outcome) {
            1int
        } else {
            0
        }),
        r.aabbs_written == old(state).result.aabbs_written + written(outcome),
        r.fields_written == old(state).result.fields_written + FIELDS_PER_AABB * written(outcome),
        r.non_target_generation_children == old(state).result.non_target_generation_children + (
        if outcome == (ChildOutcome::OtherGeneration { transforms: true }) {
            1int
        } else {
            0
        }),
        r.detached_children == old(state).result.detached_children + (if outcome is Detached {
            1int
        } else {
            0
        }),
        r.native_managed_children == old(state).result.native_managed_children + (
        if outcome is NativeManaged {
            1int
        } else {
            0
        }),
        r.already_current == old(state).result.already_current + (if outcome is AlreadyCurrent {
            1int
        } else {
            0
        }),
        r.rejected_children == old(state).result.rejected_children + (if rejection_of(outcome)
            is Some {
            1int
        } else {
            0
        }),
        resolves(outcome) ==> final(state).retries.immediate_retries@
            == old(state).retries.immediate_retries@.filter(
            |retry: ClothInstanceAabbRetry| retry != child,
        ),
        rejection_of(outcome) is None && !resolves(outcome) ==> final(state).retries
            == old(state).retries && r.work_pending == old(state).result.work_pending,
        rejection_of(outcome) matches Some(stage) ==> {
            let retry_now = stage != RejectionStage::Target
                && !old(state).retries.immediate_retries@.contains(child);
            &&& retry_now ==> final(state).retries.immediate_retries@
                == old(state).retries.immediate_retries@.push(child) && r.work_pending
                && r.deferred_rejected_children == old(state).result.deferred_rejected_children
            &&& !retry_now ==> final(state).retries.immediate_retries@
                == old(state).retries.immediate_retries@ && r.work_pending
                == old(state).result.work_pending && r.deferred_rejected_children
                == old(state).result.deferred_rejected_children + 1
        },
        final(state).retries.target_input == old(state).retries.target_input,
        final(state).retries.last_requested_scale_bits == old(state).retries.last_requested_scale_bits,
{
    state.result.children = state.result.children + 1;
    state.live.push(child);
    match outcome {
        ChildOutcome::OtherGeneration { transforms } => {
            state.result.non_target_generation_children = state.result.non_target_generation_children
                + count(transforms);
        },
        ChildOutcome::Detached => {
            state.result.detached_children = state.result.detached_children + 1;
        },
        ChildOutcome::NativeManaged => {
            state.result.active_children = state.result.active_children + 1;
            state.result.native_managed_children = state.result.native_managed_children + 1;
            state.retries.resolve_retry(&child);
        },
        ChildOutcome::BaselineFailed => {
            state.result.active_children = state.result.active_children + 1;
            state.retries.record_rejection(child, RejectionStage::Baseline, &mut state.result);
        },
        ChildOutcome::TargetFailed { captured } => {
            state.result.active_children = state.result.active_children + 1;
            state.result.captured_children = state.result.captured_children + count(captured);
            state.retries.record_rejection(child, RejectionStage::Target, &mut state.result);
        },
        ChildOutcome::AlreadyCurrent { captured } => {
            state.result.active_children = state.result.active_children + 1;
            state.result.captured_children = state.result.captured_children + count(captured);
            state.result.already_current = state.result.already_current + 1;
            state.retries.resolve_retry(&child);
        },
        ChildOutcome::WriteFailed { captured } => {
            state.result.active_children = state.result.active_children + 1;
            state.result.captured_children = state.result.captured_children + count(captured);
            state.retries.record_rejection(child, RejectionStage::Write, &mut state.result);
        },
        ChildOutcome::Written { captured, aabbs } => {
            state.result.active_children = state.result.active_children + 1;
            state.result.captured_children = state.result.captured_children + count(captured);
            state.result.aabbs_written = state.result.aabbs_written + aabbs;
            state.result.fields_written = state.result.fields_written + aabbs * FIELDS_PER_AABB;
            state.retries.resolve_retry(&child);
        },
    }
    state.result
}

/// Ends a pass: retries of children no longer live are forgotten and the
/// baselines the caller dropped are counted.
pub fn aabb_pass_end(state: &mut AabbPassState, baselines_before: usize, baselines_after: usize) -> (r:
    ClothInstanceAabbScaleResult)
    ensures
        r == final(state).result,
        r == (ClothInstanceAabbScaleResult {
            dropped_children: if baselines_before > baselines_after {
                (baselines_before - baselines_after) as usize
            } else {
                0
            },
            ..old(state).result
        }),
        final(state).retries.immediate_retries@ == old(state).retries.immediate_retries@.filter(
            |retry: ClothInstanceAabbRetry| old(state).live@.contains(retry),
        ),
        final(state).retries.target_input == old(state).retries.target_input,
        final(state).retries.last_requested_scale_bits == old(state).retries.last_requested_scale_bits,
        final(state).live == old(state).live,
        final(state).unreadable_instances == old(state).unreadable_instances,
{
    let mut kept: Vec<ClothInstanceAabbRetry> = Vec::new();
    let mut i: usize = 0;
    while i < state.retries.immediate_retries.len()
        invariant
            0 <= i <= state.retries.immediate_retries@.len(),
            state.retries.immediate_retries@ == old(state).retries.immediate_retries@,
            state.live@ == old(state).live@,
            kept@ == old(state).retries.immediate_retries@.subrange(0, i as int).filter(
                |retry: ClothInstanceAabbRetry| old(state).live@.contains(retry),
            ),
        decreases state.retries.immediate_retries@.len() - i,
    {
        let retry = state.retries.immediate_retries[i];
        proof {
            assert(old(state).retries.immediate_retries@.subrange(0, i + 1).drop_last()
                =~= old(state).retries.immediate_retries@.subrange(0, i as int));
            reveal(Seq::filter);
        }
        if live_contains(&state.live, retry) {
            kept.push(retry);
        }
        i = i + 1;
    }
    proof {
        assert(old(state).retries.immediate_retries@.subrange(
            0,
            old(state).retries.immediate_retries@.len() as int,
        ) =~= old(state).retries.immediate_retries@);
    }
    state.retries.immediate_retries = kept;
    state.result.dropped_children = baselines_before.saturating_sub(baselines_after);
    state.result
}

fn live_contains(live: &Vec<ClothInstanceAabbRetry>, child: ClothInstanceAabbRetry) -> (r: bool)
    ensures
        r == live@.contains(child),
{
    let mut i: usize = 0;
    while i < live.len()
        invariant
            0 <= i <= live@.len(),
            forall|k: int| 0 <= k < i ==> live@[k] != child,
        decreases live@.len() - i,
    {
        if live[i].identity_matches(&child) {
            assert(live@[i as int] == child);
            return true;
        }
        i = i + 1;
    }
    false
}

} // verus!

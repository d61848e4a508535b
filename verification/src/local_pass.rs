//! The integer control of one cloth local-dimension pass, as a step
//! function from the pass state and what the caller observed to the next
//! state and what the caller does next. The caller reads the topology,
//! captures baselines and applies them; the pass decides when to restore,
//! what is counted, how many new objects may be captured (one) and how many
//! fields may be written (4096), and whether work is left.
use crate::retry::{ClothLocalScaleResult, MAX_NEW_OBJECTS_PER_PASS};
use vstd::prelude::*;

verus! {

/// Fields one pass may write.
pub const MAX_FIELDS_WRITTEN_PER_PASS: usize = 4096;

/// Where a pass stands.
#[derive(Clone, Copy, Debug, PartialEq, Eq, Structural)]
pub enum LocalPhase {
    /// No pass is running.
    Idle,
    /// The pass waits for the live topology.
    Topology,
    /// The pass removes stale objects, captures and applies.
    Work,
    /// A capture the pass allowed is under way.
    Capturing,
    /// An application the pass allowed is under way.
    Applying,
}

/// The state of the local-dimension pass of one target.
#[derive(Clone, Copy, Debug)]
pub struct LocalPassState {
    pub target_input: usize,
    pub requested_bits: u32,
    pub phase: LocalPhase,
    pub result: ClothLocalScaleResult,
    pub captures_left: usize,
    pub field_budget: usize,
    pub rejected_updates: u64,
}

/// What the caller observed.
#[derive(Debug)]
pub enum LocalPassEvent {
    /// A pass is asked for: the target, the requested scale's bits and
    /// whether that scale is a finite positive value.
    Begin { target_input: usize, scale_bits: u32, scale_valid: bool },
    /// The live topology: whether the simulation set was read whole, how
    /// many simulations it holds, and the collidables, supported shapes and
    /// unsupported shapes found, when they could be read.
    Topology { readable: bool, simulations: usize, collisions: Option<(usize, usize, usize)> },
    /// Stale objects were removed: how many were restored and how many
    /// could not be.
    StaleRemoved { restored: usize, rejected: usize },
    /// An object was skipped because its capture attempts are exhausted.
    CaptureDeferred,
    /// An object needs a capture.
    CaptureWanted,
    /// The allowed capture ended: whether it succeeded, and, when it
    /// failed, whether the object may still be retried in this epoch.
    Captured { ok: bool, retry_left: bool },
    /// A kept baseline is next to apply.
    ApplyWanted,
    /// The allowed application ended: the fields written and whether the
    /// transition completed, or `None` when it was refused.
    Applied { outcome: Option<(usize, bool)> },
    /// Every list was walked: whether some live object still needs a
    /// capture, the unsupported layouts of the kept simulations, and the
    /// applied scale bits of every kept baseline.
    End { capture_pending: bool, unsupported_layouts: usize, applied_bits: Vec<u32> },
}

/// What the caller does next.
#[derive(Clone, Copy, Debug, PartialEq, Eq)]
pub enum LocalPassAction {
    /// Restore every baseline to unit scale, forget them and report the
    /// (empty) result: the request is invalid.
    RestoreAll,
    /// Restore and forget the baselines of the previous target, then read
    /// the topology.
    RestoreThenRead,
    /// Read the live topology.
    ReadTopology,
    /// Go on with the next step of the walk.
    Continue,
    /// Capture the object.
    Capture,
    /// No capture budget is left: stop walking this list.
    StopCapturing,
    /// Apply the baseline, writing at most this many fields.
    Apply(usize),
    /// No field budget is left: stop applying.
    StopApplying,
    /// The pass is over: report the result.
    Report,
    /// The event does not fit the pass's phase; nothing changed.
    Ignore,
}

/// A result with every counter zero and no flag set.
pub open spec fn zero_result() -> ClothLocalScaleResult {
    ClothLocalScaleResult {
        topology_readable: false,
        simulations: 0,
        collidables: 0,
        supported_shapes: 0,
        unsupported_shapes: 0,
        captured_objects: 0,
        restored_objects: 0,
        fields_written: 0,
        rejected_objects: 0,
        topology_rejected_objects: 0,
        capture_rejected_objects: 0,
        apply_rejected_objects: 0,
        stale_restore_rejected_objects: 0,
        deferred_rejected_objects: 0,
        unsupported_layouts: 0,
        work_pending: false,
    }
}

fn empty_result() -> (r: ClothLocalScaleResult)
    ensures
        r == zero_result(),
{
    ClothLocalScaleResult {
        topology_readable: false,
        simulations: 0,
        collidables: 0,
        supported_shapes: 0,
        unsupported_shapes: 0,
        captured_objects: 0,
        restored_objects: 0,
        fields_written: 0,
        rejected_objects: 0,
        topology_rejected_objects: 0,
        capture_rejected_objects: 0,
        apply_rejected_objects: 0,
        stale_restore_rejected_objects: 0,
        deferred_rejected_objects: 0,
        unsupported_layouts: 0,
        work_pending: false,
    }
}

/// The state with no target and nothing counted.
pub open spec fn idle_state() -> LocalPassState {
    LocalPassState {
        target_input: 0,
        requested_bits: 0,
        phase: LocalPhase::Idle,
        result: zero_result(),
        captures_left: 0,
        field_budget: 0,
        rejected_updates: 0,
    }
}

/// Every rejected object is counted under exactly one kind.
pub open spec fn rejections_add_up(r: ClothLocalScaleResult) -> bool {
    r.rejected_objects == r.topology_rejected_objects + r.capture_rejected_objects
        + r.apply_rejected_objects + r.stale_restore_rejected_objects + r.deferred_rejected_objects
}

/// The counters and budgets of a pass are consistent: rejections add up,
/// captures made, under way and left never exceed one, and fields written
/// plus the field budget left (plus the budget of an application under
/// way) make up the pass's field budget.
pub open spec fn pass_wf(s: LocalPassState) -> bool {
    &&& rejections_add_up(s.result)
    &&& s.result.captured_objects + s.captures_left + (if s.phase == LocalPhase::Capturing {
        1int
    } else {
        0
    }) <= MAX_NEW_OBJECTS_PER_PASS
    &&& s.result.fields_written + s.field_budget <= MAX_FIELDS_WRITTEN_PER_PASS
}

/// One more, saturating.
pub open spec fn sat_add(a: u64, b: usize) -> u64 {
    if a + b > u64::MAX {
        u64::MAX
    } else {
        (a + b) as u64
    }
}

/// Some applied scale differs from the requested one.
pub open spec fn some_not_at(applied: Seq<u32>, bits: u32) -> bool {
    exists|k: int| 0 <= k < applied.len() && applied[k] != bits
}

/// The next state and action of a pass.
pub open spec fn spec_local_step(s: LocalPassState, e: LocalPassEvent) -> (LocalPassState, LocalPassAction) {
    match e {
        LocalPassEvent::Begin { target_input, scale_bits, scale_valid } => if target_input == 0
            || !scale_valid {
            (idle_state(), LocalPassAction::RestoreAll)
        } else {
            let restart = s.target_input != 0 && s.target_input != target_input;
            let base = if restart {
                idle_state()
            } else {
                s
            };
            (
                LocalPassState {
                    target_input,
                    requested_bits: scale_bits,
                    phase: LocalPhase::Topology,
                    result: zero_result(),
                    captures_left: MAX_NEW_OBJECTS_PER_PASS,
                    field_budget: MAX_FIELDS_WRITTEN_PER_PASS,
                    rejected_updates: base.rejected_updates,
                },
                if restart {
                    LocalPassAction::RestoreThenRead
                } else {
                    LocalPassAction::ReadTopology
                },
            )
        },
        LocalPassEvent::Topology { readable, simulations, collisions } => if s.phase
            != LocalPhase::Topology {
            (s, LocalPassAction::Ignore)
        } else if !readable {
            (
                LocalPassState {
                    phase: LocalPhase::Idle,
                    result: ClothLocalScaleResult {
                        rejected_objects: 1,
                        topology_rejected_objects: 1,
                        ..zero_result()
                    },
                    rejected_updates: sat_add(s.rejected_updates, 1),
                    ..s
                },
                LocalPassAction::Report,
            )
        } else {
            match collisions {
                None => (
                    LocalPassState {
                        phase: LocalPhase::Idle,
                        result: ClothLocalScaleResult {
                            simulations,
                            rejected_objects: 1,
                            topology_rejected_objects: 1,
                            ..zero_result()
                        },
                        rejected_updates: sat_add(s.rejected_updates, 1),
                        ..s
                    },
                    LocalPassAction::Report,
                ),
                Some((collidables, shapes, unsupported)) => (
                    LocalPassState {
                        phase: LocalPhase::Work,
                        result: ClothLocalScaleResult {
                            topology_readable: true,
                            simulations,
                            collidables,
                            supported_shapes: shapes,
                            unsupported_shapes: unsupported,
                            ..zero_result()
                        },
                        ..s
                    },
                    LocalPassAction::Continue,
                ),
            }
        },
        LocalPassEvent::StaleRemoved { restored, rejected } => if s.phase != LocalPhase::Work {
            (s, LocalPassAction::Ignore)
        } else {
            (
                LocalPassState {
                    result: ClothLocalScaleResult {
                        restored_objects: (s.result.restored_objects + restored) as usize,
                        rejected_objects: (s.result.rejected_objects + rejected) as usize,
                        stale_restore_rejected_objects: (s.result.stale_restore_rejected_objects
                            + rejected) as usize,
                        ..s.result
                    },
                    ..s
                },
                LocalPassAction::Continue,
            )
        },
        LocalPassEvent::CaptureDeferred => if s.phase != LocalPhase::Work {
            (s, LocalPassAction::Ignore)
        } else {
            (
                LocalPassState {
                    result: ClothLocalScaleResult {
                        rejected_objects: (s.result.rejected_objects + 1) as usize,
                        deferred_rejected_objects: (s.result.deferred_rejected_objects + 1) as usize,
                        ..s.result
                    },
                    ..s
                },
                LocalPassAction::Continue,
            )
        },
        LocalPassEvent::CaptureWanted => if s.phase != LocalPhase::Work {
            (s, LocalPassAction::Ignore)
        } else if s.captures_left == 0 {
            (s, LocalPassAction::StopCapturing)
        } else {
            (
                LocalPassState {
                    phase: LocalPhase::Capturing,
                    captures_left: (s.captures_left - 1) as usize,
                    ..s
                },
                LocalPassAction::Capture,
            )
        },
        LocalPassEvent::Captured { ok, retry_left } => if s.phase != LocalPhase::Capturing {
            (s, LocalPassAction::Ignore)
        } else if ok {
            (
                LocalPassState {
                    phase: LocalPhase::Work,
                    result: ClothLocalScaleResult {
                        captured_objects: (s.result.captured_objects + 1) as usize,
                        ..s.result
                    },
                    ..s
                },
                LocalPassAction::Continue,
            )
        } else {
            (
                LocalPassState {
                    phase: LocalPhase::Work,
                    result: ClothLocalScaleResult {
                        rejected_objects: (s.result.rejected_objects + 1) as usize,
                        capture_rejected_objects: (s.result.capture_rejected_objects + 1) as usize,
                        work_pending: s.result.work_pending || retry_left,
                        ..s.result
                    },
                    ..s
                },
                LocalPassAction::Continue,
            )
        },
        LocalPassEvent::ApplyWanted => if s.phase != LocalPhase::Work {
            (s, LocalPassAction::Ignore)
        } else if s.field_budget == 0 {
            (
                LocalPassState {
                    result: ClothLocalScaleResult { work_pending: true, ..s.result },
                    ..s
                },
                LocalPassAction::StopApplying,
            )
        } else {
            (LocalPassState { phase: LocalPhase::Applying, ..s }, LocalPassAction::Apply(s.field_budget))
        },
        LocalPassEvent::Applied { outcome } => if s.phase != LocalPhase::Applying {
            (s, LocalPassAction::Ignore)
        } else {
            match outcome {
                Some((writes, complete)) => (
                    LocalPassState {
                        phase: LocalPhase::Work,
                        result: ClothLocalScaleResult {
                            fields_written: (s.result.fields_written + writes) as usize,
                            work_pending: s.result.work_pending || !complete,
                            ..s.result
                        },
                        field_budget: (s.field_budget - writes) as usize,
                        ..s
                    },
                    LocalPassAction::Continue,
                ),
                None => (
                    LocalPassState {
                        phase: LocalPhase::Work,
                        result: ClothLocalScaleResult {
                            rejected_objects: (s.result.rejected_objects + 1) as usize,
                            apply_rejected_objects: (s.result.apply_rejected_objects + 1) as usize,
                            ..s.result
                        },
                        ..s
                    },
                    LocalPassAction::Continue,
                ),
            }
        },
        LocalPassEvent::End { capture_pending, unsupported_layouts, applied_bits } => if s.phase
            != LocalPhase::Work {
            (s, LocalPassAction::Ignore)
        } else {
            (
                LocalPassState {
                    phase: LocalPhase::Idle,
                    result: ClothLocalScaleResult {
                        unsupported_layouts,
                        work_pending: s.result.work_pending || capture_pending || some_not_at(
                            applied_bits@,
                            s.requested_bits,
                        ),
                        ..s.result
                    },
                    rejected_updates: if s.result.rejected_objects > 0 {
                        sat_add(s.rejected_updates, s.result.rejected_objects)
                    } else {
                        s.rejected_updates
                    },
                    ..s
                },
                LocalPassAction::Report,
            )
        },
    }
}

/// Counters an event adds to fit in a `usize`.
pub open spec fn event_fits(s: LocalPassState, e: LocalPassEvent) -> bool {
    match e {
        LocalPassEvent::StaleRemoved { restored, rejected } => s.result.restored_objects + restored
            <= usize::MAX && s.result.rejected_objects + rejected <= usize::MAX
            && s.result.stale_restore_rejected_objects + rejected <= usize::MAX,
        LocalPassEvent::CaptureDeferred => s.result.rejected_objects < usize::MAX
            && s.result.deferred_rejected_objects < usize::MAX,
        LocalPassEvent::Captured { .. } => s.result.rejected_objects < usize::MAX
            && s.result.capture_rejected_objects < usize::MAX,
        LocalPassEvent::Applied { outcome } => s.result.rejected_objects < usize::MAX
            && s.result.apply_rejected_objects < usize::MAX && match outcome {
            Some((writes, _)) => s.phase != LocalPhase::Applying || writes <= s.field_budget,
            None => true,
        },
        _ => true,
    }
}

fn some_not_at_exec(applied: &Vec<u32>, bits: u32) -> (r: bool)
    ensures
        r == some_not_at(applied@, bits),
{
    let mut i: usize = 0;
    while i < applied.len()
        invariant
            0 <= i <= applied@.len(),
            forall|k: int| 0 <= k < i ==> applied@[k] == bits,
        decreases applied@.len() - i,
    {
        if applied[i] != bits {
            return true;
        }
        i = i + 1;
    }
    false
}

/// One step of a local-dimension pass. An invalid target or scale resets
/// the pass (and the caller restores every baseline); a new target restarts
/// it. An unreadable topology rejects the pass at once. At most one new
/// object is captured and at most 4096 fields are written per pass; an
/// application may write at most the field budget it was allowed. At the
/// end, work is pending when a capture, a transition or an earlier step left
/// work, so a pass without pending work leaves every kept baseline at the
/// requested scale.
pub fn local_pass_step(state: &mut LocalPassState, event: LocalPassEvent) -> (action: LocalPassAction)
    requires
        pass_wf(*old(state)),
        event_fits(*old(state), event),
    ensures
        (*final(state), action) == spec_local_step(*old(state), event),
        pass_wf(*final(state)),
        final(state).result.captured_objects <= MAX_NEW_OBJECTS_PER_PASS,
        final(state).result.fields_written <= MAX_FIELDS_WRITTEN_PER_PASS,
        action == LocalPassAction::Report && final(state).result.topology_readable
            && !final(state).result.work_pending ==> (event matches LocalPassEvent::End {
            applied_bits,
            ..
        } ==> forall|k: int|
            0 <= k < applied_bits@.len() ==> #[trigger] applied_bits@[k] == final(state).requested_bits),
{
    let s = *state;
    match event {
        LocalPassEvent::Begin { target_input, scale_bits, scale_valid } => {
            if target_input == 0 || !scale_valid {
                *state = LocalPassState {
                    target_input: 0,
                    requested_bits: 0,
                    phase: LocalPhase::Idle,
                    result: empty_result(),
                    captures_left: 0,
                    field_budget: 0,
                    rejected_updates: 0,
                };
                return LocalPassAction::RestoreAll;
            }
            let restart = s.target_input != 0 && s.target_input != target_input;
            *state = LocalPassState {
                target_input,
                requested_bits: scale_bits,
                phase: LocalPhase::Topology,
                result: empty_result(),
                captures_left: MAX_NEW_OBJECTS_PER_PASS,
                field_budget: MAX_FIELDS_WRITTEN_PER_PASS,
                rejected_updates: if restart {
                    0
                } else {
                    s.rejected_updates
                },
            };
            if restart {
                LocalPassAction::RestoreThenRead
            } else {
                LocalPassAction::ReadTopology
            }
        },
        LocalPassEvent::Topology { readable, simulations, collisions } => {
            if s.phase != LocalPhase::Topology {
                return LocalPassAction::Ignore;
            }
            if !readable {
                let mut r = empty_result();
                r.rejected_objects = 1;
                r.topology_rejected_objects = 1;
                state.phase = LocalPhase::Idle;
                state.result = r;
                state.rejected_updates = s.rejected_updates.saturating_add(1);
                return LocalPassAction::Report;
            }
            match collisions {
                None => {
                    let mut r = empty_result();
                    r.simulations = simulations;
                    r.rejected_objects = 1;
                    r.topology_rejected_objects = 1;
                    state.phase = LocalPhase::Idle;
                    state.result = r;
                    state.rejected_updates = s.rejected_updates.saturating_add(1);
                    LocalPassAction::Report
                },
                Some((collidables, shapes, unsupported)) => {
                    let mut r = empty_result();
                    r.topology_readable = true;
                    r.simulations = simulations;
                    r.collidables = collidables;
                    r.supported_shapes = shapes;
                    r.unsupported_shapes = unsupported;
                    state.phase = LocalPhase::Work;
                    state.result = r;
                    LocalPassAction::Continue
                },
            }
        },
        LocalPassEvent::StaleRemoved { restored, rejected } => {
            if s.phase != LocalPhase::Work {
                return LocalPassAction::Ignore;
            }
            state.result.restored_objects = s.result.restored_objects + restored;
            state.result.rejected_objects = s.result.rejected_objects + rejected;
            state.result.stale_restore_rejected_objects = s.result.stale_restore_rejected_objects
                + rejected;
            LocalPassAction::Continue
        },
        LocalPassEvent::CaptureDeferred => {
            if s.phase != LocalPhase::Work {
                return LocalPassAction::Ignore;
            }
            state.result.rejected_objects = s.result.rejected_objects + 1;
            state.result.deferred_rejected_objects = s.result.deferred_rejected_objects + 1;
            LocalPassAction::Continue
        },
        LocalPassEvent::CaptureWanted => {
            if s.phase != LocalPhase::Work {
                return LocalPassAction::Ignore;
            }
            if s.captures_left == 0 {
                return LocalPassAction::StopCapturing;
            }
            state.phase = LocalPhase::Capturing;
            state.captures_left = s.captures_left - 1;
            LocalPassAction::Capture
        },
        LocalPassEvent::Captured { ok, retry_left } => {
            if s.phase != LocalPhase::Capturing {
                return LocalPassAction::Ignore;
            }
            state.phase = LocalPhase::Work;
            if ok {
                state.result.captured_objects = s.result.captured_objects + 1;
            } else {
                state.result.rejected_objects = s.result.rejected_objects + 1;
                state.result.capture_rejected_objects = s.result.capture_rejected_objects + 1;
                state.result.work_pending = s.result.work_pending || retry_left;
            }
            LocalPassAction::Continue
        },
        LocalPassEvent::ApplyWanted => {
            if s.phase != LocalPhase::Work {
                return LocalPassAction::Ignore;
            }
            if s.field_budget == 0 {
                state.result.work_pending = true;
                return LocalPassAction::StopApplying;
            }
            state.phase = LocalPhase::Applying;
            LocalPassAction::Apply(s.field_budget)
        },
        LocalPassEvent::Applied { outcome } => {
            if s.phase != LocalPhase::Applying {
                return LocalPassAction::Ignore;
            }
            state.phase = LocalPhase::Work;
            match outcome {
                Some((writes, complete)) => {
                    state.result.fields_written = s.result.fields_written + writes;
                    state.result.work_pending = s.result.work_pending || !complete;
                    state.field_budget = s.field_budget - writes;
                },
                None => {
                    state.result.rejected_objects = s.result.rejected_objects + 1;
                    state.result.apply_rejected_objects = s.result.apply_rejected_objects + 1;
                },
            }
            LocalPassAction::Continue
        },
        LocalPassEvent::End { capture_pending, unsupported_layouts, applied_bits } => {
            if s.phase != LocalPhase::Work {
                return LocalPassAction::Ignore;
            }
            let stale = some_not_at_exec(&applied_bits, s.requested_bits);
            state.phase = LocalPhase::Idle;
            state.result.unsupported_layouts = unsupported_layouts;
            state.result.work_pending = s.result.work_pending || capture_pending || stale;
            if s.result.rejected_objects > 0 {
                state.rejected_updates = s.rejected_updates.saturating_add(
                    s.result.rejected_objects as u64,
                );
            }
            LocalPassAction::Report
        },
    }
}

/// A new pass starts with nothing counted, the whole capture and field
/// budgets, and the requested scale; an invalid request forgets everything.
pub proof fn begin_resets_the_pass(s: LocalPassState, target_input: usize, scale_bits: u32, scale_valid: bool)
    ensures
        ({
            let (t, a) = spec_local_step(
                s,
                LocalPassEvent::Begin { target_input, scale_bits, scale_valid },
            );
            &&& (target_input == 0 || !scale_valid) ==> t == idle_state() && a == LocalPassAction::RestoreAll
            &&& !(target_input == 0 || !scale_valid) ==> t.result == zero_result() && t.captures_left
                == MAX_NEW_OBJECTS_PER_PASS && t.field_budget == MAX_FIELDS_WRITTEN_PER_PASS
                && t.requested_bits == scale_bits && t.target_input == target_input
        }),
{
}

} // verus!

//! Ordering rules of one recorded cloth solver step: the integration and
//! constraint events it must see, the force boundaries inside each
//! integration, and the bounded log of collider witnesses.
//!
//! Copies of engine memory are made by the caller; this state machine decides
//! when a copy may start and what its outcome does to the step. The first
//! failure of a step is the one that is kept.
use vstd::prelude::*;

verus! {

/// Events one step may record at most.
pub const EVENTS: usize = 20;
/// Collider witnesses one step may record at most.
pub const WITNESSES: usize = 64;
/// Integration substeps a complete step has.
pub const SUBSTEPS: usize = 2;
/// Events of one substep: the integration and six constraint stages.
pub const SUBSTEP_EVENTS: usize = 7;

/// State of a step: the first three are not failures.
#[derive(Clone, Copy, Debug, PartialEq, Eq, Structural)]
pub enum StepError {
    Clear,
    NotReached,
    AwaitingSimulate,
    EventCap,
    UnexpectedNestedOrPreIntegrationEvent,
    BeforeGuard,
    MissingForceBoundary,
    AfterGuard,
    ForceWithoutIntegration,
    ForceChildChanged,
    DuplicateOrReorderedForceBoundary,
    ForceCopyGuard,
    FrameChanged,
    OuterBeforeGuard,
    OuterAfterGuard,
    SubstepCount,
    EventSequence,
    NonconsecutiveFrames,
    MeshBeforeGuard,
    MeshAfterGuard,
    MeshNotConsumedInFrame,
}

/// State of one recorded event.
#[derive(Clone, Copy, Debug, PartialEq, Eq, Structural)]
pub enum EventError {
    Clear,
    AwaitingAfter,
    BeforeGuard,
    MissingForceBoundary,
    AfterGuard,
}

/// The state of the collider witness log.
#[derive(Clone, Copy, Debug, PartialEq, Eq, Structural)]
pub enum WitnessError {
    Clear,
    Capacity,
    OutputUnreadable,
    Token,
}

/// What a collider rotation call saw, and what it wrote once it returned.
#[derive(Clone, Copy, Debug)]
pub struct Witness {
    pub collider: usize,
    pub dt_bits: u32,
    pub scale_bits: u32,
    pub target: [u32; 16],
    pub previous: [u32; 16],
    pub passed_target: [u32; 16],
    pub passed_previous: [u32; 16],
    pub applied: bool,
    pub output: Option<[u32; 8]>,
}

/// One integration or constraint event of the step.
#[derive(Clone, Copy, Debug, PartialEq, Eq, Structural)]
pub struct StepEvent {
    pub stage: usize,
    pub integration: bool,
    pub substep: usize,
    pub valid: bool,
    pub error: EventError,
    pub force_before: bool,
    pub force_after: bool,
    pub force_address: usize,
}

/// The record of one ordered simulation step: its child, its events in
/// order, its witnesses and the first error met.
pub struct OrderedStep {
    child: usize,
    error: StepError,
    events: Vec<StepEvent>,
    integrations: usize,
    open_integration: Option<usize>,
    witnesses: Vec<Witness>,
    witness_error: WitnessError,
    mesh_consumer: Option<usize>,
}

/// The model of an ordered step.
pub struct StepView {
    pub child: usize,
    pub error: StepError,
    pub events: Seq<StepEvent>,
    pub integrations: nat,
    pub open_integration: Option<usize>,
    pub witnesses: Seq<Witness>,
    pub witness_error: WitnessError,
    pub mesh_consumer: Option<usize>,
}

impl View for OrderedStep {
    type V = StepView;

    closed spec fn view(&self) -> StepView {
        StepView {
            child: self.child,
            error: self.error,
            events: self.events@,
            integrations: self.integrations as nat,
            open_integration: self.open_integration,
            witnesses: self.witnesses@,
            witness_error: self.witness_error,
            mesh_consumer: self.mesh_consumer,
        }
    }
}

/// A step has failed once its state is anything but clear, not reached or
/// awaiting the solver.
pub open spec fn is_failure(e: StepError) -> bool {
    !(e == StepError::Clear || e == StepError::NotReached || e == StepError::AwaitingSimulate)
}

/// The error a step keeps after `error` is reported.
pub open spec fn after_failure(current: StepError, error: StepError) -> StepError {
    if is_failure(current) {
        current
    } else {
        error
    }
}

/// The stage expected at position `k` of a substep.
pub open spec fn order_stage(k: int) -> usize {
    if k == 0 {
        0
    } else if k == 1 {
        4
    } else if k == 2 {
        6
    } else if k == 3 {
        1
    } else if k == 4 {
        5
    } else if k == 5 {
        3
    } else {
        7
    }
}

/// Event `i` is the one a complete step has at that place.
pub open spec fn event_in_order(e: StepEvent, i: int) -> bool {
    &&& e.stage == order_stage(i % SUBSTEP_EVENTS as int)
    &&& e.integration == (i % SUBSTEP_EVENTS as int == 0)
    &&& e.substep == i / SUBSTEP_EVENTS as int
    &&& e.valid
}

/// Two substeps, each an integration followed by the six constraint stages in
/// native order, every event valid.
pub open spec fn spec_sequence_complete(events: Seq<StepEvent>) -> bool {
    &&& events.len() == SUBSTEPS * SUBSTEP_EVENTS
    &&& forall|i: int| 0 <= i < events.len() ==> event_in_order(#[trigger] events[i], i)
}

/// Whether a new event may be opened, and which failure refuses it if not.
pub open spec fn begin_refusal(s: StepView, child: usize, integration: bool) -> Option<
    StepError,
> {
    if is_failure(s.error) || child != s.child {
        None
    } else if s.events.len() == EVENTS {
        Some(StepError::EventCap)
    } else if s.open_integration is Some || (!integration && s.integrations == 0) {
        Some(StepError::UnexpectedNestedOrPreIntegrationEvent)
    } else {
        None
    }
}

/// A step accepts a new event: it has not failed, the child matches, there
/// is room, no integration is open, and an integration comes first.
pub open spec fn begin_accepted(s: StepView, child: usize, integration: bool) -> bool {
    !is_failure(s.error) && child == s.child && s.events.len() < EVENTS
        && s.open_integration is None && (integration || s.integrations > 0)
}

/// The event a step opens.
pub open spec fn opened_event(s: StepView, stage: usize, integration: bool) -> StepEvent {
    StepEvent {
        stage,
        integration,
        substep: if integration {
            s.integrations as usize
        } else {
            (s.integrations - 1) as usize
        },
        valid: false,
        error: EventError::AwaitingAfter,
        force_before: false,
        force_after: false,
        force_address: 0,
    }
}

impl OrderedStep {
    /// The event count, witness count and open integration are consistent.
    pub closed spec fn wf(&self) -> bool {
        &&& self.events@.len() <= EVENTS
        &&& self.witnesses@.len() <= WITNESSES
        &&& self.integrations <= self.events@.len()
        &&& self.open_integration matches Some(id) ==> id < self.events@.len()
            && self.events@[id as int].integration
        &&& forall|i: int|
            0 <= i < self.events@.len() ==> (#[trigger] self.events@[i]).substep
                < self.integrations
    }

    /// A step not reached yet, for the null child.
    pub fn new() -> (s: OrderedStep)
        ensures
            s.wf(),
            s@.child == 0,
            s@.error == StepError::NotReached,
            s@.events.len() == 0,
            s@.integrations == 0,
            s@.open_integration is None,
            s@.witnesses.len() == 0,
            s@.witness_error == WitnessError::Clear,
            s@.mesh_consumer is None,
    {
        OrderedStep {
            child: 0,
            error: StepError::NotReached,
            events: Vec::new(),
            integrations: 0,
            open_integration: None,
            witnesses: Vec::new(),
            witness_error: WitnessError::Clear,
            mesh_consumer: None,
        }
    }

    /// The child this step belongs to.
    pub fn child(&self) -> (c: usize)
        ensures
            c == self@.child,
    {
        self.child
    }

    /// The first error met, or the current state when there is none.
    pub fn error(&self) -> (e: StepError)
        ensures
            e == self@.error,
    {
        self.error
    }

    /// The number of recorded events.
    pub fn len(&self) -> (n: usize)
        ensures
            n == self@.events.len(),
    {
        self.events.len()
    }

    /// The number of integration events.
    pub fn integrations(&self) -> (n: usize)
        ensures
            n == self@.integrations,
    {
        self.integrations
    }

    /// The integration event that is still open, if any.
    pub fn open_integration(&self) -> (o: Option<usize>)
        ensures
            o == self@.open_integration,
    {
        self.open_integration
    }

    /// Event `id`, if it was recorded.
    pub fn event(&self, id: usize) -> (e: Option<StepEvent>)
        ensures
            id < self@.events.len() ==> e == Some(self@.events[id as int]),
            id >= self@.events.len() ==> e is None,
    {
        if id < self.events.len() {
            Some(self.events[id])
        } else {
            None
        }
    }

    /// The collider witnesses recorded so far.
    pub fn witnesses(&self) -> (w: &Vec<Witness>)
        ensures
            w@ == self@.witnesses,
    {
        &self.witnesses
    }

    /// The first witness error met.
    pub fn witness_error(&self) -> (e: WitnessError)
        ensures
            e == self@.witness_error,
    {
        self.witness_error
    }

    /// The constraint event that consumed the mesh, if any.
    pub fn mesh_consumer(&self) -> (c: Option<usize>)
        ensures
            c == self@.mesh_consumer,
    {
        self.mesh_consumer
    }

    /// Whether the step has failed.
    pub fn failed(&self) -> (b: bool)
        ensures
            b == is_failure(self@.error),
    {
        !(self.error == StepError::Clear || self.error == StepError::NotReached || self.error
            == StepError::AwaitingSimulate)
    }

    /// Records a failure unless the step has already failed.
    pub fn fail(&mut self, error: StepError)
        requires
            old(self).wf(),
        ensures
            final(self).wf(),
            is_failure(old(self)@.error) ==> final(self)@.error == old(self)@.error,
            final(self)@ == (StepView { error: after_failure(old(self)@.error, error), ..old(self)@ }),
    {
        if !self.failed() {
            self.error = error;
        }
    }

    /// Takes the step for `child`: it now waits for the solver.
    pub fn await_simulate(&mut self, child: usize)
        requires
            old(self).wf(),
        ensures
            final(self).wf(),
            final(self)@ == (StepView {
                child,
                error: StepError::AwaitingSimulate,
                ..old(self)@
            }),
    {
        self.child = child;
        self.error = StepError::AwaitingSimulate;
    }

    /// Starts the solver invocation: a changed frame fails the step, and a
    /// step that has not failed is now clear.
    pub fn open_capture(&mut self, frame_current: bool)
        requires
            old(self).wf(),
        ensures
            final(self).wf(),
            is_failure(old(self)@.error) ==> final(self)@.error == old(self)@.error,
            final(self)@ == (StepView {
                error: if !frame_current {
                    after_failure(old(self)@.error, StepError::FrameChanged)
                } else if is_failure(old(self)@.error) {
                    old(self)@.error
                } else {
                    StepError::Clear
                },
                ..old(self)@
            }),
    {
        if !frame_current {
            self.fail(StepError::FrameChanged);
        }
        if !self.failed() {
            self.error = StepError::Clear;
        }
    }

    /// Whether the recorded events are exactly the native order of two
    /// substeps.
    pub fn sequence_complete(&self) -> (b: bool)
        ensures
            b == spec_sequence_complete(self@.events),
    {
        let order: [usize; 7] = [0, 4, 6, 1, 5, 3, 7];
        if self.events.len() != SUBSTEPS * SUBSTEP_EVENTS {
            return false;
        }
        let mut i: usize = 0;
        while i < self.events.len()
            invariant
                self.events@.len() == SUBSTEPS * SUBSTEP_EVENTS,
                i <= self.events@.len(),
                order@ == seq![0usize, 4, 6, 1, 5, 3, 7],
                forall|j: int| 0 <= j < i ==> event_in_order(#[trigger] self.events@[j], j),
            decreases self.events@.len() - i,
        {
            let e = self.events[i];
            let k = i % SUBSTEP_EVENTS;
            assert(order@[k as int] == order_stage(k as int));
            if !(e.stage == order[k] && e.integration == (k == 0) && e.substep == i
                / SUBSTEP_EVENTS && e.valid) {
                assert(!event_in_order(self.events@[i as int], i as int));
                return false;
            }
            i = i + 1;
        }
        true
    }

    /// Ends the solver invocation: the step must hold two closed substeps in
    /// native order, and a later step must come from the next frame.
    /// Returns whether the step is complete.
    pub fn close_capture(&mut self, index: usize, consecutive_frame: bool) -> (complete: bool)
        requires
            old(self).wf(),
        ensures
            final(self).wf(),
            is_failure(old(self)@.error) ==> final(self)@.error == old(self)@.error,
            final(self)@ == (StepView {
                error: after_failure(
                    after_failure(
                        after_failure(
                            old(self)@.error,
                            if old(self)@.integrations != SUBSTEPS || old(
                                self,
                            )@.open_integration is Some {
                                StepError::SubstepCount
                            } else {
                                old(self)@.error
                            },
                        ),
                        if !spec_sequence_complete(old(self)@.events) {
                            StepError::EventSequence
                        } else {
                            old(self)@.error
                        },
                    ),
                    if index > 0 && !consecutive_frame {
                        StepError::NonconsecutiveFrames
                    } else {
                        old(self)@.error
                    },
                ),
                ..old(self)@
            }),
            complete == !is_failure(final(self)@.error),
    {
        if self.integrations != SUBSTEPS || self.open_integration.is_some() {
            self.fail(StepError::SubstepCount);
        }
        if !self.sequence_complete() {
            self.fail(StepError::EventSequence);
        }
        if index > 0 && !consecutive_frame {
            self.fail(StepError::NonconsecutiveFrames);
        }
        !self.failed()
    }

    /// Opens an event for `child` at `stage`. An event opens only on a step
    /// that has not failed, for its own child, with room left, outside an
    /// open integration, and, for a constraint stage, after an integration.
    /// A full step or a nested or early event fails the step.
    pub fn begin_event(&mut self, stage: usize, child: usize, integration: bool) -> (id: Option<
        usize,
    >)
        requires
            old(self).wf(),
        ensures
            final(self).wf(),
            is_failure(old(self)@.error) ==> final(self)@.error == old(self)@.error,
            begin_accepted(old(self)@, child, integration) ==> {
                &&& id == Some(old(self)@.events.len() as usize)
                &&& final(self)@ == (StepView {
                    events: old(self)@.events.push(opened_event(old(self)@, stage, integration)),
                    integrations: if integration {
                        old(self)@.integrations + 1
                    } else {
                        old(self)@.integrations
                    },
                    open_integration: if integration {
                        Some(old(self)@.events.len() as usize)
                    } else {
                        None
                    },
                    ..old(self)@
                })
            },
            !begin_accepted(old(self)@, child, integration) ==> {
                &&& id is None
                &&& final(self)@ == (StepView {
                    error: match begin_refusal(old(self)@, child, integration) {
                        Some(e) => after_failure(old(self)@.error, e),
                        None => old(self)@.error,
                    },
                    ..old(self)@
                })
            },
    {
        if self.failed() || child != self.child {
            return None;
        }
        if self.events.len() == EVENTS {
            self.fail(StepError::EventCap);
            return None;
        }
        if self.open_integration.is_some() || (!integration && self.integrations == 0) {
            self.fail(StepError::UnexpectedNestedOrPreIntegrationEvent);
            return None;
        }
        let id = self.events.len();
        let substep = if integration {
            self.integrations
        } else {
            self.integrations - 1
        };
        self.events.push(
            StepEvent {
                stage,
                integration,
                substep,
                valid: false,
                error: EventError::AwaitingAfter,
                force_before: false,
                force_after: false,
                force_address: 0,
            },
        );
        if integration {
            self.integrations = self.integrations + 1;
            self.open_integration = Some(id);
        }
        Some(id)
    }

    /// The outcome of the copy made when event `id` opened: a failed copy
    /// marks the event and fails the step.
    pub fn before_copied(&mut self, id: usize, ok: bool)
        requires
            old(self).wf(),
            id < old(self)@.events.len(),
        ensures
            final(self).wf(),
            is_failure(old(self)@.error) ==> final(self)@.error == old(self)@.error,
            ok ==> final(self)@ == old(self)@,
            !ok ==> final(self)@ == (StepView {
                error: after_failure(old(self)@.error, StepError::BeforeGuard),
                events: old(self)@.events.update(
                    id as int,
                    StepEvent { error: EventError::BeforeGuard, ..old(self)@.events[id as int] },
                ),
                ..old(self)@
            }),
    {
        if !ok {
            let mut e = self.events[id];
            e.error = EventError::BeforeGuard;
            self.events.set(id, e);
            self.fail(StepError::BeforeGuard);
        }
    }

    /// Closes event `id` once the native call returned. An integration
    /// closes the open integration. Returns whether the closing copy is to
    /// be made: not on a failed step, and an integration that did not see
    /// both force boundaries fails the step instead.
    pub fn end_event(&mut self, id: usize) -> (copy: bool)
        requires
            old(self).wf(),
            id < old(self)@.events.len(),
        ensures
            final(self).wf(),
            is_failure(old(self)@.error) ==> final(self)@.error == old(self)@.error,
            ({
                let e = old(self)@.events[id as int];
                let open = if e.integration {
                    None
                } else {
                    old(self)@.open_integration
                };
                if is_failure(old(self)@.error) {
                    !copy && final(self)@ == (StepView { open_integration: open, ..old(self)@ })
                } else if e.integration && !(e.force_before && e.force_after) {
                    &&& !copy
                    &&& final(self)@ == (StepView {
                        open_integration: open,
                        error: StepError::MissingForceBoundary,
                        events: old(self)@.events.update(
                            id as int,
                            StepEvent { error: EventError::MissingForceBoundary, ..e },
                        ),
                        ..old(self)@
                    })
                } else {
                    copy && final(self)@ == (StepView { open_integration: open, ..old(self)@ })
                }
            }),
    {
        let e = self.events[id];
        if e.integration {
            self.open_integration = None;
        }
        if self.failed() {
            return false;
        }
        if e.integration && !(e.force_before && e.force_after) {
            let mut marked = e;
            marked.error = EventError::MissingForceBoundary;
            self.events.set(id, marked);
            self.fail(StepError::MissingForceBoundary);
            return false;
        }
        true
    }

    /// The outcome of the closing copy of event `id`. A valid constraint
    /// event of the mesh stage with a positive strength consumed the mesh.
    pub fn after_copied(&mut self, id: usize, ok: bool, positive_strength: bool)
        requires
            old(self).wf(),
            id < old(self)@.events.len(),
        ensures
            final(self).wf(),
            is_failure(old(self)@.error) ==> final(self)@.error == old(self)@.error,
            final(self)@ == (StepView {
                events: old(self)@.events.update(
                    id as int,
                    StepEvent {
                        valid: ok,
                        error: if ok {
                            EventError::Clear
                        } else {
                            EventError::AfterGuard
                        },
                        ..old(self)@.events[id as int]
                    },
                ),
                error: if ok {
                    old(self)@.error
                } else {
                    after_failure(old(self)@.error, StepError::AfterGuard)
                },
                mesh_consumer: if ok && old(self)@.events[id as int].stage == 4
                    && positive_strength {
                    Some(id)
                } else {
                    old(self)@.mesh_consumer
                },
                ..old(self)@
            }),
    {
        let mut e = self.events[id];
        e.valid = ok;
        e.error = if ok {
            EventError::Clear
        } else {
            EventError::AfterGuard
        };
        self.events.set(id, e);
        if ok && e.stage == 4 && positive_strength {
            self.mesh_consumer = Some(id);
        }
        if !ok {
            self.fail(StepError::AfterGuard);
        }
    }

    /// A force boundary inside the open integration. Returns the event whose
    /// force copy is to be made. The boundary before comes first and once;
    /// the one after follows it once, at the same force array.
    pub fn force(&mut self, after: bool, child: usize, address: usize) -> (id: Option<usize>)
        requires
            old(self).wf(),
        ensures
            final(self).wf(),
            is_failure(old(self)@.error) ==> final(self)@.error == old(self)@.error,
            is_failure(old(self)@.error) ==> id is None && final(self)@ == old(self)@,
            id matches Some(i) ==> i < final(self)@.events.len(),
            !is_failure(old(self)@.error) ==> match old(self)@.open_integration {
                None => id is None && final(self)@ == (StepView {
                    error: StepError::ForceWithoutIntegration,
                    ..old(self)@
                }),
                Some(open) => if child != old(self)@.child {
                    id is None && final(self)@ == (StepView {
                        error: StepError::ForceChildChanged,
                        ..old(self)@
                    })
                } else {
                    let e = old(self)@.events[open as int];
                    if (!after && e.force_before) || (after && (!e.force_before || e.force_after
                        || address != e.force_address)) {
                        id is None && final(self)@ == (StepView {
                            error: StepError::DuplicateOrReorderedForceBoundary,
                            ..old(self)@
                        })
                    } else {
                        id == Some(open) && final(self)@ == old(self)@
                    }
                },
            },
    {
        if self.failed() {
            return None;
        }
        let open = match self.open_integration {
            Some(open) => open,
            None => {
                self.fail(StepError::ForceWithoutIntegration);
                return None;
            },
        };
        if child != self.child {
            self.fail(StepError::ForceChildChanged);
            return None;
        }
        let e = self.events[open];
        if (!after && e.force_before) || (after && (!e.force_before || e.force_after || address
            != e.force_address)) {
            self.fail(StepError::DuplicateOrReorderedForceBoundary);
            return None;
        }
        Some(open)
    }

    /// The outcome of a force copy into event `id`: a failed copy fails the
    /// step; otherwise the boundary is recorded, with the force array for
    /// the boundary before.
    pub fn force_copied(&mut self, id: usize, after: bool, address: usize, ok: bool)
        requires
            old(self).wf(),
            id < old(self)@.events.len(),
        ensures
            final(self).wf(),
            is_failure(old(self)@.error) ==> final(self)@.error == old(self)@.error,
            !ok ==> final(self)@ == (StepView {
                error: after_failure(old(self)@.error, StepError::ForceCopyGuard),
                ..old(self)@
            }),
            ok && after ==> final(self)@ == (StepView {
                events: old(self)@.events.update(
                    id as int,
                    StepEvent { force_after: true, ..old(self)@.events[id as int] },
                ),
                ..old(self)@
            }),
            ok && !after ==> final(self)@ == (StepView {
                events: old(self)@.events.update(
                    id as int,
                    StepEvent {
                        force_before: true,
                        force_address: address,
                        ..old(self)@.events[id as int]
                    },
                ),
                ..old(self)@
            }),
    {
        if !ok {
            self.fail(StepError::ForceCopyGuard);
        } else {
            let mut e = self.events[id];
            if after {
                e.force_after = true;
            } else {
                e.force_before = true;
                e.force_address = address;
            }
            self.events.set(id, e);
        }
    }
}

/// The view of the active step, if any.
pub open spec fn active_view(active: Option<OrderedStep>) -> Option<StepView> {
    match active {
        Some(s) => Some(s@),
        None => None,
    }
}

/// Records a collider witness on the active step of `child`. Returns the
/// witness's token, or `None` when no step of that child is active or the
/// log is full; a full log is marked and never fails the step.
pub fn collider_velocity_begin(active: &mut Option<OrderedStep>, child: usize, witness: Witness) -> (token:
    Option<usize>)
    requires
        *old(active) matches Some(s) ==> s.wf(),
    ensures
        *final(active) matches Some(s) ==> s.wf(),
        match *old(active) {
            None => token is None && *final(active) is None,
            Some(s) => if s@.child != child {
                token is None && active_view(*final(active)) == Some(s@)
            } else if s@.witnesses.len() == WITNESSES {
                token is None && active_view(*final(active)) == Some(StepView {
                    witness_error: WitnessError::Capacity,
                    ..s@
                })
            } else {
                token == Some(s@.witnesses.len() as usize) && active_view(*final(active)) == Some(StepView { witnesses: s@.witnesses.push(witness), ..s@ })
            },
        },
{
    match active {
        None => None,
        Some(s) => {
            if s.child != child {
                return None;
            }
            if s.witnesses.len() == WITNESSES {
                s.witness_error = WitnessError::Capacity;
                return None;
            }
            let token = s.witnesses.len();
            s.witnesses.push(witness);
            Some(token)
        },
    }
}

/// Completes the witness `token` of `child` with what the call wrote. An
/// unreadable output or an unknown token is marked on the log.
pub fn collider_velocity_end(
    active: &mut Option<OrderedStep>,
    child: usize,
    token: usize,
    output: Option<[u32; 8]>,
)
    requires
        *old(active) matches Some(s) ==> s.wf(),
    ensures
        *final(active) matches Some(s) ==> s.wf(),
        match *old(active) {
            None => *final(active) is None,
            Some(s) => if s@.child != child {
                active_view(*final(active)) == Some(s@)
            } else if token < s@.witnesses.len() {
                active_view(*final(active)) == Some(StepView {
                    witnesses: s@.witnesses.update(
                        token as int,
                        Witness { output, ..s@.witnesses[token as int] },
                    ),
                    witness_error: if output is None {
                        WitnessError::OutputUnreadable
                    } else {
                        s@.witness_error
                    },
                    ..s@
                })
            } else {
                active_view(*final(active)) == Some(StepView {
                    witness_error: WitnessError::Token,
                    ..s@
                })
            },
        },
{
    match active {
        None => {},
        Some(s) => {
            if s.child == child {
                if token < s.witnesses.len() {
                    let mut w = s.witnesses[token];
                    w.output = output;
                    s.witnesses.set(token, w);
                    if output.is_none() {
                        s.witness_error = WitnessError::OutputUnreadable;
                    }
                } else {
                    s.witness_error = WitnessError::Token;
                }
            }
        },
    }
}

/// Once a step has failed, no operation changes its error: the first
/// failure is the one reported.
pub proof fn first_failure_is_kept(current: StepError, error: StepError)
    requires
        is_failure(current),
    ensures
        after_failure(current, error) == current,
{
}

} // verus!

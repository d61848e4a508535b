use er_character_scale::ordered_step::{
    collider_velocity_begin, collider_velocity_end, OrderedStep, StepError, Witness,
    WitnessError,
};

fn step_for(child: usize) -> OrderedStep {
    let mut step = OrderedStep::new();
    step.await_simulate(child);
    step.open_capture(true);
    step
}

#[test]
fn collider_witness_is_owned_bounded_and_never_stops_solver_capture() {
    let witness = Witness {
        collider: 123,
        dt_bits: 0.02f32.to_bits(),
        scale_bits: 0.5f32.to_bits(),
        target: [1; 16],
        previous: [2; 16],
        passed_target: [3; 16],
        passed_previous: [4; 16],
        applied: true,
        output: None,
    };
    let mut active: Option<OrderedStep> = None;
    assert!(collider_velocity_begin(&mut active, 9, witness).is_none());
    let step = step_for(9);
    assert_eq!(step.error(), StepError::Clear);
    active = Some(step);
    assert!(collider_velocity_begin(&mut active, 10, witness).is_none());
    for i in 0..64 {
        assert_eq!(collider_velocity_begin(&mut active, 9, witness), Some(i));
        collider_velocity_end(&mut active, 9, i, Some([i as u32; 8]));
    }
    assert!(collider_velocity_begin(&mut active, 9, witness).is_none());
    let step = active.take().unwrap();
    assert!(!step.failed());
    assert_eq!(step.witness_error(), WitnessError::Capacity);
    assert_eq!(step.witnesses().len(), 64);
    assert_eq!(step.witnesses()[63].output, Some([63; 8]));
    assert_eq!(step.witnesses()[0].target, [1; 16]);
}

fn witness() -> Witness {
    Witness {
        collider: 1,
        dt_bits: 0,
        scale_bits: 0,
        target: [0; 16],
        previous: [0; 16],
        passed_target: [0; 16],
        passed_previous: [0; 16],
        applied: false,
        output: None,
    }
}

#[test]
fn unreadable_witness_output_and_unknown_token_are_marked() {
    let mut active = Some(step_for(9));
    let token = collider_velocity_begin(&mut active, 9, witness()).unwrap();
    collider_velocity_end(&mut active, 9, token, None);
    assert_eq!(active.as_ref().unwrap().witness_error(), WitnessError::OutputUnreadable);
    collider_velocity_end(&mut active, 9, 5, Some([1; 8]));
    assert_eq!(active.as_ref().unwrap().witness_error(), WitnessError::Token);
    collider_velocity_end(&mut active, 10, token, Some([1; 8]));
    assert_eq!(active.as_ref().unwrap().witnesses()[0].output, None);
    assert!(!active.unwrap().failed());
}

/// Records one substep: the integration with both force boundaries, then the
/// six constraint stages in native order.
fn substep(step: &mut OrderedStep, child: usize) {
    let id = step.begin_event(0, child, true).unwrap();
    step.before_copied(id, true);
    assert_eq!(step.force(false, child, 0x500), Some(id));
    step.force_copied(id, false, 0x500, true);
    assert_eq!(step.force(true, child, 0x500), Some(id));
    step.force_copied(id, true, 0x500, true);
    assert!(step.end_event(id));
    step.after_copied(id, true, false);
    for stage in [4, 6, 1, 5, 3, 7] {
        let id = step.begin_event(stage, child, false).unwrap();
        step.before_copied(id, true);
        assert!(step.end_event(id));
        step.after_copied(id, true, stage == 4);
    }
}

#[test]
fn two_ordered_substeps_complete_the_step() {
    let mut step = step_for(9);
    substep(&mut step, 9);
    substep(&mut step, 9);
    assert_eq!(step.len(), 14);
    assert_eq!(step.integrations(), 2);
    assert!(step.sequence_complete());
    assert_eq!(step.mesh_consumer(), Some(8));
    assert!(step.close_capture(1, true));
    assert_eq!(step.error(), StepError::Clear);
}

#[test]
fn one_substep_or_a_skipped_frame_fails_the_step() {
    let mut step = step_for(9);
    substep(&mut step, 9);
    assert!(!step.sequence_complete());
    assert!(!step.close_capture(0, true));
    assert_eq!(step.error(), StepError::SubstepCount);
    let mut step = step_for(9);
    substep(&mut step, 9);
    substep(&mut step, 9);
    assert!(!step.close_capture(1, false));
    assert_eq!(step.error(), StepError::NonconsecutiveFrames);
}

#[test]
fn integration_without_force_boundaries_fails_and_first_error_stays() {
    let mut step = step_for(9);
    let id = step.begin_event(0, 9, true).unwrap();
    assert!(!step.end_event(id));
    assert_eq!(step.error(), StepError::MissingForceBoundary);
    assert_eq!(step.open_integration(), None);
    step.fail(StepError::AfterGuard);
    assert_eq!(step.error(), StepError::MissingForceBoundary);
    assert!(step.begin_event(0, 9, true).is_none());
}

#[test]
fn duplicate_force_boundary_fails() {
    let mut step = step_for(9);
    let id = step.begin_event(0, 9, true).unwrap();
    assert_eq!(step.force(false, 9, 0x500), Some(id));
    step.force_copied(id, false, 0x500, true);
    assert_eq!(step.force(false, 9, 0x500), None);
    assert_eq!(step.error(), StepError::DuplicateOrReorderedForceBoundary);
}

#[test]
fn force_outside_integration_or_for_another_child_fails() {
    let mut step = step_for(9);
    assert_eq!(step.force(false, 9, 0x500), None);
    assert_eq!(step.error(), StepError::ForceWithoutIntegration);
    let mut step = step_for(9);
    step.begin_event(0, 9, true).unwrap();
    assert_eq!(step.force(false, 8, 0x500), None);
    assert_eq!(step.error(), StepError::ForceChildChanged);
    let mut step = step_for(9);
    let id = step.begin_event(0, 9, true).unwrap();
    step.force_copied(id, false, 0x500, true);
    assert_eq!(step.force(true, 9, 0x600), None);
    assert_eq!(step.error(), StepError::DuplicateOrReorderedForceBoundary);
}

#[test]
fn constraint_before_integration_and_nested_events_fail() {
    let mut step = step_for(9);
    assert!(step.begin_event(4, 9, false).is_none());
    assert_eq!(step.error(), StepError::UnexpectedNestedOrPreIntegrationEvent);
    let mut step = step_for(9);
    step.begin_event(0, 9, true).unwrap();
    assert!(step.begin_event(4, 9, false).is_none());
    assert_eq!(step.error(), StepError::UnexpectedNestedOrPreIntegrationEvent);
    let mut step = step_for(9);
    assert!(step.begin_event(0, 8, true).is_none());
    assert_eq!(step.error(), StepError::Clear);
}

#[test]
fn event_cap_fails_the_step() {
    let mut step = step_for(9);
    for _ in 0..20 {
        let id = step.begin_event(0, 9, true).unwrap();
        step.force_copied(id, false, 1, true);
        step.force_copied(id, true, 1, true);
        assert!(step.end_event(id));
    }
    assert!(step.begin_event(0, 9, true).is_none());
    assert_eq!(step.error(), StepError::EventCap);
}

#[test]
fn failed_copies_fail_the_step() {
    let mut step = step_for(9);
    let id = step.begin_event(0, 9, true).unwrap();
    step.before_copied(id, false);
    assert_eq!(step.error(), StepError::BeforeGuard);
    let mut step = step_for(9);
    let id = step.begin_event(0, 9, true).unwrap();
    step.force_copied(id, false, 0x500, false);
    assert_eq!(step.error(), StepError::ForceCopyGuard);
    let mut step = step_for(9);
    let id = step.begin_event(0, 9, true).unwrap();
    step.force_copied(id, false, 0x500, true);
    step.force_copied(id, true, 0x500, true);
    assert!(step.end_event(id));
    step.after_copied(id, false, false);
    assert_eq!(step.error(), StepError::AfterGuard);
    assert!(!step.event(id).unwrap().valid);
}

#[test]
fn changed_frame_fails_before_capture() {
    let mut step = OrderedStep::new();
    assert_eq!(step.error(), StepError::NotReached);
    assert!(!step.failed());
    step.await_simulate(9);
    assert_eq!(step.error(), StepError::AwaitingSimulate);
    step.open_capture(false);
    assert_eq!(step.error(), StepError::FrameChanged);
    assert!(step.failed());
}

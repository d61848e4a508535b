use er_character_scale::local_pass::{
    local_pass_step, LocalPassAction, LocalPassEvent, LocalPassState, LocalPhase,
    MAX_FIELDS_WRITTEN_PER_PASS,
};
use er_character_scale::retry::ClothLocalScaleResult;

fn idle() -> LocalPassState {
    LocalPassState {
        target_input: 0,
        requested_bits: 0,
        phase: LocalPhase::Idle,
        result: ClothLocalScaleResult::default(),
        captures_left: 0,
        field_budget: 0,
        rejected_updates: 0,
    }
}

fn begin(state: &mut LocalPassState, target: usize, scale: f32) -> LocalPassAction {
    local_pass_step(
        state,
        LocalPassEvent::Begin { target_input: target, scale_bits: scale.to_bits(), scale_valid: scale.is_finite() && scale > 0.0 },
    )
}

#[test]
fn invalid_requests_reset_and_new_targets_restart() {
    let mut state = idle();
    assert_eq!(begin(&mut state, 0x100, 0.5), LocalPassAction::ReadTopology);
    assert_eq!(begin(&mut state, 0x200, 0.5), LocalPassAction::RestoreThenRead);
    assert_eq!(begin(&mut state, 0x200, f32::NAN), LocalPassAction::RestoreAll);
    assert_eq!(state.target_input, 0);
    assert_eq!(begin(&mut state, 0, 0.5), LocalPassAction::RestoreAll);
}

#[test]
fn unreadable_topology_rejects_the_pass() {
    let mut state = idle();
    begin(&mut state, 0x100, 0.5);
    let action = local_pass_step(&mut state, LocalPassEvent::Topology { readable: true, simulations: 2, collisions: None });
    assert_eq!(action, LocalPassAction::Report);
    assert_eq!((state.result.rejected_objects, state.result.topology_rejected_objects, state.result.simulations), (1, 1, 2));
    assert_eq!(state.rejected_updates, 1);
    assert_eq!(local_pass_step(&mut state, LocalPassEvent::CaptureWanted), LocalPassAction::Ignore);
}

#[test]
fn one_capture_and_the_field_budget_per_pass() {
    let mut state = idle();
    begin(&mut state, 0x100, 0.5);
    assert_eq!(
        local_pass_step(&mut state, LocalPassEvent::Topology { readable: true, simulations: 2, collisions: Some((3, 2, 1)) }),
        LocalPassAction::Continue
    );
    local_pass_step(&mut state, LocalPassEvent::StaleRemoved { restored: 1, rejected: 1 });
    local_pass_step(&mut state, LocalPassEvent::CaptureDeferred);
    assert_eq!(local_pass_step(&mut state, LocalPassEvent::CaptureWanted), LocalPassAction::Capture);
    local_pass_step(&mut state, LocalPassEvent::Captured { ok: true, retry_left: false });
    assert_eq!(local_pass_step(&mut state, LocalPassEvent::CaptureWanted), LocalPassAction::StopCapturing);
    assert_eq!(local_pass_step(&mut state, LocalPassEvent::ApplyWanted), LocalPassAction::Apply(MAX_FIELDS_WRITTEN_PER_PASS));
    local_pass_step(&mut state, LocalPassEvent::Applied { outcome: Some((4096, false)) });
    assert_eq!(local_pass_step(&mut state, LocalPassEvent::ApplyWanted), LocalPassAction::StopApplying);
    let bits = 0.5f32.to_bits();
    assert_eq!(
        local_pass_step(&mut state, LocalPassEvent::End { capture_pending: false, unsupported_layouts: 0, applied_bits: vec![bits] }),
        LocalPassAction::Report
    );
    let r = state.result;
    assert_eq!((r.captured_objects, r.fields_written, r.restored_objects), (1, 4096, 1));
    assert_eq!(r.rejected_objects, 2);
    assert_eq!(r.rejected_objects, r.stale_restore_rejected_objects + r.deferred_rejected_objects);
    assert!(r.work_pending);
    assert_eq!(state.rejected_updates, 2);
}

#[test]
fn a_pass_without_pending_work_leaves_every_baseline_at_the_request() {
    let bits = 2.0f32.to_bits();
    let mut state = idle();
    begin(&mut state, 0x100, 2.0);
    local_pass_step(&mut state, LocalPassEvent::Topology { readable: true, simulations: 1, collisions: Some((0, 0, 0)) });
    assert_eq!(local_pass_step(&mut state, LocalPassEvent::ApplyWanted), LocalPassAction::Apply(4096));
    local_pass_step(&mut state, LocalPassEvent::Applied { outcome: Some((10, true)) });
    local_pass_step(&mut state, LocalPassEvent::End { capture_pending: false, unsupported_layouts: 0, applied_bits: vec![bits, bits] });
    assert!(!state.result.work_pending);
    begin(&mut state, 0x100, 2.0);
    local_pass_step(&mut state, LocalPassEvent::Topology { readable: true, simulations: 1, collisions: Some((0, 0, 0)) });
    local_pass_step(&mut state, LocalPassEvent::End { capture_pending: false, unsupported_layouts: 0, applied_bits: vec![bits, 1.0f32.to_bits()] });
    assert!(state.result.work_pending);
}

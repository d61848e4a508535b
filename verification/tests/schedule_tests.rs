use er_character_scale::schedule::{
    should_audit_body_scale_binding, should_queue_cloth_scale_transitions,
    should_refresh_cloth_instance_aabbs, should_refresh_cloth_local_scale, BindingAudit,
    QueueTrack, RefreshTrack, BODY_SCALE_BINDING_AUDIT_INTERVAL_FRAMES,
    CLOTH_LOCAL_SCALE_AUDIT_INTERVAL_FRAMES, CLOTH_TRANSITION_QUEUE_AUDIT_INTERVAL_FRAMES,
    UNIT_SCALE_BITS,
};

#[test]
fn steady_cloth_state_does_not_repeat_the_full_topology_refresh_each_frame() {
    let target_input = 0x1234usize;
    let scale_bits = 0.5f32.to_bits();
    let generation = 7u64;

    assert!(should_refresh_cloth_local_scale(
        (0, 1.0f32.to_bits(), 0),
        0,
        false,
        (target_input, scale_bits, generation),
    ));
    assert!(!should_refresh_cloth_local_scale(
        (target_input, scale_bits, generation),
        CLOTH_LOCAL_SCALE_AUDIT_INTERVAL_FRAMES - 1,
        false,
        (target_input, scale_bits, generation),
    ));
    assert!(should_refresh_cloth_local_scale(
        (target_input, scale_bits, generation),
        CLOTH_LOCAL_SCALE_AUDIT_INTERVAL_FRAMES,
        false,
        (target_input, scale_bits, generation),
    ));
    assert!(should_refresh_cloth_local_scale(
        (target_input, scale_bits, generation),
        1,
        false,
        (target_input, 1.0f32.to_bits(), generation),
    ));
    assert!(should_refresh_cloth_local_scale(
        (target_input, scale_bits, generation),
        1,
        false,
        (target_input, scale_bits, generation + 1),
    ));
}

#[test]
fn ready_binding_uses_a_bounded_periodic_audit_instead_of_full_validation_each_frame() {
    assert!(should_audit_body_scale_binding(false, 0));
    assert!(!should_audit_body_scale_binding(true, 1));
    assert!(!should_audit_body_scale_binding(
        true,
        BODY_SCALE_BINDING_AUDIT_INTERVAL_FRAMES - 1,
    ));
    assert!(should_audit_body_scale_binding(
        true,
        BODY_SCALE_BINDING_AUDIT_INTERVAL_FRAMES,
    ));
}

#[test]
fn pending_local_scale_work_forces_the_next_budgeted_refresh() {
    assert!(should_refresh_cloth_local_scale(
        (0x1234, 0.5f32.to_bits(), 7),
        1,
        true,
        (0x1234, 0.5f32.to_bits(), 7),
    ));
}

#[test]
fn aabb_refresh_waits_for_local_dimensions_and_native_transition() {
    let previous = (0x1234usize, 1.0f32.to_bits(), 7u64);
    let current = (0x1234usize, 0.5f32.to_bits(), 7u64);

    assert!(!should_refresh_cloth_instance_aabbs(
        true, false, previous, 600, false, current,
    ));
    assert!(!should_refresh_cloth_instance_aabbs(
        false, true, previous, 600, false, current,
    ));
    assert!(should_refresh_cloth_instance_aabbs(
        false, false, previous, 600, false, current,
    ));
}

#[test]
fn cloth_transition_queue_runs_on_identity_changes_or_bounded_audits() {
    let steady = (0x1234usize, 0.5f32.to_bits(), 7u64);
    assert!(!should_queue_cloth_scale_transitions(steady, steady, false));
    assert!(should_queue_cloth_scale_transitions(steady, steady, true));
    assert!(should_queue_cloth_scale_transitions(
        steady,
        (steady.0, 1.0f32.to_bits(), steady.2),
        false,
    ));
    assert!(should_queue_cloth_scale_transitions(
        steady,
        (steady.0, steady.1, steady.2 + 1),
        false,
    ));
    assert!(!should_queue_cloth_scale_transitions(
        steady,
        (0, steady.1, steady.2 + 1),
        true,
    ));
}

#[test]
fn unit_scale_bits_are_one() {
    assert_eq!(UNIT_SCALE_BITS, 1.0f32.to_bits());
}

#[test]
fn refresh_track_commits_identity_and_waits_for_the_audit() {
    let mut track = RefreshTrack::new();
    let current = (0x1234usize, 0.5f32.to_bits(), 7u64);
    assert!(track.begin_local_frame(true, current));
    track.finish_refresh(current, true, false);
    assert_eq!(track.frames, 0);
    assert_eq!(track.refresh_calls, 1);
    for _ in 1..CLOTH_LOCAL_SCALE_AUDIT_INTERVAL_FRAMES {
        assert!(!track.begin_local_frame(true, current));
        track.skip();
    }
    assert!(track.begin_local_frame(true, current));
    assert_eq!(
        track.skipped_frames,
        u64::from(CLOTH_LOCAL_SCALE_AUDIT_INTERVAL_FRAMES - 1)
    );
    assert!(!track.begin_local_frame(false, current));
}

#[test]
fn unreadable_topology_keeps_identity_and_retries_next_frame() {
    let mut track = RefreshTrack::new();
    let current = (0x1234usize, 0.5f32.to_bits(), 7u64);
    track.finish_refresh(current, false, false);
    assert_eq!((track.last_target, track.last_scale_bits), (0, UNIT_SCALE_BITS));
    assert!(track.work_pending);
    assert_eq!(track.frames, CLOTH_LOCAL_SCALE_AUDIT_INTERVAL_FRAMES);
    assert!(track.begin_local_frame(true, (0, UNIT_SCALE_BITS, 0)));
}

#[test]
fn pending_work_keeps_the_pass_running() {
    let mut track = RefreshTrack::new();
    let current = (0x1234usize, 0.5f32.to_bits(), 7u64);
    track.finish_refresh(current, true, true);
    assert!(track.work_pending);
    assert!(track.begin_local_frame(true, current));
    track.finish_refresh(current, true, false);
    assert!(!track.begin_local_frame(true, current));
}

#[test]
fn aabb_frame_waits_for_local_work() {
    let mut track = RefreshTrack::new();
    let current = (0x1234usize, 0.5f32.to_bits(), 7u64);
    assert!(!track.begin_aabb_frame(true, true, false, current));
    assert!(!track.begin_aabb_frame(true, false, true, current));
    assert!(track.begin_aabb_frame(true, false, false, current));
}

#[test]
fn unbind_resets_the_identity_to_unit_scale() {
    let mut track = RefreshTrack::new();
    track.finish_refresh((0x10, 0.5f32.to_bits(), 3), true, false);
    track.unbind(4);
    assert_eq!(
        (track.last_target, track.last_scale_bits, track.last_generation),
        (0, UNIT_SCALE_BITS, 4)
    );
    assert_eq!(track.frames, 0);
    assert!(!track.work_pending);
}

#[test]
fn queue_track_audits_after_the_interval() {
    let mut queue = QueueTrack::new();
    let current = (0x1234usize, 0.5f32.to_bits(), 7u64);
    assert!(queue.begin_frame(true, current));
    queue.record_queued(current.0, current.1, current.2);
    for _ in 1..CLOTH_TRANSITION_QUEUE_AUDIT_INTERVAL_FRAMES {
        assert!(!queue.begin_frame(true, current));
    }
    assert!(queue.begin_frame(true, current));
    assert!(!queue.begin_frame(false, current));
    queue.unbind(8);
    assert_eq!(queue.last_target, 0);
    assert!(!queue.begin_frame(true, (0, UNIT_SCALE_BITS, 8)));
}

#[test]
fn binding_audit_revalidates_until_ready_then_periodically() {
    let mut audit = BindingAudit::new();
    assert!(audit.begin_frame());
    audit.record_bind(true);
    for _ in 1..BODY_SCALE_BINDING_AUDIT_INTERVAL_FRAMES {
        assert!(!audit.begin_frame());
    }
    assert!(audit.begin_frame());
    audit.record_bind(false);
    assert!(audit.begin_frame());
}

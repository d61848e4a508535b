use er_character_scale::aabb_pass::{
    aabb_instance, aabb_pass_begin, aabb_pass_end, aabb_pass_step, AabbPassState, ChildOutcome,
};
use er_character_scale::retry::ClothInstanceAabbRetry;

fn child(n: usize) -> ClothInstanceAabbRetry {
    ClothInstanceAabbRetry { child: n, child_vtable: 0x10, sim_data: n + 1 }
}

#[test]
fn collision_box_pass_counts_children_and_fields() {
    let mut state = AabbPassState::new();
    assert!(aabb_pass_begin(&mut state, 0x100, 0.5f32.to_bits(), true));
    aabb_instance(&mut state, false);
    aabb_instance(&mut state, true);
    aabb_pass_step(&mut state, child(1), ChildOutcome::OtherGeneration { transforms: true });
    aabb_pass_step(&mut state, child(2), ChildOutcome::Detached);
    aabb_pass_step(&mut state, child(3), ChildOutcome::Written { captured: true, aabbs: 3 });
    aabb_pass_step(&mut state, child(4), ChildOutcome::BaselineFailed);
    let r = aabb_pass_step(&mut state, child(5), ChildOutcome::TargetFailed { captured: false });
    assert_eq!((r.instances, r.children, r.active_children), (2, 5, 3));
    assert_eq!((r.aabbs_written, r.fields_written, r.captured_children), (3, 18, 1));
    assert_eq!((r.rejected_children, r.baseline_rejected_children, r.target_rejected_children), (3, 1, 1));
    assert_eq!(r.deferred_rejected_children, 1);
    assert!(r.work_pending);
    assert_eq!(state.retries.immediate_retries, vec![child(4)]);
    // A repeated baseline failure waits for the audit.
    let r = aabb_pass_step(&mut state, child(4), ChildOutcome::BaselineFailed);
    assert_eq!(r.deferred_rejected_children, 2);
    let r = aabb_pass_end(&mut state, 4, 2);
    assert_eq!(r.dropped_children, 2);
    assert_eq!(state.retries.immediate_retries, vec![child(4)]);
}

#[test]
fn invalid_requests_clear_the_collision_box_pass() {
    let mut state = AabbPassState::new();
    assert!(aabb_pass_begin(&mut state, 0x100, 1, true));
    aabb_pass_step(&mut state, child(1), ChildOutcome::WriteFailed { captured: false });
    assert_eq!(state.retries.immediate_retries.len(), 1);
    assert!(aabb_pass_begin(&mut state, 0x100, 1, true));
    assert_eq!(state.retries.immediate_retries.len(), 1);
    assert_eq!(state.result.children, 0);
    aabb_pass_step(&mut state, child(1), ChildOutcome::AlreadyCurrent { captured: false });
    assert!(state.retries.immediate_retries.is_empty());
    assert!(!aabb_pass_begin(&mut state, 0, 1, true));
    assert_eq!(state.retries.target_input, 0);
    // Retries of children that are gone are forgotten at the end.
    assert!(aabb_pass_begin(&mut state, 0x200, 1, true));
    aabb_pass_step(&mut state, child(7), ChildOutcome::WriteFailed { captured: true });
    assert!(aabb_pass_begin(&mut state, 0x200, 1, true));
    aabb_pass_end(&mut state, 0, 0);
    assert!(state.retries.immediate_retries.is_empty());
}

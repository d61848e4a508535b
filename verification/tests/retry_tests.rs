use er_character_scale::retry::{
    capture_attempt_allowed, object_capture_pending, plan_captures, record_capture_rejection,
    resolve_capture_rejection, AabbRetryState, LocalRejections, RejectedObjectCapture,
    MAX_NEW_OBJECTS_PER_PASS, ClothInstanceAabbRetry,
    ClothInstanceAabbScaleResult, RejectionStage,
};

#[test]
fn transient_capture_failure_gets_one_bounded_retry_per_epoch() {
    let mut rejected = Vec::new();

    assert!(capture_attempt_allowed(&rejected, 0x1234));
    assert!(record_capture_rejection(&mut rejected, 0x1234));
    assert!(capture_attempt_allowed(&rejected, 0x1234));

    assert!(!record_capture_rejection(&mut rejected, 0x1234));
    assert!(!capture_attempt_allowed(&rejected, 0x1234));

    resolve_capture_rejection(&mut rejected, 0x1234);
    assert!(capture_attempt_allowed(&rejected, 0x1234));
}

#[test]
fn rejections_are_counted_per_object() {
    let mut rejected = Vec::new();
    assert!(record_capture_rejection(&mut rejected, 0x10));
    assert!(!record_capture_rejection(&mut rejected, 0x10));
    assert!(capture_attempt_allowed(&rejected, 0x20));
    assert!(record_capture_rejection(&mut rejected, 0x20));
    resolve_capture_rejection(&mut rejected, 0x20);
    assert!(!capture_attempt_allowed(&rejected, 0x10));
    assert_eq!(rejected.len(), 1);
}

#[test]
fn captured_objects_are_not_pending() {
    let mut rejected = Vec::new();
    assert!(object_capture_pending(&[0x30], &rejected, 0x10));
    assert!(!object_capture_pending(&[0x10], &rejected, 0x10));
    record_capture_rejection(&mut rejected, 0x10);
    record_capture_rejection(&mut rejected, 0x10);
    assert!(!object_capture_pending(&[], &rejected, 0x10));
}

#[test]
fn unresolved_child_failures_get_at_most_one_immediate_retry() {
    let child = ClothInstanceAabbRetry::from_child(0x1000, 0x2000, 0x3000);
    let mut state = AabbRetryState::new();

    let mut first_baseline_failure = ClothInstanceAabbScaleResult::default();
    state.record_rejection(child, RejectionStage::Baseline, &mut first_baseline_failure);
    assert!(first_baseline_failure.work_pending);
    assert_eq!(first_baseline_failure.baseline_rejected_children, 1);

    let mut repeated_baseline_failure = ClothInstanceAabbScaleResult::default();
    state.record_rejection(child, RejectionStage::Baseline, &mut repeated_baseline_failure);
    assert!(!repeated_baseline_failure.work_pending);
    assert_eq!(repeated_baseline_failure.deferred_rejected_children, 1);

    state.resolve_retry(&child);
    let mut later_write_failure = ClothInstanceAabbScaleResult::default();
    state.record_rejection(child, RejectionStage::Write, &mut later_write_failure);
    assert!(later_write_failure.work_pending);
}

#[test]
fn target_calculation_failure_defers_to_periodic_audit() {
    let child = ClothInstanceAabbRetry::from_child(0x1000, 0x2000, 0x3000);
    let mut state = AabbRetryState::new();
    let mut result = ClothInstanceAabbScaleResult::default();

    state.record_rejection(child, RejectionStage::Target, &mut result);

    assert!(!result.work_pending);
    assert_eq!(result.target_rejected_children, 1);
    assert_eq!(result.deferred_rejected_children, 1);
    assert!(state.immediate_retries.is_empty());
}

#[test]
fn target_rejections_are_never_retried_and_new_scale_clears_retries() {
    let child = ClothInstanceAabbRetry::from_child(0x100, 0x200, 0x300);
    let mut state = AabbRetryState::new();
    state.begin_pass(0x1234, 0.5f32.to_bits());
    let mut result = ClothInstanceAabbScaleResult::default();
    state.record_rejection(child, RejectionStage::Target, &mut result);
    assert!(!result.work_pending);
    assert_eq!(result.target_rejected_children, 1);
    assert_eq!(result.deferred_rejected_children, 1);
    state.record_rejection(child, RejectionStage::Baseline, &mut result);
    assert_eq!(state.immediate_retries.len(), 1);
    state.begin_pass(0x1234, 0.5f32.to_bits());
    assert_eq!(state.immediate_retries.len(), 1);
    state.begin_pass(0x1234, 0.75f32.to_bits());
    assert!(state.immediate_retries.is_empty());
    assert!(child.identity_matches(&ClothInstanceAabbRetry::from_child(0x100, 0x200, 0x300)));
    assert!(!child.identity_matches(&ClothInstanceAabbRetry::from_child(0x100, 0x201, 0x300)));
}

#[test]
fn one_new_object_is_captured_per_pass_and_exhausted_ones_wait() {
    let exhausted = vec![RejectedObjectCapture { address: 0x20, attempts: 2 }];
    let walk = plan_captures(&vec![0x10, 0x20, 0x30, 0x40], &vec![0x10], &exhausted, MAX_NEW_OBJECTS_PER_PASS);
    assert_eq!(walk.attempts, vec![0x30]);
    assert_eq!(walk.deferred, 1);
    assert_eq!(walk.budget, 0);
    // The next list starts without budget: it counts deferrals until the
    // first object it could capture.
    let walk = plan_captures(&vec![0x20, 0x50, 0x20], &vec![], &exhausted, walk.budget);
    assert!(walk.attempts.is_empty());
    assert_eq!(walk.deferred, 1);
    let walk = plan_captures(&vec![0x10], &vec![0x10], &exhausted, 1);
    assert!(walk.attempts.is_empty());
    assert_eq!((walk.deferred, walk.budget), (0, 1));
}

#[test]
fn rejection_records_last_one_epoch_and_follow_live_objects() {
    let mut records = LocalRejections::new();
    assert!(records.begin_epoch((0x100, 0x3F00_0000, 1)));
    assert!(record_capture_rejection(&mut records.simulations, 0x10));
    assert!(record_capture_rejection(&mut records.collidables, 0x20));
    assert!(record_capture_rejection(&mut records.collidables, 0x21));
    assert!(!records.begin_epoch((0x100, 0x3F00_0000, 1)));
    assert_eq!(records.simulations.len(), 1);
    records.retain_live(&vec![0x10], &vec![0x21], &vec![]);
    assert_eq!(records.collidables, vec![RejectedObjectCapture { address: 0x21, attempts: 1 }]);
    assert!(records.begin_epoch((0x100, 0x3F00_0000, 2)));
    assert!(records.simulations.is_empty() && records.collidables.is_empty());
}

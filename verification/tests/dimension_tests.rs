use er_character_scale::dimension::{is_supported_shape_vtable, ApplyPlan, BudgetedStep, DimensionProgress};

/// One budgeted application, as a caller drives it: plan, start when asked,
/// then write one chunk.
fn apply(progress: &mut DimensionProgress, scale: f32, fields: usize, budget: usize) -> Option<(usize, bool)> {
    let bits = scale.to_bits();
    match progress.plan(bits, true, false) {
        ApplyPlan::Reject => return None,
        ApplyPlan::Done => return Some((0, true)),
        ApplyPlan::Start => {
            if !progress.start(bits, true) {
                return None;
            }
        }
        ApplyPlan::Continue => {}
    }
    let (_, end) = progress.next_range(fields, budget);
    Some(progress.finish_range(end, fields, bits))
}

#[test]
fn transition_applies_across_bounded_field_chunks() {
    let mut progress = DimensionProgress::new();
    assert_eq!(apply(&mut progress, 0.5, 3, 2), Some((2, false)));
    assert_eq!(progress.next_field, 2);
    assert_eq!(apply(&mut progress, 0.5, 3, 2), Some((1, true)));
    assert_eq!(progress.applied_scale_bits, 0.5f32.to_bits());
    assert_eq!(apply(&mut progress, 0.5, 3, 2), Some((0, true)));
}

#[test]
fn a_new_scale_restarts_the_pending_transition() {
    let mut progress = DimensionProgress::new();
    assert_eq!(apply(&mut progress, 0.5, 3, 2), Some((2, false)));
    assert_eq!(apply(&mut progress, 2.0, 3, 2), Some((2, false)));
    assert_eq!(progress.pending_scale_bits, 2.0f32.to_bits());
    assert_eq!(apply(&mut progress, 2.0, 3, 2), Some((1, true)));
}

#[test]
fn failed_update_blocks_non_unit_scales_until_restored() {
    let mut progress = DimensionProgress::new();
    assert_eq!(progress.plan(0.5f32.to_bits(), true, false), ApplyPlan::Start);
    assert!(!progress.start(0.5f32.to_bits(), false));
    assert!(progress.active_update_failed);
    assert_eq!(progress.plan(2.0f32.to_bits(), true, false), ApplyPlan::Reject);
    assert_eq!(progress.plan(1.0f32.to_bits(), true, false), ApplyPlan::Done);
    let mut progress = DimensionProgress::new();
    assert_eq!(apply(&mut progress, 0.5, 2, 8), Some((2, true)));
    progress.plan(2.0f32.to_bits(), true, false);
    assert!(!progress.start(2.0f32.to_bits(), false));
    assert_eq!(progress.plan(2.0f32.to_bits(), true, false), ApplyPlan::Reject);
    assert_eq!(apply(&mut progress, 1.0, 2, 8), Some((2, true)));
    assert!(!progress.active_update_failed);
    assert_eq!(apply(&mut progress, 2.0, 2, 8), Some((2, true)));
}

#[test]
fn unsupported_invalid_and_retained_requests() {
    let mut progress = DimensionProgress::new();
    assert_eq!(progress.plan(0.5f32.to_bits(), false, false), ApplyPlan::Reject);
    assert_eq!(progress.plan(1.0f32.to_bits(), true, true), ApplyPlan::Done);
    assert_eq!(progress.plan(f32::NAN.to_bits(), true, false), ApplyPlan::Start);
    assert!(!progress.start(f32::NAN.to_bits(), true));
    assert!(!progress.start(0.0f32.to_bits(), true));
    assert_eq!(progress.next_range(10, usize::MAX), (0, 10));
}

#[test]
fn supported_shapes() {
    for rva in [0x2D896D0, 0x2D7DBC8, 0x2D89D20, 0x2D84968, 0x2D7D580] {
        assert!(is_supported_shape_vtable(rva));
    }
    assert!(!is_supported_shape_vtable(0x2D8B758));
}

#[test]
fn budgeted_applications_write_bounded_chunks_and_check_only_on_start() {
    let half = 0.5f32.to_bits();
    let mut p = DimensionProgress::new();
    assert_eq!(p.begin_budgeted(half, true, false, 10, 4, || true), BudgetedStep::Write(0, 4));
    p.finish_range(4, 10, half);
    assert_eq!(
        p.begin_budgeted(half, true, false, 10, 4, || -> bool { panic!("no check while continuing") }),
        BudgetedStep::Write(4, 8)
    );
    p.finish_range(8, 10, half);
    assert_eq!(p.begin_budgeted(half, true, false, 10, 4, || true), BudgetedStep::Write(8, 10));
    assert_eq!(p.finish_range(10, 10, half), (2, true));
    assert_eq!(p.begin_budgeted(half, true, false, 10, 4, || true), BudgetedStep::Done);
    assert_eq!(p.begin_budgeted(2.0f32.to_bits(), true, false, 10, 4, || false), BudgetedStep::Reject);
    assert_eq!(p.begin_budgeted(2.0f32.to_bits(), true, false, 10, 4, || true), BudgetedStep::Reject);
    assert_eq!(p.begin_budgeted(half, false, false, 10, 4, || true), BudgetedStep::Reject);
}

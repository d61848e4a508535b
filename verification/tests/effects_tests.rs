use er_character_scale::effects::{
    clamp_scale_bits, first_matching_scale, SCALE_MAX_BITS, SCALE_MIN_BITS,
};
use std::cell::RefCell;

fn clamp_scale(scale: f32) -> f32 {
    f32::from_bits(clamp_scale_bits(scale.to_bits()))
}

const SCALE_MIN: f32 = 0.50;
const SCALE_MAX: f32 = 3.0;

#[test]
fn clamps_bad_scale_to_default() {
    assert_eq!(clamp_scale(f32::NAN), 1.0);
    assert_eq!(clamp_scale(f32::INFINITY), 1.0);
}

#[test]
fn clamps_scale_range() {
    assert_eq!(clamp_scale(0.1), SCALE_MIN);
    assert_eq!(clamp_scale(4.0), SCALE_MAX);
    assert_eq!(clamp_scale(1.2), 1.2);
}

#[test]
fn scale_effects_use_first_configured_match_without_compounding() {
    let active = [8020400, 8020401];
    assert_eq!(
        f32::from_bits(first_matching_scale(|sp_effect| active.contains(&sp_effect))),
        0.5
    );
}

#[test]
fn scale_effects_fall_through_after_higher_priority_effect_is_removed() {
    assert_eq!(
        f32::from_bits(first_matching_scale(|sp_effect| sp_effect == 8020401)),
        3.0
    );
}

#[test]
fn clamp_agrees_with_float_clamp_on_edges() {
    for scale in [
        -1.0f32, -0.0, 0.0, f32::MIN_POSITIVE, 0.49, 0.5, 0.75, 1.0, 2.999, 3.0, 3.001,
        f32::MAX, f32::NEG_INFINITY,
    ] {
        let expected = if scale.is_finite() { scale.clamp(SCALE_MIN, SCALE_MAX) } else { 1.0 };
        assert_eq!(clamp_scale(scale), expected, "{scale}");
    }
    assert_eq!(SCALE_MIN_BITS, SCALE_MIN.to_bits());
    assert_eq!(SCALE_MAX_BITS, SCALE_MAX.to_bits());
}

#[test]
fn effect_table_order_and_values() {
    let table = [
        (21202000, 1.05f32), (21202001, 1.10), (21202002, 1.15), (21202003, 1.20),
        (21202004, 1.25), (21202005, 1.30), (21202050, 0.95), (21202051, 0.90),
        (21202052, 0.85), (21202053, 0.80), (21202054, 0.75), (21202055, 0.70),
        (8020400, 0.50), (8020401, 3.00),
    ];
    for (effect, scale) in table {
        assert_eq!(first_matching_scale(|id| id == effect), scale.to_bits());
    }
    let queried = RefCell::new(Vec::new());
    assert_eq!(
        first_matching_scale(|id| {
            queried.borrow_mut().push(id);
            id == 21202001
        }),
        1.10f32.to_bits()
    );
    assert_eq!(*queried.borrow(), vec![21202000, 21202001]);
    assert_eq!(first_matching_scale(|_| false), 1.0f32.to_bits());
}

use er_character_scale::shared_fields::{
    absorb_fields, adopt_canonical, share_field_baselines, DimensionPower, FieldBaseline,
};
use std::collections::HashMap;

fn field(address: usize, value: f32, power: DimensionPower) -> FieldBaseline {
    FieldBaseline { address, baseline_bits: value.to_bits(), power, preserve_unbounded: false }
}

#[test]
fn first_offered_baseline_becomes_canonical() {
    let mut canonical = HashMap::new();
    absorb_fields(
        &mut canonical,
        &vec![
            field(0x100, 2.0, DimensionPower::Linear),
            field(0x104, 3.0, DimensionPower::Squared),
            field(0x100, 9.0, DimensionPower::Linear),
        ],
    );
    assert_eq!(canonical.len(), 2);
    assert_eq!(canonical[&0x100].baseline_bits, 2.0f32.to_bits());
    absorb_fields(&mut canonical, &vec![field(0x104, 5.0, DimensionPower::Squared)]);
    assert_eq!(canonical[&0x104].baseline_bits, 3.0f32.to_bits());
}

#[test]
fn coherent_fields_take_the_canonical_original() {
    let mut canonical = HashMap::new();
    absorb_fields(&mut canonical, &vec![field(0x100, 2.0, DimensionPower::Linear)]);
    // The second resource sees the field already scaled by the first.
    let mut fields = vec![field(0x100, 4.0, DimensionPower::Linear), field(0x200, 7.0, DimensionPower::Inverse)];
    assert!(adopt_canonical(&canonical, &mut fields));
    assert_eq!(fields[0].baseline_bits, 2.0f32.to_bits());
    assert_eq!(fields[1].baseline_bits, 7.0f32.to_bits());
}

#[test]
fn conflicting_field_semantics_change_nothing() {
    let mut canonical = HashMap::new();
    absorb_fields(&mut canonical, &vec![field(0x100, 2.0, DimensionPower::Linear)]);
    let original = vec![field(0x200, 7.0, DimensionPower::Linear), field(0x100, 4.0, DimensionPower::Squared)];
    let mut fields = original.clone();
    assert!(!share_field_baselines(&mut canonical, &mut fields));
    assert_eq!(fields, original);
    assert_eq!(canonical.len(), 1);
    let mut unbounded = vec![FieldBaseline { preserve_unbounded: true, ..field(0x100, 4.0, DimensionPower::Linear) }];
    assert!(!adopt_canonical(&canonical, &mut unbounded));
    assert_eq!(unbounded[0].baseline_bits, 4.0f32.to_bits());
}

#[test]
fn shared_resources_read_one_original_per_field() {
    let mut canonical = HashMap::new();
    let mut first = vec![field(0x100, 2.0, DimensionPower::Linear), field(0x108, 1.0, DimensionPower::InverseSquared)];
    assert!(share_field_baselines(&mut canonical, &mut first));
    let mut second = vec![field(0x108, 8.0, DimensionPower::InverseSquared), field(0x300, 6.0, DimensionPower::Squared)];
    assert!(share_field_baselines(&mut canonical, &mut second));
    assert_eq!(second[0].baseline_bits, 1.0f32.to_bits());
    assert_eq!(canonical.len(), 3);
    for f in first.iter().chain(second.iter()) {
        assert_eq!(canonical[&f.address].baseline_bits, f.baseline_bits);
    }
}

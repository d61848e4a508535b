use er_character_scale::step_json::{ordered_steps_bytes, StepRecord};

#[test]
fn only_steps_with_a_mesh_source_are_written_in_slot_order() {
    let steps = vec![
        StepRecord { mesh_source: false, members: b",\"frame\":1}".to_vec() },
        StepRecord { mesh_source: true, members: b",\"frame\":2}".to_vec() },
        StepRecord { mesh_source: true, members: b",\"frame\":3}".to_vec() },
    ];
    let bytes = ordered_steps_bytes(500, &steps);
    assert_eq!(
        String::from_utf8(bytes).unwrap(),
        ",\"ordered_steps\":{\"version\":2,\"budget_policy\":\"complete-step-measure-only\",\"start_ms\":1200,\"max_steps\":3,\"max_events\":20,\"copy_budget_us\":500,\"steps\":[{\"index\":1,\"frame\":2},{\"index\":2,\"frame\":3}]}"
    );
}

#[test]
fn no_written_step_leaves_an_empty_list() {
    let steps = vec![StepRecord { mesh_source: false, members: vec![] }];
    let text = String::from_utf8(ordered_steps_bytes(0, &steps)).unwrap();
    assert!(text.ends_with("\"copy_budget_us\":0,\"steps\":[]}"));
    let text = String::from_utf8(ordered_steps_bytes(1234567890, &vec![])).unwrap();
    assert!(text.contains("\"copy_budget_us\":1234567890,"));
}

use er_character_scale::identity::{array_span, ObjectIdentity};
use std::collections::HashMap;

#[test]
fn array_spans_are_bounded_and_readable() {
    let words = HashMap::from([(0x1040usize, 0x9000usize), (0x2040, 0)]);
    let counts = HashMap::from([(0x1048usize, 3i32), (0x2048, 0), (0x3048, -2)]);
    let read = |a: usize| words.get(&a).copied();
    let count = |a: usize| counts.get(&a).copied();
    let all = |_: usize, _: usize| true;
    assert_eq!(array_span(0x1000, 0x40, 0x48, 8, 4, &read, &count, &all), Some((0x9000, 3)));
    assert_eq!(array_span(0x1000, 0x40, 0x48, 8, 2, &read, &count, &all), None);
    assert_eq!(array_span(0x2000, 0x40, 0x48, 8, 4, &read, &count, &all), Some((0, 0)));
    assert_eq!(array_span(0x3000, 0x40, 0x48, 8, 4, &read, &count, &all), None);
    assert_eq!(array_span(0, 0x40, 0x48, 8, 4, &read, &count, &all), None);
    assert_eq!(array_span(0x1000, 0x40, 0x48, 0, 4, &read, &count, &all), None);
    let guarded = |begin: usize, bytes: usize| !(begin == 0x9000 && bytes == 24);
    assert_eq!(array_span(0x1000, 0x40, 0x48, 8, 4, &read, &count, &guarded), None);
    assert_eq!(array_span(usize::MAX - 0x10, 0x40, 0x48, 8, 4, &read, &count, &all), None);
}

#[test]
fn captured_identity_matches_until_memory_changes() {
    let mut words = HashMap::from([(0x500usize, 0x600usize), (0x1040, 0x9000)]);
    let mut counts = HashMap::from([(0x1048usize, 2i32)]);
    let all = |_: usize, _: usize| true;
    let mut identity = ObjectIdentity::new();
    {
        let read = |a: usize| words.get(&a).copied();
        let count = |a: usize| counts.get(&a).copied();
        assert_eq!(identity.capture_pointer(0x500, &read), Some(0x600));
        assert_eq!(identity.capture_pointer(0x700, &read), None);
        assert_eq!(identity.capture_array(0x1000, 0x40, 0x48, 8, 4, &read, &count, &all), Some((0x9000, 2)));
        assert_eq!(identity.pointers.len(), 1);
        assert_eq!(identity.arrays.len(), 1);
        assert!(identity.identity_matches(&read, &count, &all));
    }
    counts.insert(0x1048, 3);
    {
        let read = |a: usize| words.get(&a).copied();
        let count = |a: usize| counts.get(&a).copied();
        assert!(!identity.identity_matches(&read, &count, &all));
    }
    counts.insert(0x1048, 2);
    words.insert(0x500, 0x601);
    {
        let read = |a: usize| words.get(&a).copied();
        let count = |a: usize| counts.get(&a).copied();
        assert!(!identity.identity_matches(&read, &count, &all));
    }
}

use er_character_scale::field_spans::{all_spans_writable, place_field, refresh_field_spans, FieldSpan};
use std::cell::Cell;

fn region_of(regions: &[(usize, usize)], address: usize) -> Option<(usize, usize)> {
    regions
        .iter()
        .copied()
        .find(|&(start, end)| start <= address && address + 4 <= end)
}

#[test]
fn fields_share_the_span_of_their_region() {
    let regions = [(0x1000, 0x2000), (0x3000, 0x4000)];
    let queries = Cell::new(0);
    let region = |a: usize| {
        queries.set(queries.get() + 1);
        region_of(&regions, a)
    };
    let mut spans = Vec::new();
    assert!(place_field(&mut spans, 0x1100, true, &region));
    assert!(place_field(&mut spans, 0x1010, true, &region));
    assert!(place_field(&mut spans, 0x3ffc, true, &region));
    assert_eq!(queries.get(), 2);
    assert_eq!(
        spans,
        vec![
            FieldSpan { region_start: 0x1000, region_end: 0x2000, used_start: 0x1010, used_end: 0x1104 },
            FieldSpan { region_start: 0x3000, region_end: 0x4000, used_start: 0x3ffc, used_end: 0x4000 },
        ]
    );
    assert!(!place_field(&mut spans, 0x5000, true, &region));
    assert!(!place_field(&mut spans, usize::MAX - 2, true, &region));
    assert_eq!(spans.len(), 2);
}

#[test]
fn a_region_that_does_not_hold_the_field_is_refused() {
    let mut spans = Vec::new();
    assert!(!place_field(&mut spans, 0x1ffe, true, &|_| Some((0x1000, 0x2000))));
    assert!(spans.is_empty());
}

#[test]
fn split_regions_are_rebuilt_before_writing() {
    let fields = vec![0x1010, 0x1f00];
    let mut spans = Vec::new();
    let whole = [(0x1000, 0x2000)];
    for &field in &fields {
        assert!(place_field(&mut spans, field, true, &|a| region_of(&whole, a)));
    }
    assert_eq!(spans.len(), 1);
    // A released gap between the fields split the region: the old span is
    // no longer writable as a whole, but each field still is.
    let split = [(0x1000, 0x1800), (0x1c00, 0x2000)];
    let writable = |start: usize, len: usize| split.iter().any(|&(s, e)| s <= start && start + len <= e);
    assert!(!all_spans_writable(&spans, &writable));
    assert!(refresh_field_spans(&mut spans, &fields, &|a| region_of(&split, a), &writable));
    assert_eq!(spans.len(), 2);
    assert!(all_spans_writable(&spans, &writable));
    // A field whose page was released refuses the refresh and keeps the spans.
    let before = spans.clone();
    let none = |_: usize, _: usize| false;
    assert!(!refresh_field_spans(&mut spans, &fields, &|a| region_of(&split, a), &none));
    assert_eq!(spans, before);
}

#[test]
fn writable_spans_are_kept_without_region_queries() {
    let mut spans = vec![FieldSpan { region_start: 0x1000, region_end: 0x2000, used_start: 0x1010, used_end: 0x1020 }];
    let before = spans.clone();
    let all = |_: usize, _: usize| true;
    assert!(all_spans_writable(&spans, &all));
    assert!(all_spans_writable(&vec![], &|_: usize, _: usize| false));
    assert!(refresh_field_spans(&mut spans, &vec![0x5000], &|_: usize| -> Option<(usize, usize)> { panic!("no query") }, &all));
    assert_eq!(spans, before);
    // A field that no region holds refuses the rebuild.
    let only_first = |start: usize, _: usize| start == 0x1010;
    let mut spans = vec![
        FieldSpan { region_start: 0x1000, region_end: 0x2000, used_start: 0x1010, used_end: 0x1014 },
        FieldSpan { region_start: 0x3000, region_end: 0x4000, used_start: 0x3000, used_end: 0x3004 },
    ];
    let before = spans.clone();
    assert!(!refresh_field_spans(&mut spans, &vec![0x1010, 0x3000], &|a| if a < 0x2000 { Some((0x1000, 0x2000)) } else { None }, &only_first));
    assert_eq!(spans, before);
}

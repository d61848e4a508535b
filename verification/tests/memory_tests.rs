use er_character_scale::memory::{
    permissions, query_count, region_from_query, scoped, Cache, Region, RegionQuery, SpanPlan,
};

fn query(base: usize, size: usize, protection: u32) -> RegionQuery {
    RegionQuery { committed: true, protection, base, size }
}

#[test]
fn protection_values_map_to_read_and_write() {
    assert_eq!(permissions(0x04), (true, true));
    assert_eq!(permissions(0x02), (true, false));
    assert_eq!(permissions(0x01), (false, false));
    assert_eq!(permissions(0x104), (false, false));
    assert_eq!(permissions(0x240), (true, true));
    assert_eq!(permissions(0x10), (true, false));
}

#[test]
fn region_queries_fail_closed() {
    let q = query(0x1000, 0x3000, 0x04);
    assert_eq!(
        region_from_query(0x1000, 0x1004, q),
        Some(Region { start: 0x1000, end: 0x4000, readable: true, writable: true })
    );
    assert_eq!(region_from_query(0x3ffe, 0x4002, q), None);
    assert_eq!(region_from_query(0x0fff, 0x1004, q), None);
    assert_eq!(region_from_query(0x1000, 0x1004, RegionQuery { committed: false, ..q }), None);
    assert_eq!(region_from_query(0x1000, 0x1004, query(0x1000, 0x3000, 0x104)), None);
    assert_eq!(region_from_query(0x1000, 0x1004, query(usize::MAX - 1, 4, 0x04)), None);
}

#[test]
fn regions_are_cached_only_inside_a_scope() {
    let mut cache = Cache::new();
    assert_eq!(cache.cached_region(0x1000, 4, false), None);
    assert_eq!(cache.region_after_query(0x1000, 4, false, Some(query(0x1000, 0x3000, 0x02))), Some((0x1000, 0x4000)));
    assert_eq!(cache.cached_region(0x1000, 4, false), None);
    assert_eq!(query_count(&cache), 1);
    cache.enter();
    assert_eq!(cache.depth(), 1);
    assert_eq!(cache.region_after_query(0x1000, 4, true, Some(query(0x1000, 0x3000, 0x02))), None);
    assert_eq!(cache.cached_region(0x2000, 4, false), Some(Some((0x1000, 0x4000))));
    assert_eq!(cache.cached_region(0x2000, 4, true), Some(None));
    assert_eq!(cache.cached_region(0x3ffe, 4, false), None);
    cache.enter();
    assert_eq!(cache.cached_region(0x2000, 4, false), None);
    cache.exit();
    assert_eq!(cache.cached_region(0x2000, 4, false), None);
    cache.exit();
    assert_eq!(cache.depth(), 0);
    assert_eq!(query_count(&cache), 2);
    assert_eq!(cache.cached_region(0, 4, false), Some(None));
    assert_eq!(cache.cached_region(8, 0, false), Some(None));
    assert_eq!(cache.cached_region(usize::MAX - 1, 4, false), Some(None));
}

#[test]
fn span_checks_use_pages_then_the_page_cache() {
    let mut cache = Cache::new();
    assert_eq!(cache.span_plan(0, 4, false, 0x1000), SpanPlan::Answer(false));
    assert_eq!(cache.span_plan(0x1fff, 0, false, 0x1000), SpanPlan::Answer(false));
    assert_eq!(cache.span_plan(usize::MAX - 1, 4, false, 0x1000), SpanPlan::Answer(false));
    assert_eq!(cache.span_plan(0x1fff, 2, false, 0x1800), SpanPlan::Region);
    assert_eq!(cache.span_plan(0x1000, 65 * 0x1000, false, 0x1000), SpanPlan::Region);
    assert_eq!(cache.span_plan(0x1fff, 0x1002, false, 0x1000), SpanPlan::Pages { first: 0x1000, pages: 3 });
    cache.enter();
    assert_eq!(cache.span_plan(0x1fff, 0x1002, true, 0x1000), SpanPlan::Pages { first: 0x1000, pages: 3 });
    let readable_writable: usize = 1 | (0x04 << 4);
    let readonly: usize = 1 | (0x02 << 4);
    assert_eq!(
        cache.span_after_query(0x1000, 3, 0x1000, true, Some(vec![readable_writable, readonly, readable_writable])),
        Some(false)
    );
    assert_eq!(cache.span_plan(0x1fff, 0x1002, false, 0x1000), SpanPlan::Answer(true));
    assert_eq!(cache.span_plan(0x1fff, 0x1002, true, 0x1000), SpanPlan::Answer(false));
    assert_eq!(cache.span_plan(0x1000, 4, true, 0x1000), SpanPlan::Answer(true));
    cache.exit();
    assert_eq!(cache.span_plan(0x1000, 4, true, 0x1000), SpanPlan::Pages { first: 0x1000, pages: 1 });
}

#[test]
fn unusable_page_attributes_use_the_region_path() {
    let mut cache = Cache::new();
    cache.enter();
    let valid: usize = 1 | (0x04 << 4);
    assert_eq!(cache.span_after_query(0x1000, 2, 0x1000, false, None), None);
    assert_eq!(cache.span_after_query(0x1000, 2, 0x1000, false, Some(vec![valid])), None);
    assert_eq!(cache.span_after_query(0x1000, 2, 0x1000, false, Some(vec![valid, 0x40])), None);
    assert_eq!(cache.span_after_query(0x1000, 2, 0x1000, false, Some(vec![valid, valid | 0x8000_0000])), None);
    assert_eq!(cache.span_plan(0x1000, 4, false, 0x1000), SpanPlan::Pages { first: 0x1000, pages: 1 });
    assert_eq!(query_count(&cache), 4);
}

#[test]
fn scoped_operations_start_fresh_and_invalidate_the_parent() {
    let mut cache = Cache::new();
    cache.enter();
    cache.region_after_query(0x1000, 4, false, Some(query(0x1000, 0x3000, 0x02)));
    let answer = scoped(&mut cache, |mut inner: Cache| {
        let fresh = inner.cached_region(0x1000, 4, false);
        inner.region_after_query(0x1000, 4, false, Some(query(0x1000, 0x3000, 0x02)));
        (inner, fresh)
    });
    assert_eq!(answer, None);
    assert_eq!(cache.depth(), 1);
    assert_eq!(cache.cached_region(0x1000, 4, false), None);
    assert_eq!(query_count(&cache), 2);
}

#[test]
fn deduplicates_queries_but_never_field_reads_or_operation_epochs() {
    let a = 0x10000usize;
    let os = |_: usize| Some(query(0x10000, 0x10000, 0x04));
    let mut cache = Cache::new();
    let q0 = query_count(&cache);
    cache.enter();
    for i in 0..1000 {
        assert_eq!(cache.region_check(a + i, 4, i % 2 == 0, &os), Some((0x10000, 0x20000)));
    }
    cache.exit();
    assert_eq!(query_count(&cache) - q0, 1);
    cache.enter();
    assert!(cache.region_check(a, 4, true, &os).is_some());
    cache.exit();
    assert_eq!(query_count(&cache) - q0, 2);
    assert!(cache.region_check(a, 4, true, &os).is_some());
    assert!(cache.region_check(a, 4, true, &os).is_some());
    assert_eq!(query_count(&cache) - q0, 4);
}

#[test]
fn nested_operation_and_unwind_discard_all_permissions() {
    let a = 0x10000usize;
    let os = |_: usize| Some(query(0x10000, 0x10000, 0x02));
    let mut cache = Cache::new();
    let q0 = query_count(&cache);
    cache.enter();
    assert!(cache.region_check(a, 4, false, &os).is_some());
    cache.enter();
    assert!(cache.region_check(a, 4, false, &os).is_some());
    cache.exit();
    assert!(cache.region_check(a, 4, false, &os).is_some());
    cache.exit();
    assert_eq!(query_count(&cache) - q0, 3);
    assert_eq!(cache.depth(), 0);
    // Refused ranges never query.
    assert_eq!(cache.region_check(0, 4, false, &os), None);
    assert_eq!(cache.region_check(a, 0, false, &os), None);
    assert_eq!(query_count(&cache) - q0, 3);
}

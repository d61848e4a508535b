use er_character_scale::shared::{
    any_overlap, blocked_by_group, join_overlapping, join_root_owners, join_shared_poses,
    merge_sorted_spans, owners_by_root, plan_shared_consumers, protected_spans, root_scales, resource_spans, retained_by_scaled_consumer,
    sort_owned_spans, sort_spans, ArraySpan, Groups, RootOwners,
};

#[test]
fn groups_start_apart_and_join_transitively() {
    let mut groups = Groups::new(5);
    assert_eq!(groups.len(), 5);
    for i in 0..5 {
        assert_eq!(groups.root(i), i);
    }
    groups.join(0, 1);
    groups.join(3, 4);
    assert!(groups.same(0, 1));
    assert!(!groups.same(1, 3));
    groups.join(4, 1);
    assert!(groups.same(0, 3));
    assert!(groups.same(1, 4));
    assert!(!groups.same(2, 0));
    assert_eq!(groups.root(0), groups.root(4));
}

#[test]
fn long_chains_are_found_again() {
    let mut groups = Groups::new(64);
    for i in 1..64 {
        groups.join(i, i - 1);
    }
    let root = groups.root(0);
    for i in 0..64 {
        assert_eq!(groups.root(i), root);
    }
}

#[test]
fn resource_spans_merge_arrays_and_uncovered_fields() {
    let arrays = vec![
        ArraySpan { begin: 0x100, count: 4, stride: 16 },
        ArraySpan { begin: 0x200, count: 0, stride: 16 },
        ArraySpan { begin: 0x130, count: 2, stride: 16 },
    ];
    let fields = vec![0x108, 0x400, 0x402, 0x150, 0x300];
    assert_eq!(
        resource_spans(&arrays, &fields),
        vec![(0x100, 0x154), (0x300, 0x304), (0x400, 0x404)]
    );
    assert_eq!(resource_spans(&Vec::new(), &Vec::new()), Vec::new());
}

#[test]
fn touching_spans_merge_and_gaps_stay() {
    let sorted = sort_spans(vec![(10, 20), (0, 5), (20, 25), (5, 5), (30, 31)]);
    assert_eq!(sorted, vec![(0, 5), (5, 5), (10, 20), (20, 25), (30, 31)]);
    assert_eq!(merge_sorted_spans(&sorted), vec![(0, 5), (10, 25), (30, 31)]);
}

#[test]
fn owned_spans_sort_lexicographically() {
    assert_eq!(
        sort_owned_spans(vec![(5, 9, 1), (5, 5, 0), (1, 2, 3), (5, 5, 0)]),
        vec![(1, 2, 3), (5, 5, 0), (5, 5, 0), (5, 9, 1)]
    );
}

#[test]
fn overlapping_spans_join_their_owners() {
    let mut groups = Groups::new(4);
    join_overlapping(&mut groups, vec![(0x100, 0x200, 0), (0x1f0, 0x210, 1), (0x210, 0x220, 2), (0x300, 0x308, 3)]);
    assert!(groups.same(0, 1));
    assert!(!groups.same(1, 2));
    assert!(!groups.same(2, 3));
    let mut groups = Groups::new(3);
    join_overlapping(&mut groups, vec![(0, 100, 0), (10, 20, 1), (50, 60, 2)]);
    assert!(groups.same(1, 2));
}

#[test]
fn shared_pose_instances_join_and_mark_later_consumers() {
    let mut groups = Groups::new(4);
    let shared = join_shared_poses(
        &mut groups,
        &vec![[0x10, 0, 0x30], [0x40, 0x40, 0], [0, 0x30, 0], [0, 0, 0]],
    );
    assert_eq!(shared, vec![false, false, true, false]);
    assert!(groups.same(0, 2));
    assert!(!groups.same(0, 1));
    assert!(!groups.same(3, 0));
}

#[test]
fn blocked_groups_need_one_scale_and_no_rejection() {
    let mut groups = Groups::new(5);
    groups.join(0, 1);
    groups.join(2, 3);
    let half = 0.5f32.to_bits();
    let double = 2.0f32.to_bits();
    let blocked = blocked_by_group(
        &mut groups,
        &vec![false, false, false, false, true],
        &vec![half, half, half, double, half],
    );
    assert_eq!(blocked, vec![false, false, true, true, true]);
    let mut groups = Groups::new(2);
    groups.join(0, 1);
    let blocked = blocked_by_group(&mut groups, &vec![true, false], &vec![half, half]);
    assert_eq!(blocked, vec![true, true]);
}

#[test]
fn root_owners_join_and_list_their_spans() {
    let mut groups = Groups::new(3);
    let roots = vec![
        RootOwners { root: 0x1000, owners: vec![2, 0], spans: vec![(0x2000, 0x2100)] },
        RootOwners { root: 0x3000, owners: vec![], spans: vec![(0x4000, 0x4100)] },
        RootOwners { root: usize::MAX - 2, owners: vec![1], spans: vec![] },
    ];
    let spans = join_root_owners(&mut groups, &roots);
    assert_eq!(
        spans,
        vec![(0x1000, 0x1008, 2), (0x2000, 0x2100, 2), (usize::MAX - 2, usize::MAX, 1)]
    );
    assert!(groups.same(0, 2));
    assert!(!groups.same(0, 1));
}

#[test]
fn consumers_sharing_a_resource_need_the_same_scale() {
    let half = 0.5f32.to_bits();
    let double = 2.0f32.to_bits();
    let roots = vec![
        RootOwners { root: 0x1000, owners: vec![0], spans: vec![(0x2000, 0x2100)] },
        RootOwners { root: 0x5000, owners: vec![1], spans: vec![(0x20f0, 0x2200)] },
        RootOwners { root: 0x8000, owners: vec![2], spans: vec![(0x9000, 0x9100)] },
        RootOwners { root: 0xa000, owners: vec![3, 4], spans: vec![] },
    ];
    let poses = vec![[0x11, 0, 0], [0x22, 0, 0], [0x33, 0, 0], [0x44, 0, 0], [0x55, 0, 0]];
    let plan = plan_shared_consumers(
        5,
        &roots,
        &poses,
        &vec![false, false, false, false, false],
        &vec![half, double, half, half, half],
    );
    assert_eq!(plan.blocked, vec![true, true, false, false, false]);
    assert_eq!(plan.pose_shared, vec![false; 5]);
    let plan = plan_shared_consumers(
        5,
        &roots,
        &vec![[0x11, 0, 0], [0x22, 0, 0], [0x11, 0, 0], [0x44, 0, 0], [0x55, 0, 0]],
        &vec![false, false, false, false, true],
        &vec![half, half, half, half, half],
    );
    assert_eq!(plan.pose_shared, vec![false, false, true, false, false]);
    assert_eq!(plan.blocked, vec![true, true, true, true, true]);
}

#[test]
fn scaled_consumers_keep_aliasing_originals() {
    let spans = vec![(0x100, 0x200)];
    assert!(any_overlap(&spans, &vec![(0x1f0, 0x300)]));
    assert!(!any_overlap(&spans, &vec![(0x200, 0x300), (0, 0x100)]));
    assert!(retained_by_scaled_consumer(Some(0.5f32.to_bits()), &spans, &vec![]));
    assert!(!retained_by_scaled_consumer(Some(1.0f32.to_bits()), &spans, &vec![]));
    assert!(!retained_by_scaled_consumer(None, &spans, &vec![(0x300, 0x400)]));
    assert!(retained_by_scaled_consumer(None, &spans, &vec![(0x1ff, 0x400)]));
}

#[test]
fn sharing_chains_join_consumers_transitively() {
    let unit = 1.0f32.to_bits();
    let roots = vec![
        RootOwners { root: 0x1000, owners: vec![0], spans: vec![(0x2000, 0x2100)] },
        RootOwners { root: 0x5000, owners: vec![1], spans: vec![(0x20f0, 0x2200)] },
        RootOwners { root: 0x8000, owners: vec![3], spans: vec![] },
    ];
    let poses = vec![[0x11, 0, 0], [0x22, 0, 0], [0, 0x22, 0], [0x44, 0, 0]];
    let plan = plan_shared_consumers(
        4,
        &roots,
        &poses,
        &vec![false; 4],
        &vec![unit; 4],
    );
    let mut groups = plan.groups;
    assert!(groups.same(0, 1));
    assert!(groups.same(0, 2));
    assert!(!groups.same(0, 3));
    assert_eq!(plan.pose_shared, vec![false, false, true, false]);
    assert_eq!(plan.blocked, vec![true, true, true, false]);
}

#[test]
fn roots_list_their_owners_once_in_first_reached_order() {
    let owned = owners_by_root(&vec![vec![1, 2], vec![2, 3, 2], vec![], vec![1]]);
    let listed: Vec<(usize, Vec<usize>)> = owned.iter().map(|o| (o.root, o.owners.clone())).collect();
    assert_eq!(listed, vec![(1, vec![0, 3]), (2, vec![0, 1]), (3, vec![1])]);
    assert!(owned.iter().all(|o| o.spans.is_empty()));
    assert!(owners_by_root(&vec![vec![], vec![]]).is_empty());
}

#[test]
fn roots_take_their_owners_scale_unless_blocked() {
    let unit = 1.0f32.to_bits();
    let half = 0.5f32.to_bits();
    let double = 2.0f32.to_bits();
    let roots = vec![
        RootOwners { root: 0x1000, owners: vec![0, 1], spans: vec![(0x2000, 0x2100)] },
        RootOwners { root: 0x3000, owners: vec![2], spans: vec![(0x4000, 0x4100), (0x5000, 0x5010)] },
        RootOwners { root: 0x6000, owners: vec![3], spans: vec![(0x7000, 0x7100)] },
    ];
    let poses = vec![[0x11, 0, 0], [0x22, 0, 0], [0x33, 0, 0], [0x44, 0, 0]];
    let requested = vec![half, double, half, unit];
    let plan = plan_shared_consumers(4, &roots, &poses, &vec![false; 4], &requested);
    assert_eq!(plan.blocked, vec![true, true, false, false]);
    let scales = root_scales(&roots, &plan.blocked, &requested);
    assert_eq!(scales, vec![unit, half, unit]);
    assert_eq!(protected_spans(&roots, &scales), vec![(0x4000, 0x4100), (0x5000, 0x5010)]);
}

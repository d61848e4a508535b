use er_character_scale::owner_scope::{
    CHARACTER_MODEL_VTABLE_RVA, ENEMY_VTABLE_RVA, INNER_VTABLE_RVA, INPUT_VTABLE_RVA,
    OWNER_VTABLE_RVA,
};
use er_character_scale::topology::{
    collision_roots, consumer_roots, simulations, ConsumerRejection, COLLIDABLE_VTABLE_RVA,
    SIM_CLOTH_DATA_VTABLE_RVA,
};
use std::collections::HashMap;

const BASE: usize = 0x100000;
const CHR: usize = 0x20000;
const CORE: usize = 0x70000;
const HOLDERS: usize = 0x90000;

fn enemy_memory() -> (HashMap<usize, usize>, HashMap<usize, i32>) {
    let (model, owner, input, inner) = (0x30000usize, 0x40000usize, 0x50000usize, 0x60000usize);
    let mut words = HashMap::from([
        (CHR, BASE + ENEMY_VTABLE_RVA),
        (CHR + 0x50, model),
        (model, BASE + CHARACTER_MODEL_VTABLE_RVA),
        (model + 0x130, owner),
        (owner, BASE + OWNER_VTABLE_RVA),
        (owner + 0x120, input),
        (owner + 0x40, inner),
        (input, BASE + INPUT_VTABLE_RVA),
        (inner, BASE + INNER_VTABLE_RVA),
        (inner + 0x30, CORE),
        (CORE + 0x28, HOLDERS),
        (CORE + 0x30, HOLDERS + 16),
    ]);
    let mut counts = HashMap::new();
    // Two holders; the second reaches the first simulation again.
    let layout: [(usize, usize, &[(usize, usize)]); 2] = [
        (0xA0000, 0xA1000, &[(0xB0000, 0x5000), (0xB1000, 0x6000)]),
        (0xA2000, 0xA3000, &[(0xB2000, 0x5000), (0xB3000, 0)]),
    ];
    for (i, (holder, root, children)) in layout.iter().enumerate() {
        words.insert(HOLDERS + i * 8, *holder);
        words.insert(*holder, *root);
        let array = root + 0x800;
        words.insert(root + 0x40, array);
        counts.insert(root + 0x48, children.len() as i32);
        for (j, (child, sim)) in children.iter().enumerate() {
            words.insert(array + j * 8, *child);
            words.insert(child + 0x18, *sim);
        }
    }
    (words, counts)
}

fn reach(words: &HashMap<usize, usize>, counts: &HashMap<usize, i32>) -> Option<Vec<usize>> {
    simulations(
        CHR,
        0x80000,
        0,
        BASE,
        &|a: usize| words.get(&a).copied(),
        &|a: usize| counts.get(&a).copied(),
        &|_: usize, _: usize| true,
    )
}

#[test]
fn simulations_are_listed_once_in_first_reached_order() {
    let (words, counts) = enemy_memory();
    assert_eq!(reach(&words, &counts), Some(vec![0x5000, 0x6000]));
}

#[test]
fn a_failed_read_or_bad_bounds_yields_nothing() {
    let (mut words, counts) = enemy_memory();
    words.remove(&(0xB1000 + 0x18));
    assert_eq!(reach(&words, &counts), None);

    let (mut words, counts) = enemy_memory();
    words.insert(CORE + 0x30, HOLDERS + 12);
    assert_eq!(reach(&words, &counts), None);

    let (words, mut counts) = enemy_memory();
    counts.insert(0xA1000 + 0x48, 257);
    assert_eq!(reach(&words, &counts), None);

    let (words, mut counts) = enemy_memory();
    counts.insert(0xA1000 + 0x48, -1);
    assert_eq!(reach(&words, &counts), None);
}

#[test]
fn unreadable_child_arrays_and_foreign_scopes_yield_nothing() {
    let (words, counts) = enemy_memory();
    let found = simulations(
        CHR,
        0x80000,
        0,
        BASE,
        &|a: usize| words.get(&a).copied(),
        &|a: usize| counts.get(&a).copied(),
        &|begin: usize, _: usize| begin != 0xA1800,
    );
    assert_eq!(found, None);
    let found = simulations(
        CHR + 8,
        0x80000,
        0,
        BASE,
        &|a: usize| words.get(&a).copied(),
        &|a: usize| counts.get(&a).copied(),
        &|_: usize, _: usize| true,
    );
    assert_eq!(found, None);
}

#[test]
fn a_character_without_holders_reaches_no_simulation() {
    let (mut words, counts) = enemy_memory();
    words.insert(CORE + 0x30, HOLDERS);
    assert_eq!(reach(&words, &counts), Some(vec![]));
}

fn collision_memory() -> (HashMap<usize, usize>, HashMap<usize, i32>) {
    let capsule = 0x2D896D0usize;
    let words = HashMap::from([
        (0x1000usize, BASE + SIM_CLOTH_DATA_VTABLE_RVA),
        (0x1000 + 0xD0, 0x5000),
        (0x5000, 0x7000),
        (0x5008, 0x7100),
        (0x7000, BASE + COLLIDABLE_VTABLE_RVA),
        (0x7000 + 0x88, 0x8000),
        (0x8000, BASE + capsule),
        (0x7100, BASE + COLLIDABLE_VTABLE_RVA),
        (0x7100 + 0x88, 0x8100),
        (0x8100, BASE + 0x1234),
        (0x2000, BASE + SIM_CLOTH_DATA_VTABLE_RVA),
        (0x2000 + 0xD0, 0x6000),
        (0x6000, 0x7000),
    ]);
    let counts = HashMap::from([(0x1000 + 0xD8usize, 2i32), (0x2000 + 0xD8, 1)]);
    (words, counts)
}

fn offset(a: usize) -> usize {
    if (BASE..BASE + 0x4000000).contains(&a) {
        a - BASE
    } else {
        0
    }
}

#[test]
fn collision_roots_list_collidables_and_shapes_once() {
    let (words, counts) = collision_memory();
    let roots = collision_roots(
        &vec![0x1000, 0x2000],
        &|a: usize| words.get(&a).copied(),
        &|a: usize| counts.get(&a).copied(),
        &|_: usize, _: usize| true,
        &offset,
    );
    assert_eq!(roots, Some((vec![0x7000, 0x7100], vec![0x8000], 1)));
    let roots = collision_roots(
        &vec![],
        &|a: usize| words.get(&a).copied(),
        &|a: usize| counts.get(&a).copied(),
        &|_: usize, _: usize| true,
        &offset,
    );
    assert_eq!(roots, Some((vec![], vec![], 0)));
}

#[test]
fn collision_roots_refuse_foreign_objects() {
    let (mut words, counts) = collision_memory();
    words.insert(0x7100, BASE + 0x10);
    let roots = collision_roots(
        &vec![0x1000],
        &|a: usize| words.get(&a).copied(),
        &|a: usize| counts.get(&a).copied(),
        &|_: usize, _: usize| true,
        &offset,
    );
    assert_eq!(roots, None);
    let (words, counts) = collision_memory();
    let roots = collision_roots(
        &vec![0x7000],
        &|a: usize| words.get(&a).copied(),
        &|a: usize| counts.get(&a).copied(),
        &|_: usize, _: usize| true,
        &offset,
    );
    assert_eq!(roots, None);
}

fn consumer_memory() -> (HashMap<usize, usize>, HashMap<usize, i32>) {
    let (mut words, mut counts) = enemy_memory();
    for sim in [0x5000usize, 0x6000] {
        words.insert(sim, BASE + SIM_CLOTH_DATA_VTABLE_RVA);
    }
    words.insert(0x5000 + 0xD0, 0xC000);
    counts.insert(0x5000 + 0xD8, 1);
    words.insert(0x6000 + 0xD0, 0);
    counts.insert(0x6000 + 0xD8, 0);
    words.insert(0xC000, 0xD000);
    words.insert(0xD000, BASE + COLLIDABLE_VTABLE_RVA);
    words.insert(0xD000 + 0x88, 0xE000);
    words.insert(0xE000, BASE + 0x2D89D20);
    (words, counts)
}

fn consumer(words: &HashMap<usize, usize>, counts: &HashMap<usize, i32>, address: usize) -> (Vec<usize>, Option<ConsumerRejection>) {
    let owned = consumer_roots(
        address,
        0x80000,
        0,
        BASE,
        &|a: usize| words.get(&a).copied(),
        &|a: usize| counts.get(&a).copied(),
        &|_: usize, _: usize| true,
        &offset,
    );
    (owned.roots, owned.rejection)
}

#[test]
fn consumers_own_simulations_collidables_and_shapes() {
    let (words, counts) = consumer_memory();
    assert_eq!(consumer(&words, &counts, CHR), (vec![0x5000, 0x6000, 0xD000, 0xE000], None));
    let (mut words, counts) = consumer_memory();
    words.insert(0xE000, BASE + 0x10);
    assert_eq!(
        consumer(&words, &counts, CHR),
        (vec![0x5000, 0x6000, 0xD000], Some(ConsumerRejection::ShapeUnsupported))
    );
    let (mut words, counts) = consumer_memory();
    words.insert(0x6000, BASE + 0x10);
    assert_eq!(
        consumer(&words, &counts, CHR),
        (vec![0x5000, 0x6000], Some(ConsumerRejection::CollisionsUnreadable))
    );
    let (words, counts) = consumer_memory();
    assert_eq!(consumer(&words, &counts, CHR + 8), (vec![], Some(ConsumerRejection::TopologyUnreadable)));
}

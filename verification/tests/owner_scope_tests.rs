use er_character_scale::owner_scope::{
    Scope, ASSEMBLY_VTABLE_RVA, CHARACTER_MODEL_VTABLE_RVA, ENEMY_VTABLE_RVA,
    EQUIPMENT_VTABLE_RVA, INNER_VTABLE_RVA, INPUT_VTABLE_RVA, OWNER_VTABLE_RVA,
};
use std::collections::HashMap;

#[test]
fn non_player_model_route_never_reads_player_equipment_tail_and_rejects_replacement() {
    let (base, chr, model, owner, input, inner, core, anchor) = (
        0x100000, 0x20000, 0x30000, 0x40000, 0x50000, 0x60000, 0x70000, 0x80000,
    );
    let mut memory = HashMap::from([
        (chr, base + ENEMY_VTABLE_RVA),
        (chr + 0x50, model),
        (model, base + CHARACTER_MODEL_VTABLE_RVA),
        (model + 0x130, owner),
        (owner, base + OWNER_VTABLE_RVA),
        (owner + 0x120, input),
        (owner + 0x40, inner),
        (input, base + INPUT_VTABLE_RVA),
        (inner, base + INNER_VTABLE_RVA),
        (inner + 0x30, core),
    ]);
    let read = |address| {
        assert_ne!(address, chr + 0x648, "enemy must not use PlayerIns tail");
        memory.get(&address).copied()
    };
    let scope = Scope::capture(chr, anchor, base, read);
    let route = scope.find(owner, input).unwrap();
    assert_eq!(scope.assembly, 0);
    assert!(scope.route_is_current(route, base, |a| memory.get(&a).copied()));
    memory.insert(chr + 0x50, model + 0x1000);
    assert!(!scope.route_is_current(route, base, |a| memory.get(&a).copied()));
}

fn player_memory(base: usize) -> (HashMap<usize, usize>, usize, usize, usize) {
    let (player, assembly, model) = (0x20000usize, 0x21000usize, 0x22000usize);
    let mut memory = HashMap::from([
        (player + 0x648, assembly),
        (player + 0x50, model),
        (assembly, base + ASSEMBLY_VTABLE_RVA),
        (assembly + 8, model),
    ]);
    // Two equipment slots that lead to one owner, and one slot to another.
    for (slot, (equipment, owner)) in [(0usize, (0x30000usize, 0x40000usize)), (1, (0x31000, 0x40000)), (2, (0x32000, 0x41000))] {
        let input = owner + 0x100;
        let inner = owner + 0x200;
        memory.insert(assembly + 0x28 + slot * 8, equipment);
        memory.insert(equipment, base + EQUIPMENT_VTABLE_RVA);
        memory.insert(equipment + 0x130, owner);
        memory.insert(owner, base + OWNER_VTABLE_RVA);
        memory.insert(owner + 0x120, input);
        memory.insert(owner + 0x40, inner);
        memory.insert(input, base + INPUT_VTABLE_RVA);
        memory.insert(inner, base + INNER_VTABLE_RVA);
        memory.insert(inner + 0x30, owner + 0x300);
    }
    (memory, player, assembly, model)
}

#[test]
fn null_inputs_capture_the_empty_scope() {
    let read = |_: usize| -> Option<usize> { panic!("nothing may be read") };
    let scope = Scope::capture(0, 1, 0x100000, read);
    assert_eq!(scope.player, 0);
    assert!(scope.routes.iter().all(|r| r.owner == 0));
    let scope = Scope::capture(1, 0, 0x100000, read);
    assert!(scope.find(0, 0).is_none());
}

#[test]
fn unreadable_character_root_captures_nothing() {
    let scope = Scope::capture(0x20000, 0x80000, 0x100000, |_| None);
    assert!(scope.routes.iter().all(|r| r.owner == 0));
}

#[test]
fn replaced_enemy_model_is_not_current() {
    let base = 0x100000usize;
    let (chr, model, owner, input, inner) = (0x20000usize, 0x30000usize, 0x40000usize, 0x50000usize, 0x60000usize);
    let mut memory = HashMap::from([
        (chr, base + ENEMY_VTABLE_RVA),
        (chr + 0x50, model),
        (model, base + CHARACTER_MODEL_VTABLE_RVA),
        (model + 0x130, owner),
        (owner, base + OWNER_VTABLE_RVA),
        (owner + 0x120, input),
        (owner + 0x40, inner),
        (input, base + INPUT_VTABLE_RVA),
        (inner, base + INNER_VTABLE_RVA),
        (inner + 0x30, 0x70000usize),
    ]);
    let scope = Scope::capture(chr, 0x80000, base, |a| memory.get(&a).copied());
    let route = scope.find(owner, input).unwrap();
    assert_eq!(route.model, model);
    assert!(scope.find(owner, input + 8).is_none());
    memory.insert(owner + 0x40, inner + 8);
    assert!(!scope.route_is_current(route, base, |a| memory.get(&a).copied()));
}

#[test]
fn player_owners_are_kept_once_in_slot_order() {
    let base = 0x100000usize;
    let (memory, player, assembly, model) = player_memory(base);
    let scope = Scope::capture(player, 0x90000, base, |a| memory.get(&a).copied());
    assert_eq!(scope.assembly, assembly);
    assert_eq!(scope.player_model, model);
    let owners: Vec<usize> = scope.routes.iter().map(|r| r.owner).filter(|o| *o != 0).collect();
    assert_eq!(owners, vec![0x40000, 0x41000]);
    let route = scope.find(0x41000, 0x41100).unwrap();
    assert!(scope.route_is_current(route, base, |a| memory.get(&a).copied()));
}

//! The cloth simulations a character reaches: through each current owner
//! route of its scope, the holders of the route's core, their child arrays
//! and each child's simulation. Only pointer topology is read, never
//! particle values, and every array is bounded.
use crate::dimension::{is_supported_shape_vtable, spec_supported_shape};
use crate::identity::{
    array_span, readers_as, readers_total, spec_array_span, CountImage, Readable,
};
use crate::owner_scope::{
    reads_anywhere, reads_as, spec_capture, spec_route_is_current, Image, Scope, ScopeView,
    MODEL_SLOT_COUNT,
};
use vstd::prelude::*;

verus! {

/// The most holders one route's core lists.
pub const MAX_HOLDERS: usize = 32;

/// The most children one holder's root lists.
pub const MAX_CHILDREN: usize = 256;

/// `acc` with `sim` added, unless it is null or already listed.
pub open spec fn with_simulation(acc: Seq<usize>, sim: usize) -> Seq<usize> {
    if sim != 0 && !acc.contains(sim) {
        acc.push(sim)
    } else {
        acc
    }
}

/// The simulation of child `j` of the array at `children`; `None` when a
/// read fails.
pub open spec fn child_simulation(children: usize, j: int, m: Image) -> Option<usize> {
    let slot = children + j * 8;
    if slot > usize::MAX {
        None
    } else {
        match m(slot as usize) {
            None => None,
            Some(child) => if child + 0x18 > usize::MAX {
                None
            } else {
                m((child + 0x18) as usize)
            },
        }
    }
}

/// The simulations of the first `n` children of the array at `children`,
/// added to `acc`; `None` when a read fails.
pub open spec fn from_children(acc: Seq<usize>, children: usize, n: nat, m: Image) -> Option<
    Seq<usize>,
>
    decreases n,
{
    if n == 0 {
        Some(acc)
    } else {
        match from_children(acc, children, (n - 1) as nat, m) {
            None => None,
            Some(s) => match child_simulation(children, n - 1, m) {
                None => None,
                Some(sim) => Some(with_simulation(s, sim)),
            },
        }
    }
}

/// The child array of holder `i` of the list at `begin`: the holder's root
/// and its bounded array of children.
pub open spec fn holder_children(begin: usize, i: int, m: Image, c: CountImage, r: Readable) -> Option<
    (usize, usize),
> {
    let slot = begin + i * 8;
    if slot > usize::MAX {
        None
    } else {
        match m(slot as usize) {
            None => None,
            Some(holder) => match m(holder) {
                None => None,
                Some(root) => spec_array_span(root, 0x40, 0x48, 8, MAX_CHILDREN, m, c, r),
            },
        }
    }
}

/// The simulations of the first `n` holders listed from `begin`, added to
/// `acc`; `None` when a read fails or a child array is out of bounds.
pub open spec fn from_holders(
    acc: Seq<usize>,
    begin: usize,
    n: nat,
    m: Image,
    c: CountImage,
    r: Readable,
) -> Option<Seq<usize>>
    decreases n,
{
    if n == 0 {
        Some(acc)
    } else {
        match from_holders(acc, begin, (n - 1) as nat, m, c, r) {
            None => None,
            Some(s) => match holder_children(begin, n - 1, m, c, r) {
                None => None,
                Some((children, count)) => from_children(s, children, count as nat, m),
            },
        }
    }
}

/// The simulations reached through one route, added to `acc`.
pub open spec fn from_route(
    acc: Seq<usize>,
    scope: ScopeView,
    route_index: int,
    base: usize,
    m: Image,
    c: CountImage,
    r: Readable,
) -> Option<Seq<usize>> {
    let route = scope.routes[route_index];
    if route.owner == 0 {
        Some(acc)
    } else if !spec_route_is_current(scope, route, base, m) || route.core + 0x30 > usize::MAX {
        None
    } else {
        match (m((route.core + 0x28) as usize), m((route.core + 0x30) as usize)) {
            (Some(begin), Some(end)) => if end < begin || (end - begin) % 8 != 0 || (end - begin) / 8
                > MAX_HOLDERS {
                None
            } else {
                from_holders(acc, begin, ((end - begin) / 8) as nat, m, c, r)
            },
            _ => None,
        }
    }
}

/// The simulations reached through the first `n` routes of a scope.
pub open spec fn from_routes(
    scope: ScopeView,
    n: nat,
    base: usize,
    m: Image,
    c: CountImage,
    r: Readable,
) -> Option<Seq<usize>>
    decreases n,
{
    if n == 0 {
        Some(Seq::empty())
    } else {
        match from_routes(scope, (n - 1) as nat, base, m, c, r) {
            None => None,
            Some(s) => from_route(s, scope, n - 1, base, m, c, r),
        }
    }
}

/// The simulations of a character, in the order they are first reached,
/// each once; `None` when its scope is not its own or any read fails.
pub open spec fn spec_simulations(
    address: usize,
    pose: usize,
    cloth_pose: usize,
    base: usize,
    m: Image,
    c: CountImage,
    r: Readable,
) -> Option<Seq<usize>> {
    let anchor = if cloth_pose != 0 {
        cloth_pose
    } else {
        pose
    };
    let scope = spec_capture(address, anchor, base, m);
    if scope.player != address {
        None
    } else {
        from_routes(scope, MODEL_SLOT_COUNT as nat, base, m, c, r)
    }
}

fn contains(v: &Vec<usize>, x: usize) -> (b: bool)
    ensures
        b == v@.contains(x),
{
    let mut i: usize = 0;
    while i < v.len()
        invariant
            0 <= i <= v@.len(),
            forall|k: int| 0 <= k < i ==> v@[k] != x,
        decreases v@.len() - i,
    {
        if v[i] == x {
            return true;
        }
        i = i + 1;
    }
    false
}

fn add_simulation(result: &mut Vec<usize>, sim: usize)
    ensures
        final(result)@ == with_simulation(old(result)@, sim),
{
    if sim != 0 && !contains(result, sim) {
        result.push(sim);
    }
}

proof fn lemma_children_none(acc: Seq<usize>, children: usize, a: nat, b: nat, m: Image)
    requires
        a <= b,
        from_children(acc, children, a, m) is None,
    ensures
        from_children(acc, children, b, m) is None,
    decreases b - a,
{
    if a < b {
        lemma_children_none(acc, children, a, (b - 1) as nat, m);
    }
}

proof fn lemma_holders_none(
    acc: Seq<usize>,
    begin: usize,
    a: nat,
    b: nat,
    m: Image,
    c: CountImage,
    r: Readable,
)
    requires
        a <= b,
        from_holders(acc, begin, a, m, c, r) is None,
    ensures
        from_holders(acc, begin, b, m, c, r) is None,
    decreases b - a,
{
    if a < b {
        lemma_holders_none(acc, begin, a, (b - 1) as nat, m, c, r);
    }
}

proof fn lemma_routes_none(
    scope: ScopeView,
    a: nat,
    b: nat,
    base: usize,
    m: Image,
    c: CountImage,
    r: Readable,
)
    requires
        a <= b,
        from_routes(scope, a, base, m, c, r) is None,
    ensures
        from_routes(scope, b, base, m, c, r) is None,
    decreases b - a,
{
    if a < b {
        lemma_routes_none(scope, a, (b - 1) as nat, base, m, c, r);
    }
}

fn read_child_simulation<R: Fn(usize) -> Option<usize>>(children: usize, j: usize, read: &R) -> (sim:
    Option<usize>)
    requires
        reads_anywhere(*read),
        j <= MAX_CHILDREN,
    ensures
        forall|m: Image| reads_as(*read, m) ==> sim == child_simulation(children, j as int, m),
{
    let slot = match children.checked_add(j * 8) {
        Some(a) => a,
        None => return None,
    };
    let child = match read(slot) {
        Some(child) => child,
        None => return None,
    };
    let sim_address = match child.checked_add(0x18) {
        Some(a) => a,
        None => return None,
    };
    read(sim_address)
}

fn children_simulations<R: Fn(usize) -> Option<usize>>(
    result: &mut Vec<usize>,
    children: usize,
    count: usize,
    read: &R,
) -> (ok: bool)
    requires
        reads_anywhere(*read),
        count <= MAX_CHILDREN,
    ensures
        forall|m: Image|
            reads_as(*read, m) ==> if ok {
                from_children(old(result)@, children, count as nat, m) == Some(final(result)@)
            } else {
                from_children(old(result)@, children, count as nat, m) is None
            },
{
    let ghost start = result@;
    let mut j: usize = 0;
    while j < count
        invariant
            0 <= j <= count,
            count <= MAX_CHILDREN,
            reads_anywhere(*read),
            start == old(result)@,
            forall|m: Image|
                reads_as(*read, m) ==> from_children(start, children, j as nat, m) == Some(result@),
        decreases count - j,
    {
        let found = read_child_simulation(children, j, read);
        match found {
            Some(sim) => {
                add_simulation(result, sim);
            },
            None => {
                proof {
                    assert forall|m: Image| reads_as(*read, m) implies from_children(
                        start,
                        children,
                        count as nat,
                        m,
                    ) is None by {
                        assert(from_children(start, children, (j + 1) as nat, m) is None);
                        lemma_children_none(start, children, (j + 1) as nat, count as nat, m);
                    }
                }
                return false;
            },
        }
        j = j + 1;
    }
    true
}

fn read_holder_children<
    R: Fn(usize) -> Option<usize>,
    C: Fn(usize) -> Option<i32>,
    Q: Fn(usize, usize) -> bool,
>(begin: usize, i: usize, read: &R, count: &C, query: &Q) -> (span: Option<(usize, usize)>)
    requires
        readers_total(*read, *count, *query),
        i <= MAX_HOLDERS,
    ensures
        span matches Some(s) ==> s.1 <= MAX_CHILDREN,
        forall|m: Image, c: CountImage, r: Readable|
            readers_as(*read, *count, *query, m, c, r) ==> span == holder_children(
                begin,
                i as int,
                m,
                c,
                r,
            ),
{
    let slot = match begin.checked_add(i * 8) {
        Some(a) => a,
        None => return None,
    };
    let holder = match read(slot) {
        Some(h) => h,
        None => return None,
    };
    let root = match read(holder) {
        Some(root) => root,
        None => return None,
    };
    array_span(root, 0x40, 0x48, 8, MAX_CHILDREN, read, count, query)
}

fn holder_simulations<
    R: Fn(usize) -> Option<usize>,
    C: Fn(usize) -> Option<i32>,
    Q: Fn(usize, usize) -> bool,
>(result: &mut Vec<usize>, begin: usize, holders: usize, read: &R, count: &C, query: &Q) -> (ok:
    bool)
    requires
        readers_total(*read, *count, *query),
        holders <= MAX_HOLDERS,
    ensures
        forall|m: Image, c: CountImage, r: Readable|
            readers_as(*read, *count, *query, m, c, r) ==> if ok {
                from_holders(old(result)@, begin, holders as nat, m, c, r) == Some(final(result)@)
            } else {
                from_holders(old(result)@, begin, holders as nat, m, c, r) is None
            },
{
    let ghost start = result@;
    let mut i: usize = 0;
    while i < holders
        invariant
            0 <= i <= holders,
            holders <= MAX_HOLDERS,
            readers_total(*read, *count, *query),
            start == old(result)@,
            forall|m: Image, c: CountImage, r: Readable|
                readers_as(*read, *count, *query, m, c, r) ==> from_holders(
                    start,
                    begin,
                    i as nat,
                    m,
                    c,
                    r,
                ) == Some(result@),
        decreases holders - i,
    {
        let span = read_holder_children(begin, i, read, count, query);
        let ghost before = result@;
        let ok = match span {
            Some((children, n)) => children_simulations(result, children, n, read),
            None => false,
        };
        if !ok {
            proof {
                assert forall|m: Image, c: CountImage, r: Readable|
                    readers_as(*read, *count, *query, m, c, r) implies from_holders(
                        start,
                        begin,
                        holders as nat,
                        m,
                        c,
                        r,
                    ) is None by {
                    assert(from_holders(start, begin, i as nat, m, c, r) == Some(before));
                    assert(from_holders(start, begin, (i + 1) as nat, m, c, r) is None);
                    lemma_holders_none(start, begin, (i + 1) as nat, holders as nat, m, c, r);
                }
            }
            return false;
        }
        proof {
            assert forall|m: Image, c: CountImage, r: Readable|
                readers_as(*read, *count, *query, m, c, r) implies from_holders(
                    start,
                    begin,
                    (i + 1) as nat,
                    m,
                    c,
                    r,
                ) == Some(result@) by {
                assert(from_holders(start, begin, i as nat, m, c, r) == Some(before));
            }
        }
        i = i + 1;
    }
    true
}

fn route_simulations<
    R: Fn(usize) -> Option<usize>,
    C: Fn(usize) -> Option<i32>,
    Q: Fn(usize, usize) -> bool,
>(
    result: &mut Vec<usize>,
    scope: &Scope,
    index: usize,
    base: usize,
    read: &R,
    count: &C,
    query: &Q,
) -> (ok: bool)
    requires
        readers_total(*read, *count, *query),
        index < MODEL_SLOT_COUNT,
    ensures
        forall|m: Image, c: CountImage, r: Readable|
            readers_as(*read, *count, *query, m, c, r) ==> if ok {
                from_route(old(result)@, scope@, index as int, base, m, c, r) == Some(final(result)@)
            } else {
                from_route(old(result)@, scope@, index as int, base, m, c, r) is None
            },
{
    let route = scope.routes[index];
    if route.owner == 0 {
        return true;
    }
    if !scope.route_is_current_ref(route, base, read) {
        return false;
    }
    let begin_address = match route.core.checked_add(0x28) {
        Some(a) => a,
        None => return false,
    };
    let end_address = match route.core.checked_add(0x30) {
        Some(a) => a,
        None => return false,
    };
    let begin = match read(begin_address) {
        Some(b) => b,
        None => return false,
    };
    let end = match read(end_address) {
        Some(e) => e,
        None => return false,
    };
    if end < begin {
        return false;
    }
    let bytes = end - begin;
    if bytes % 8 != 0 || bytes / 8 > MAX_HOLDERS {
        return false;
    }
    holder_simulations(result, begin, bytes / 8, read, count, query)
}

/// The cloth simulations a character reaches, each once, in the order they
/// are first reached: through every current owner route of the scope
/// captured from its cloth pose (or its pose, when it has no cloth pose),
/// the route core's holders, their roots' child arrays and each child's
/// simulation. `None` when the scope is not the character's own, a route is
/// no longer current, a read fails, or a list is out of bounds.
pub fn simulations<
    R: Fn(usize) -> Option<usize>,
    C: Fn(usize) -> Option<i32>,
    Q: Fn(usize, usize) -> bool,
>(address: usize, pose: usize, cloth_pose: usize, base: usize, read: &R, count: &C, query: &Q) -> (sims:
    Option<Vec<usize>>)
    requires
        readers_total(*read, *count, *query),
    ensures
        forall|m: Image, c: CountImage, r: Readable|
            readers_as(*read, *count, *query, m, c, r) ==> match sims {
                Some(v) => spec_simulations(address, pose, cloth_pose, base, m, c, r) == Some(v@),
                None => spec_simulations(address, pose, cloth_pose, base, m, c, r) is None,
            },
{
    let anchor = if cloth_pose != 0 {
        cloth_pose
    } else {
        pose
    };
    let scope = Scope::capture_ref(address, anchor, base, read);
    if scope.player != address {
        return None;
    }
    let mut result: Vec<usize> = Vec::new();
    let mut index: usize = 0;
    while index < MODEL_SLOT_COUNT
        invariant
            0 <= index <= MODEL_SLOT_COUNT,
            readers_total(*read, *count, *query),
            scope.player == address,
            anchor == (if cloth_pose != 0 {
                cloth_pose
            } else {
                pose
            }),
            forall|m: Image| reads_as(*read, m) ==> scope@ == spec_capture(address, anchor, base, m),
            forall|m: Image, c: CountImage, r: Readable|
                readers_as(*read, *count, *query, m, c, r) ==> from_routes(
                    scope@,
                    index as nat,
                    base,
                    m,
                    c,
                    r,
                ) == Some(result@),
        decreases MODEL_SLOT_COUNT - index,
    {
        let ghost before = result@;
        if !route_simulations(&mut result, &scope, index, base, read, count, query) {
            proof {
                assert forall|m: Image, c: CountImage, r: Readable|
                    readers_as(*read, *count, *query, m, c, r) implies from_routes(
                        scope@,
                        MODEL_SLOT_COUNT as nat,
                        base,
                        m,
                        c,
                        r,
                    ) is None by {
                    assert(from_routes(scope@, index as nat, base, m, c, r) == Some(before));
                    assert(from_routes(scope@, (index + 1) as nat, base, m, c, r) is None);
                    lemma_routes_none(scope@, (index + 1) as nat, MODEL_SLOT_COUNT as nat, base, m, c, r);
                }
            }
            return None;
        }
        proof {
            assert forall|m: Image, c: CountImage, r: Readable|
                readers_as(*read, *count, *query, m, c, r) implies from_routes(
                    scope@,
                    (index + 1) as nat,
                    base,
                    m,
                    c,
                    r,
                ) == Some(result@) by {
                assert(from_routes(scope@, index as nat, base, m, c, r) == Some(before));
            }
        }
        index = index + 1;
    }
    Some(result)
}


/// Offset of the cloth simulation data vtable in the module.
pub const SIM_CLOTH_DATA_VTABLE_RVA: usize = 0x2D8B6F8;

/// Offset of the cloth collidable vtable in the module.
pub const COLLIDABLE_VTABLE_RVA: usize = 0x2D8B758;

/// The most collidables one simulation lists.
pub const MAX_COLLIDABLES: usize = 256;

/// Where each address lies in the module: its offset, or 0 outside it.
pub type ModuleOffsets = spec_fn(usize) -> usize;

/// The offset query answers as `f` does.
pub open spec fn offsets_as<F: Fn(usize) -> usize>(offset: F, f: ModuleOffsets) -> bool {
    forall|a: usize, r: usize| #[trigger] offset.ensures((a,), r) ==> r == f(a)
}

/// The offset query may be asked for any address.
pub open spec fn offsets_anywhere<F: Fn(usize) -> usize>(offset: F) -> bool {
    forall|a: usize| #[trigger] offset.requires((a,))
}

/// `s` with `x` added unless it is listed already.
pub open spec fn add_once(s: Seq<usize>, x: usize) -> Seq<usize> {
    if s.contains(x) {
        s
    } else {
        s.push(x)
    }
}

/// Collidables, supported shapes and unsupported shapes found so far.
pub type Found = (Seq<usize>, Seq<usize>, Seq<usize>);

/// What collidable `index` of the array at `array` adds: the collidable, and
/// its shape as supported or not; `None` when a read fails or the collidable
/// has another vtable.
pub open spec fn collidable_step(acc: Found, array: usize, index: int, m: Image, f: ModuleOffsets) -> Option<
    Found,
> {
    let slot = array + index * 8;
    if slot > usize::MAX {
        None
    } else {
        match m(slot as usize) {
            None => None,
            Some(collidable) => match m(collidable) {
                None => None,
                Some(vtable) => if f(vtable) != COLLIDABLE_VTABLE_RVA || collidable + 0x88 > usize::MAX {
                    None
                } else {
                    match m((collidable + 0x88) as usize) {
                        None => None,
                        Some(shape) => match m(shape) {
                            None => None,
                            Some(shape_vtable) => if spec_supported_shape(f(shape_vtable)) {
                                Some((add_once(acc.0, collidable), add_once(acc.1, shape), acc.2))
                            } else {
                                Some((add_once(acc.0, collidable), acc.1, add_once(acc.2, shape)))
                            },
                        },
                    }
                },
            },
        }
    }
}

/// What the first `n` collidables of the array at `array` add to `acc`.
pub open spec fn from_collidables(acc: Found, array: usize, n: nat, m: Image, f: ModuleOffsets) -> Option<
    Found,
>
    decreases n,
{
    if n == 0 {
        Some(acc)
    } else {
        match from_collidables(acc, array, (n - 1) as nat, m, f) {
            None => None,
            Some(s) => collidable_step(s, array, n - 1, m, f),
        }
    }
}

/// What a simulation adds: the collidables of its bounded collidable array;
/// `None` when it is not simulation data or a read fails.
pub open spec fn simulation_step(
    acc: Found,
    sim: usize,
    m: Image,
    c: CountImage,
    r: Readable,
    f: ModuleOffsets,
) -> Option<Found> {
    match m(sim) {
        None => None,
        Some(vtable) => if f(vtable) != SIM_CLOTH_DATA_VTABLE_RVA {
            None
        } else {
            match spec_array_span(sim, 0xD0, 0xD8, 8, MAX_COLLIDABLES, m, c, r) {
                None => None,
                Some((array, count)) => from_collidables(acc, array, count as nat, m, f),
            }
        },
    }
}

/// What the first `n` simulations add, from nothing found.
pub open spec fn from_simulations(
    sims: Seq<usize>,
    n: nat,
    m: Image,
    c: CountImage,
    r: Readable,
    f: ModuleOffsets,
) -> Option<Found>
    decreases n,
{
    if n == 0 {
        Some((Seq::empty(), Seq::empty(), Seq::empty()))
    } else {
        match from_simulations(sims, (n - 1) as nat, m, c, r, f) {
            None => None,
            Some(s) => simulation_step(s, sims[n - 1], m, c, r, f),
        }
    }
}

/// The live collision roots of some simulations: their collidables and
/// supported shapes, each once in the order first reached, and how many
/// distinct unsupported shapes they use.
pub open spec fn spec_collision_roots(
    sims: Seq<usize>,
    m: Image,
    c: CountImage,
    r: Readable,
    f: ModuleOffsets,
) -> Option<(Seq<usize>, Seq<usize>, nat)> {
    match from_simulations(sims, sims.len(), m, c, r, f) {
        None => None,
        Some(found) => Some((found.0, found.1, found.2.len())),
    }
}

proof fn lemma_collidables_none(acc: Found, array: usize, a: nat, b: nat, m: Image, f: ModuleOffsets)
    requires
        a <= b,
        from_collidables(acc, array, a, m, f) is None,
    ensures
        from_collidables(acc, array, b, m, f) is None,
    decreases b - a,
{
    if a < b {
        lemma_collidables_none(acc, array, a, (b - 1) as nat, m, f);
    }
}

proof fn lemma_simulations_none(
    sims: Seq<usize>,
    a: nat,
    b: nat,
    m: Image,
    c: CountImage,
    r: Readable,
    f: ModuleOffsets,
)
    requires
        a <= b,
        from_simulations(sims, a, m, c, r, f) is None,
    ensures
        from_simulations(sims, b, m, c, r, f) is None,
    decreases b - a,
{
    if a < b {
        lemma_simulations_none(sims, a, (b - 1) as nat, m, c, r, f);
    }
}

fn add_once_exec(v: &mut Vec<usize>, x: usize)
    ensures
        final(v)@ == add_once(old(v)@, x),
{
    if !contains(v, x) {
        v.push(x);
    }
}

fn read_collidable<R: Fn(usize) -> Option<usize>, O: Fn(usize) -> usize>(
    array: usize,
    index: usize,
    read: &R,
    offset: &O,
) -> (found: Option<(usize, usize, bool)>)
    requires
        reads_anywhere(*read),
        offsets_anywhere(*offset),
        index < MAX_COLLIDABLES,
    ensures
        forall|m: Image, f: ModuleOffsets, acc: Found|
            reads_as(*read, m) && offsets_as(*offset, f) ==> collidable_step(acc, array, index as int, m, f)
                == match found {
                None => None,
                Some((collidable, shape, supported)) => Some(
                    if supported {
                        (add_once(acc.0, collidable), add_once(acc.1, shape), acc.2)
                    } else {
                        (add_once(acc.0, collidable), acc.1, add_once(acc.2, shape))
                    },
                ),
            },
{
    let slot = match array.checked_add(index * 8) {
        Some(a) => a,
        None => return None,
    };
    let collidable = match read(slot) {
        Some(x) => x,
        None => return None,
    };
    let vtable = match read(collidable) {
        Some(x) => x,
        None => return None,
    };
    if offset(vtable) != COLLIDABLE_VTABLE_RVA {
        return None;
    }
    let shape_address = match collidable.checked_add(0x88) {
        Some(a) => a,
        None => return None,
    };
    let shape = match read(shape_address) {
        Some(x) => x,
        None => return None,
    };
    let shape_vtable = match read(shape) {
        Some(x) => x,
        None => return None,
    };
    let supported = is_supported_shape_vtable(offset(shape_vtable));
    Some((collidable, shape, supported))
}

fn simulation_collidables<
    R: Fn(usize) -> Option<usize>,
    C: Fn(usize) -> Option<i32>,
    Q: Fn(usize, usize) -> bool,
    O: Fn(usize) -> usize,
>(
    collidables: &mut Vec<usize>,
    shapes: &mut Vec<usize>,
    unsupported: &mut Vec<usize>,
    sim: usize,
    read: &R,
    count: &C,
    query: &Q,
    offset: &O,
) -> (ok: bool)
    requires
        readers_total(*read, *count, *query),
        offsets_anywhere(*offset),
    ensures
        forall|m: Image, c: CountImage, r: Readable, f: ModuleOffsets|
            readers_as(*read, *count, *query, m, c, r) && offsets_as(*offset, f) ==> if ok {
                simulation_step((old(collidables)@, old(shapes)@, old(unsupported)@), sim, m, c, r, f)
                    == Some((final(collidables)@, final(shapes)@, final(unsupported)@))
            } else {
                simulation_step((old(collidables)@, old(shapes)@, old(unsupported)@), sim, m, c, r, f)
                    is None
            },
{
    let ghost start: Found = (collidables@, shapes@, unsupported@);
    let vtable = match read(sim) {
        Some(v) => v,
        None => return false,
    };
    if offset(vtable) != SIM_CLOTH_DATA_VTABLE_RVA {
        return false;
    }
    let (array, n) = match array_span(sim, 0xD0, 0xD8, 8, MAX_COLLIDABLES, read, count, query) {
        Some(s) => s,
        None => return false,
    };
    let mut index: usize = 0;
    while index < n
        invariant
            0 <= index <= n,
            n <= MAX_COLLIDABLES,
            readers_total(*read, *count, *query),
            offsets_anywhere(*offset),
            start == (old(collidables)@, old(shapes)@, old(unsupported)@),
            forall|m: Image, c: CountImage, r: Readable, f: ModuleOffsets|
                readers_as(*read, *count, *query, m, c, r) && offsets_as(*offset, f)
                    ==> simulation_step(start, sim, m, c, r, f) == from_collidables(
                    start,
                    array,
                    n as nat,
                    m,
                    f,
                ),
            forall|m: Image, f: ModuleOffsets|
                reads_as(*read, m) && offsets_as(*offset, f) ==> from_collidables(
                    start,
                    array,
                    index as nat,
                    m,
                    f,
                ) == Some((collidables@, shapes@, unsupported@)),
        decreases n - index,
    {
        let ghost before: Found = (collidables@, shapes@, unsupported@);
        match read_collidable(array, index, read, offset) {
            None => {
                proof {
                    assert forall|m: Image, f: ModuleOffsets|
                        reads_as(*read, m) && offsets_as(*offset, f) implies from_collidables(
                        start,
                        array,
                        n as nat,
                        m,
                        f,
                    ) is None by {
                        assert(from_collidables(start, array, index as nat, m, f) == Some(before));
                        assert(collidable_step(before, array, index as int, m, f) is None);
                        assert(from_collidables(start, array, (index + 1) as nat, m, f) is None);
                        lemma_collidables_none(start, array, (index + 1) as nat, n as nat, m, f);
                    }
                }
                return false;
            },
            Some((collidable, shape, supported)) => {
                add_once_exec(collidables, collidable);
                if supported {
                    add_once_exec(shapes, shape);
                } else {
                    add_once_exec(unsupported, shape);
                }
                proof {
                    assert forall|m: Image, f: ModuleOffsets|
                        reads_as(*read, m) && offsets_as(*offset, f) implies from_collidables(
                        start,
                        array,
                        (index + 1) as nat,
                        m,
                        f,
                    ) == Some((collidables@, shapes@, unsupported@)) by {
                        assert(from_collidables(start, array, index as nat, m, f) == Some(before));
                        assert(collidable_step(before, array, index as int, m, f) == Some(
                            (collidables@, shapes@, unsupported@),
                        ));
                    }
                }
            },
        }
        index = index + 1;
    }
    true
}

/// The live collision roots of some simulations, as `spec_collision_roots`
/// states: every simulation must carry the simulation-data vtable and every
/// collidable the collidable vtable, each collidable array is bounded, and
/// any failed read yields `None`. Module offsets come from `offset`.
pub fn collision_roots<
    R: Fn(usize) -> Option<usize>,
    C: Fn(usize) -> Option<i32>,
    Q: Fn(usize, usize) -> bool,
    O: Fn(usize) -> usize,
>(sims: &Vec<usize>, read: &R, count: &C, query: &Q, offset: &O) -> (roots: Option<
    (Vec<usize>, Vec<usize>, usize),
>)
    requires
        readers_total(*read, *count, *query),
        offsets_anywhere(*offset),
    ensures
        forall|m: Image, c: CountImage, r: Readable, f: ModuleOffsets|
            readers_as(*read, *count, *query, m, c, r) && offsets_as(*offset, f) ==> match roots {
                Some((collidables, shapes, unsupported)) => spec_collision_roots(sims@, m, c, r, f)
                    == Some((collidables@, shapes@, unsupported as nat)),
                None => spec_collision_roots(sims@, m, c, r, f) is None,
            },
{
    let mut collidables: Vec<usize> = Vec::new();
    let mut shapes: Vec<usize> = Vec::new();
    let mut unsupported: Vec<usize> = Vec::new();
    let mut i: usize = 0;
    while i < sims.len()
        invariant
            0 <= i <= sims@.len(),
            readers_total(*read, *count, *query),
            offsets_anywhere(*offset),
            forall|m: Image, c: CountImage, r: Readable, f: ModuleOffsets|
                readers_as(*read, *count, *query, m, c, r) && offsets_as(*offset, f)
                    ==> from_simulations(sims@, i as nat, m, c, r, f) == Some(
                    (collidables@, shapes@, unsupported@),
                ),
        decreases sims@.len() - i,
    {
        let ghost before: Found = (collidables@, shapes@, unsupported@);
        let ok = simulation_collidables(
            &mut collidables,
            &mut shapes,
            &mut unsupported,
            sims[i],
            read,
            count,
            query,
            offset,
        );
        if !ok {
            proof {
                assert forall|m: Image, c: CountImage, r: Readable, f: ModuleOffsets|
                    readers_as(*read, *count, *query, m, c, r) && offsets_as(*offset, f)
                        implies from_simulations(sims@, sims@.len(), m, c, r, f) is None by {
                    assert(from_simulations(sims@, i as nat, m, c, r, f) == Some(before));
                    assert(from_simulations(sims@, (i + 1) as nat, m, c, r, f) is None);
                    lemma_simulations_none(sims@, (i + 1) as nat, sims@.len(), m, c, r, f);
                }
            }
            return None;
        }
        proof {
            assert forall|m: Image, c: CountImage, r: Readable, f: ModuleOffsets|
                readers_as(*read, *count, *query, m, c, r) && offsets_as(*offset, f)
                    implies from_simulations(sims@, (i + 1) as nat, m, c, r, f) == Some(
                    (collidables@, shapes@, unsupported@),
                ) by {
                assert(from_simulations(sims@, i as nat, m, c, r, f) == Some(before));
            }
        }
        i = i + 1;
    }
    let n = unsupported.len();
    Some((collidables, shapes, n))
}


/// Why a consumer's cloth cannot be shared safely.
#[derive(Clone, Copy, Debug, PartialEq, Eq, Structural)]
pub enum ConsumerRejection {
    /// Its owner routes or simulations could not be read.
    TopologyUnreadable,
    /// The collidables of its simulations could not be read.
    CollisionsUnreadable,
    /// One of its collidables uses a shape of an unsupported kind.
    ShapeUnsupported,
}

/// The roots a consumer owns, and why it is rejected, if it is.
pub struct ConsumerRoots {
    pub roots: Vec<usize>,
    pub rejection: Option<ConsumerRejection>,
}

/// A consumer owns its simulations, then, when their collidables can be
/// read, those collidables and their supported shapes. Simulations stay
/// owned when the collidables cannot be read.
pub open spec fn spec_consumer_roots(
    address: usize,
    pose: usize,
    cloth_pose: usize,
    base: usize,
    m: Image,
    c: CountImage,
    r: Readable,
    f: ModuleOffsets,
) -> (Seq<usize>, Option<ConsumerRejection>) {
    match spec_simulations(address, pose, cloth_pose, base, m, c, r) {
        None => (Seq::empty(), Some(ConsumerRejection::TopologyUnreadable)),
        Some(sims) => match spec_collision_roots(sims, m, c, r, f) {
            None => (sims, Some(ConsumerRejection::CollisionsUnreadable)),
            Some((collidables, shapes, unsupported)) => (
                sims + collidables + shapes,
                if unsupported != 0 {
                    Some(ConsumerRejection::ShapeUnsupported)
                } else {
                    None
                },
            ),
        },
    }
}

fn append(to: &mut Vec<usize>, from: &Vec<usize>)
    ensures
        final(to)@ == old(to)@ + from@,
{
    let mut k: usize = 0;
    while k < from.len()
        invariant
            0 <= k <= from@.len(),
            to@ == old(to)@ + from@.subrange(0, k as int),
        decreases from@.len() - k,
    {
        to.push(from[k]);
        proof {
            assert(from@.subrange(0, k + 1) =~= from@.subrange(0, k as int).push(from@[k as int]));
        }
        k = k + 1;
    }
    proof {
        assert(from@.subrange(0, from@.len() as int) =~= from@);
    }
}

/// The roots one consumer owns and why it is rejected, as
/// `spec_consumer_roots` states.
pub fn consumer_roots<
    R: Fn(usize) -> Option<usize>,
    C: Fn(usize) -> Option<i32>,
    Q: Fn(usize, usize) -> bool,
    O: Fn(usize) -> usize,
>(
    address: usize,
    pose: usize,
    cloth_pose: usize,
    base: usize,
    read: &R,
    count: &C,
    query: &Q,
    offset: &O,
) -> (owned: ConsumerRoots)
    requires
        readers_total(*read, *count, *query),
        offsets_anywhere(*offset),
    ensures
        forall|m: Image, c: CountImage, r: Readable, f: ModuleOffsets|
            readers_as(*read, *count, *query, m, c, r) && offsets_as(*offset, f) ==> (owned.roots@,
            owned.rejection) == spec_consumer_roots(address, pose, cloth_pose, base, m, c, r, f),
{
    let sims = match simulations(address, pose, cloth_pose, base, read, count, query) {
        Some(sims) => sims,
        None => {
            return ConsumerRoots {
                roots: Vec::new(),
                rejection: Some(ConsumerRejection::TopologyUnreadable),
            };
        },
    };
    match collision_roots(&sims, read, count, query, offset) {
        None => ConsumerRoots { roots: sims, rejection: Some(ConsumerRejection::CollisionsUnreadable) },
        Some((collidables, shapes, unsupported)) => {
            let mut roots = sims;
            append(&mut roots, &collidables);
            append(&mut roots, &shapes);
            ConsumerRoots {
                roots,
                rejection: if unsupported != 0 {
                    Some(ConsumerRejection::ShapeUnsupported)
                } else {
                    None
                },
            }
        },
    }
}

} // verus!

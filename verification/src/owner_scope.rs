//! Equipment ownership of cloth instances: which cloth owners belong to a
//! character, found through the native model slots, never by pose-input
//! equality or spatial proximity.
//!
//! Memory is reached only through a word reader. Every contract states what
//! holds of whatever the reader answers, and, for a reader that answers as a
//! fixed memory image `m`, the exact result as a spec function of `m`.
use vstd::prelude::*;

verus! {

/// Offset of the equipment assembly vtable in the module.
pub const ASSEMBLY_VTABLE_RVA: usize = 0x2B35980;
/// Offset of the equipment model vtable in the module.
pub const EQUIPMENT_VTABLE_RVA: usize = 0x2B36718;
/// Offset of the non-player character vtable in the module.
pub const ENEMY_VTABLE_RVA: usize = 0x2A47090;
/// Offset of the character model vtable in the module.
pub const CHARACTER_MODEL_VTABLE_RVA: usize = 0x2B35C68;
/// The number of equipment model slots of an assembly.
pub const MODEL_SLOT_COUNT: usize = 27;
/// Offset of the cloth owner vtable in the module.
pub const OWNER_VTABLE_RVA: usize = 0x2B92A60;
/// Offset of the cloth input vtable in the module.
pub const INPUT_VTABLE_RVA: usize = 0x2B70360;
/// Offset of the inner cloth object vtable in the module.
pub const INNER_VTABLE_RVA: usize = 0x329A2F8;

/// A memory image: what a word read at each address answers.
pub type Image = spec_fn(usize) -> Option<usize>;

/// The reader answers every read as the image `m` does.
pub open spec fn reads_as<F: Fn(usize) -> Option<usize>>(read: F, m: Image) -> bool {
    forall|a: usize, r: Option<usize>| #[trigger] read.ensures((a,), r) ==> r == m(a)
}

/// The reader may be asked for any address.
pub open spec fn reads_anywhere<F: Fn(usize) -> Option<usize>>(read: F) -> bool {
    forall|a: usize| #[trigger] read.requires((a,))
}

/// Address arithmetic as the native code performs it: modulo the word size.
pub open spec fn at(a: usize, offset: usize) -> usize {
    if a + offset > usize::MAX {
        (a + offset - usize::MAX - 1) as usize
    } else {
        (a + offset) as usize
    }
}

/// A missing word reads as the null pointer.
pub open spec fn word(m: Image, a: usize) -> usize {
    match m(a) {
        Some(v) => v,
        None => 0,
    }
}

fn offset_address(a: usize, offset: usize) -> (r: usize)
    ensures
        r == at(a, offset),
{
    a.wrapping_add(offset)
}

fn word_or_null<F: Fn(usize) -> Option<usize>>(read: &F, a: usize) -> (r: usize)
    requires
        reads_anywhere(*read),
    ensures
        forall|m: Image| reads_as(*read, m) ==> r == word(m, a),
{
    let v = read(a);
    match v {
        Some(x) => x,
        None => 0,
    }
}

fn reads_exactly<F: Fn(usize) -> Option<usize>>(read: &F, a: usize, expected: usize) -> (r: bool)
    requires
        reads_anywhere(*read),
    ensures
        forall|m: Image| reads_as(*read, m) ==> r == (m(a) == Some(expected)),
{
    let v = read(a);
    match v {
        Some(x) => x == expected,
        None => false,
    }
}

/// One cloth owner reached through a model slot.
#[derive(Clone, Copy, Debug, PartialEq, Eq, Structural)]
pub struct Route {
    pub slot_address: usize,
    pub model: usize,
    pub owner: usize,
    pub input: usize,
    pub inner: usize,
    pub core: usize,
}

impl Route {
    /// The route with every address null.
    pub open spec fn null() -> Route {
        Route { slot_address: 0, model: 0, owner: 0, input: 0, inner: 0, core: 0 }
    }

    /// The route with every address null.
    pub fn empty() -> (r: Route)
        ensures
            r == Route::null(),
    {
        Route { slot_address: 0, model: 0, owner: 0, input: 0, inner: 0, core: 0 }
    }
}

/// The cloth owners of one character, one per model slot.
#[derive(Clone, Copy, Debug)]
pub struct Scope {
    pub player: usize,
    pub player_model: usize,
    pub assembly: usize,
    pub anchor: usize,
    pub routes: [Route; MODEL_SLOT_COUNT],
}

/// The mathematical value of a scope.
pub struct ScopeView {
    pub player: usize,
    pub player_model: usize,
    pub assembly: usize,
    pub anchor: usize,
    pub routes: Seq<Route>,
}

impl View for Scope {
    type V = ScopeView;

    open spec fn view(&self) -> ScopeView {
        ScopeView {
            player: self.player,
            player_model: self.player_model,
            assembly: self.assembly,
            anchor: self.anchor,
            routes: self.routes@,
        }
    }
}

/// One null route per model slot.
pub open spec fn null_routes() -> Seq<Route> {
    Seq::new(MODEL_SLOT_COUNT as nat, |i: int| Route::null())
}

/// The scope that names nothing.
pub open spec fn empty_scope() -> ScopeView {
    ScopeView { player: 0, player_model: 0, assembly: 0, anchor: 0, routes: null_routes() }
}

/// The root of a scope still names the same character, model and assembly.
pub open spec fn spec_root_is_current(s: ScopeView, base: usize, m: Image) -> bool {
    if s.assembly == 0 {
        &&& s.player != 0
        &&& s.player_model != 0
        &&& m(s.player) == Some(at(base, ENEMY_VTABLE_RVA))
        &&& m(at(s.player, 0x50)) == Some(s.player_model)
        &&& m(s.player_model) == Some(at(base, CHARACTER_MODEL_VTABLE_RVA))
    } else {
        &&& s.player != 0
        &&& s.assembly != 0
        &&& s.player_model != 0
        &&& m(at(s.player, 0x648)) == Some(s.assembly)
        &&& m(at(s.player, 0x50)) == Some(s.player_model)
        &&& m(s.assembly) == Some(at(base, ASSEMBLY_VTABLE_RVA))
        &&& m(at(s.assembly, 8)) == Some(s.player_model)
    }
}

/// Every link of a route still holds, and its root is current.
pub open spec fn spec_route_is_current(s: ScopeView, route: Route, base: usize, m: Image) -> bool {
    &&& route.owner != 0
    &&& spec_root_is_current(s, base, m)
    &&& m(route.slot_address) == Some(route.model)
    &&& m(route.model) == Some(
        at(
            base,
            if s.assembly == 0 {
                CHARACTER_MODEL_VTABLE_RVA
            } else {
                EQUIPMENT_VTABLE_RVA
            },
        ),
    )
    &&& m(at(route.model, 0x130)) == Some(route.owner)
    &&& m(route.owner) == Some(at(base, OWNER_VTABLE_RVA))
    &&& m(at(route.owner, 0x120)) == Some(route.input)
    &&& m(at(route.owner, 0x40)) == Some(route.inner)
    &&& m(route.input) == Some(at(base, INPUT_VTABLE_RVA))
    &&& m(route.inner) == Some(at(base, INNER_VTABLE_RVA))
    &&& m(at(route.inner, 0x30)) == Some(route.core)
}

/// The address held in equipment slot `index` of an assembly.
pub open spec fn slot_address(assembly: usize, index: nat) -> usize {
    at(at(assembly, 0x28), (index * 8) as usize)
}

/// The route that equipment slot `index` of an assembly leads to, if its
/// model, owner, input and inner object carry the expected vtables.
pub open spec fn spec_slot_candidate(assembly: usize, base: usize, m: Image, index: nat) -> Option<
    Route,
> {
    let slot = slot_address(assembly, index);
    let model = word(m, slot);
    if model == 0 || m(model) != Some(at(base, EQUIPMENT_VTABLE_RVA)) {
        None
    } else {
        let owner = word(m, at(model, 0x130));
        if owner == 0 || m(owner) != Some(at(base, OWNER_VTABLE_RVA)) {
            None
        } else {
            let input = word(m, at(owner, 0x120));
            let inner = word(m, at(owner, 0x40));
            let core = word(m, at(inner, 0x30));
            if input == 0 || inner == 0 || core == 0 || m(input) != Some(
                at(base, INPUT_VTABLE_RVA),
            ) || m(inner) != Some(at(base, INNER_VTABLE_RVA)) {
                None
            } else {
                Some(Route { slot_address: slot, model, owner, input, inner, core })
            }
        }
    }
}

/// Some route already has owner `owner`.
pub open spec fn owner_taken(routes: Seq<Route>, owner: usize) -> bool {
    exists|j: int| 0 <= j < routes.len() && #[trigger] routes[j].owner == owner
}

/// The routes after the first `n` slots were examined: a slot keeps its
/// candidate when the candidate is current and its owner is not yet taken.
pub open spec fn spec_fill(root: ScopeView, base: usize, m: Image, n: nat) -> Seq<Route>
    decreases n,
{
    if n == 0 {
        null_routes()
    } else {
        let previous = spec_fill(root, base, m, (n - 1) as nat);
        match spec_slot_candidate(root.assembly, base, m, (n - 1) as nat) {
            Some(route) => if spec_route_is_current(root, route, base, m) && !owner_taken(
                previous,
                route.owner,
            ) {
                previous.update(n - 1, route)
            } else {
                previous
            },
            None => previous,
        }
    }
}

/// The scope of a non-player character: its own model's cloth owner, with
/// no player equipment assembly.
pub open spec fn spec_capture_character(
    character: usize,
    anchor: usize,
    base: usize,
    m: Image,
) -> ScopeView {
    let model = word(m, at(character, 0x50));
    if model == 0 || m(model) != Some(at(base, CHARACTER_MODEL_VTABLE_RVA)) {
        empty_scope()
    } else {
        let scope = ScopeView {
            player: character,
            player_model: model,
            assembly: 0,
            anchor,
            routes: null_routes(),
        };
        let owner = word(m, at(model, 0x130));
        if owner == 0 {
            scope
        } else {
            let input = word(m, at(owner, 0x120));
            let inner = word(m, at(owner, 0x40));
            let core = if inner != 0 {
                word(m, at(inner, 0x30))
            } else {
                0
            };
            let route = Route {
                slot_address: at(character, 0x50),
                model,
                owner,
                input,
                inner,
                core,
            };
            if input != 0 && inner != 0 && core != 0 && spec_route_is_current(
                scope,
                route,
                base,
                m,
            ) {
                ScopeView { routes: null_routes().update(0, route), ..scope }
            } else {
                scope
            }
        }
    }
}

/// The scope of a character as captured from the memory image `m`.
pub open spec fn spec_capture(player: usize, anchor: usize, base: usize, m: Image) -> ScopeView {
    if player == 0 || anchor == 0 || base == 0 {
        empty_scope()
    } else if m(player) == Some(at(base, ENEMY_VTABLE_RVA)) {
        spec_capture_character(player, anchor, base, m)
    } else {
        let assembly = word(m, at(player, 0x648));
        let model = word(m, at(player, 0x50));
        if assembly == 0 || model == 0 || m(assembly) != Some(at(base, ASSEMBLY_VTABLE_RVA)) || m(
            at(assembly, 8),
        ) != Some(model) {
            empty_scope()
        } else {
            let root = ScopeView {
                player,
                player_model: model,
                assembly,
                anchor,
                routes: null_routes(),
            };
            let filled = ScopeView {
                routes: spec_fill(root, base, m, MODEL_SLOT_COUNT as nat),
                ..root
            };
            if spec_root_is_current(filled, base, m) {
                filled
            } else {
                empty_scope()
            }
        }
    }
}

/// The first route, in slot order, with the given owner and input.
pub open spec fn spec_find_from(routes: Seq<Route>, owner: usize, input: usize, i: nat) -> Option<
    Route,
>
    decreases routes.len() - i,
{
    if i >= routes.len() {
        None
    } else if owner != 0 && input != 0 && routes[i as int].owner == owner && routes[i as int].input
        == input {
        Some(routes[i as int])
    } else {
        spec_find_from(routes, owner, input, i + 1)
    }
}

impl Scope {
    /// The scope with no character and no routes.
    pub fn empty() -> (s: Scope)
        ensures
            s@ == empty_scope(),
    {
        let r = Route::empty();
        let s = Scope { player: 0, player_model: 0, assembly: 0, anchor: 0, routes: [r; MODEL_SLOT_COUNT] };
        assert(s.routes@ =~= null_routes());
        s
    }

    fn root_is_current_ref<F: Fn(usize) -> Option<usize>>(&self, base: usize, read: &F) -> (r: bool)
        requires
            reads_anywhere(*read),
        ensures
            forall|m: Image| reads_as(*read, m) ==> r == spec_root_is_current(self@, base, m),
    {
        if self.assembly == 0 {
            return self.player != 0 && self.player_model != 0 && reads_exactly(
                read,
                self.player,
                offset_address(base, ENEMY_VTABLE_RVA),
            ) && reads_exactly(read, offset_address(self.player, 0x50), self.player_model) && reads_exactly(
                read,
                self.player_model,
                offset_address(base, CHARACTER_MODEL_VTABLE_RVA),
            );
        }
        self.player != 0 && self.assembly != 0 && self.player_model != 0 && reads_exactly(
            read,
            offset_address(self.player, 0x648),
            self.assembly,
        ) && reads_exactly(read, offset_address(self.player, 0x50), self.player_model) && reads_exactly(
            read,
            self.assembly,
            offset_address(base, ASSEMBLY_VTABLE_RVA),
        ) && reads_exactly(read, offset_address(self.assembly, 8), self.player_model)
    }

    pub(crate) fn route_is_current_ref<F: Fn(usize) -> Option<usize>>(
        &self,
        route: Route,
        base: usize,
        read: &F,
    ) -> (r: bool)
        requires
            reads_anywhere(*read),
        ensures
            forall|m: Image| reads_as(*read, m) ==> r == spec_route_is_current(self@, route, base, m),
    {
        let model_vtable = offset_address(
            base,
            if self.assembly == 0 {
                CHARACTER_MODEL_VTABLE_RVA
            } else {
                EQUIPMENT_VTABLE_RVA
            },
        );
        route.owner != 0 && self.root_is_current_ref(base, read) && reads_exactly(
            read,
            route.slot_address,
            route.model,
        ) && reads_exactly(read, route.model, model_vtable) && reads_exactly(
            read,
            offset_address(route.model, 0x130),
            route.owner,
        ) && reads_exactly(read, route.owner, offset_address(base, OWNER_VTABLE_RVA)) && reads_exactly(
            read,
            offset_address(route.owner, 0x120),
            route.input,
        ) && reads_exactly(read, offset_address(route.owner, 0x40), route.inner) && reads_exactly(
            read,
            route.input,
            offset_address(base, INPUT_VTABLE_RVA),
        ) && reads_exactly(read, route.inner, offset_address(base, INNER_VTABLE_RVA)) && reads_exactly(
            read,
            offset_address(route.inner, 0x30),
            route.core,
        )
    }

    /// Whether a route captured into this scope still holds in memory: the
    /// character, model, assembly and every link of the route are unchanged.
    pub fn route_is_current(
        &self,
        route: Route,
        base: usize,
        read: impl Fn(usize) -> Option<usize>,
    ) -> (r: bool)
        requires
            reads_anywhere(read),
        ensures
            forall|m: Image| reads_as(read, m) ==> r == spec_route_is_current(self@, route, base, m),
    {
        self.route_is_current_ref(route, base, &read)
    }

    fn owner_in(&self, owner: usize) -> (r: bool)
        ensures
            r == owner_taken(self@.routes, owner),
    {
        let mut i: usize = 0;
        while i < MODEL_SLOT_COUNT
            invariant
                0 <= i <= MODEL_SLOT_COUNT,
                self.routes@.len() == MODEL_SLOT_COUNT,
                forall|j: int| 0 <= j < i ==> self.routes@[j].owner != owner,
            decreases MODEL_SLOT_COUNT - i,
        {
            if self.routes[i].owner == owner {
                return true;
            }
            i = i + 1;
        }
        false
    }

    fn capture_character<F: Fn(usize) -> Option<usize>>(
        character: usize,
        anchor: usize,
        base: usize,
        read: &F,
    ) -> (s: Scope)
        requires
            reads_anywhere(*read),
        ensures
            forall|m: Image| reads_as(*read, m) ==> s@ == spec_capture_character(
                character,
                anchor,
                base,
                m,
            ),
    {
        let model = word_or_null(read, offset_address(character, 0x50));
        if model == 0 || !reads_exactly(
            read,
            model,
            offset_address(base, CHARACTER_MODEL_VTABLE_RVA),
        ) {
            return Scope::empty();
        }
        let mut scope = Scope::empty();
        scope.player = character;
        scope.player_model = model;
        scope.anchor = anchor;
        let owner = word_or_null(read, offset_address(model, 0x130));
        if owner == 0 {
            return scope;
        }
        // A character may legitimately have no cloth.
        let input = word_or_null(read, offset_address(owner, 0x120));
        let inner = word_or_null(read, offset_address(owner, 0x40));
        let core = if inner != 0 {
            word_or_null(read, offset_address(inner, 0x30))
        } else {
            0
        };
        let route = Route {
            slot_address: offset_address(character, 0x50),
            model,
            owner,
            input,
            inner,
            core,
        };
        if input != 0 && inner != 0 && core != 0 && scope.route_is_current_ref(route, base, read) {
            scope.routes[0] = route;
        }
        proof {
            assert forall|m: Image| reads_as(*read, m) implies scope@ == spec_capture_character(
                character,
                anchor,
                base,
                m,
            ) by {
                let expected = spec_capture_character(character, anchor, base, m);
                assert(scope@.routes =~= expected.routes);
            }
        }
        scope
    }

    /// Captures the cloth owners of a character. A non-player character uses
    /// its own model's cloth member; a player uses the equipment slots of its
    /// model assembly, keeping each owner once and only while every link of
    /// its route is current. A root that is not current yields the empty scope.
    pub fn capture(
        player: usize,
        anchor: usize,
        base: usize,
        read: impl Fn(usize) -> Option<usize>,
    ) -> (s: Scope)
        requires
            reads_anywhere(read),
        ensures
            forall|m: Image| reads_as(read, m) ==> s@ == spec_capture(player, anchor, base, m),
    {
        Self::capture_ref(player, anchor, base, &read)
    }

    pub(crate) fn capture_ref<F: Fn(usize) -> Option<usize>>(
        player: usize,
        anchor: usize,
        base: usize,
        read: &F,
    ) -> (s: Scope)
        requires
            reads_anywhere(*read),
        ensures
            forall|m: Image| reads_as(*read, m) ==> s@ == spec_capture(player, anchor, base, m),
    {
        if player == 0 || anchor == 0 || base == 0 {
            return Scope::empty();
        }
        if reads_exactly(read, player, offset_address(base, ENEMY_VTABLE_RVA)) {
            return Self::capture_character(player, anchor, base, read);
        }
        let assembly = word_or_null(read, offset_address(player, 0x648));
        let model = word_or_null(read, offset_address(player, 0x50));
        if assembly == 0 || model == 0 || !reads_exactly(
            read,
            assembly,
            offset_address(base, ASSEMBLY_VTABLE_RVA),
        ) || !reads_exactly(read, offset_address(assembly, 8), model) {
            return Scope::empty();
        }
        let mut result = Scope::empty();
        result.player = player;
        result.player_model = model;
        result.assembly = assembly;
        result.anchor = anchor;
        let ghost root = result@;
        let mut index: usize = 0;
        while index < MODEL_SLOT_COUNT
            invariant
                reads_anywhere(*read),
                0 <= index <= MODEL_SLOT_COUNT,
                result.player == player,
                result.player_model == model,
                result.assembly == assembly,
                result.anchor == anchor,
                assembly != 0,
                root == (ScopeView {
                    player,
                    player_model: model,
                    assembly,
                    anchor,
                    routes: null_routes(),
                }),
                forall|m: Image| reads_as(*read, m) ==> result@.routes == spec_fill(
                    root,
                    base,
                    m,
                    index as nat,
                ),
            decreases MODEL_SLOT_COUNT - index,
        {
            let ghost before = result@.routes;
            let slot = offset_address(offset_address(assembly, 0x28), index * 8);
            let slot_model = word_or_null(read, slot);
            if slot_model == 0 || !reads_exactly(
                read,
                slot_model,
                offset_address(base, EQUIPMENT_VTABLE_RVA),
            ) {
                index = index + 1;
                continue;
            }
            let owner = word_or_null(read, offset_address(slot_model, 0x130));
            if owner == 0 || !reads_exactly(read, owner, offset_address(base, OWNER_VTABLE_RVA)) {
                index = index + 1;
                continue;
            }
            let input = word_or_null(read, offset_address(owner, 0x120));
            let inner = word_or_null(read, offset_address(owner, 0x40));
            let core = word_or_null(read, offset_address(inner, 0x30));
            if input == 0 || inner == 0 || core == 0 || !reads_exactly(
                read,
                input,
                offset_address(base, INPUT_VTABLE_RVA),
            ) || !reads_exactly(read, inner, offset_address(base, INNER_VTABLE_RVA)) {
                index = index + 1;
                continue;
            }
            let route = Route { slot_address: slot, model: slot_model, owner, input, inner, core };
            let current = result.route_is_current_ref(route, base, read);
            if current && !result.owner_in(owner) {
                result.routes[index] = route;
            }
            index = index + 1;
        }
        if !result.root_is_current_ref(base, read) {
            return Scope::empty();
        }
        result
    }

    /// The first route with the given nonzero owner and input, in slot order.
    pub fn find(&self, owner: usize, input: usize) -> (r: Option<Route>)
        ensures
            r == spec_find_from(self@.routes, owner, input, 0),
    {
        let mut i: usize = 0;
        while i < MODEL_SLOT_COUNT
            invariant
                0 <= i <= MODEL_SLOT_COUNT,
                self.routes@.len() == MODEL_SLOT_COUNT,
                spec_find_from(self@.routes, owner, input, 0) == spec_find_from(
                    self@.routes,
                    owner,
                    input,
                    i as nat,
                ),
            decreases MODEL_SLOT_COUNT - i,
        {
            let route = self.routes[i];
            if owner != 0 && input != 0 && route.owner == owner && route.input == input {
                return Some(route);
            }
            i = i + 1;
        }
        None
    }
}


/// Every route with an owner is current.
pub open spec fn routes_sound(s: ScopeView, base: usize, m: Image) -> bool {
    &&& s.routes.len() == MODEL_SLOT_COUNT
    &&& forall|i: int|
        0 <= i < s.routes.len() && (#[trigger] s.routes[i]).owner != 0 ==> spec_route_is_current(
            s,
            s.routes[i],
            base,
            m,
        )
    &&& forall|i: int, j: int|
        0 <= i < s.routes.len() && 0 <= j < s.routes.len() && i != j && (#[trigger] s.routes[i]).owner
            != 0 ==> s.routes[i].owner != (#[trigger] s.routes[j]).owner
}

proof fn lemma_fill_sound(root: ScopeView, base: usize, m: Image, n: nat)
    requires
        n <= MODEL_SLOT_COUNT,
    ensures
        routes_sound(ScopeView { routes: spec_fill(root, base, m, n), ..root }, base, m),
        forall|i: int| n <= i < MODEL_SLOT_COUNT ==> #[trigger] spec_fill(root, base, m, n)[i] == Route::null(),
    decreases n,
{
    if n > 0 {
        lemma_fill_sound(root, base, m, (n - 1) as nat);
    }
}

/// Every route of a captured scope is current in the image it was captured
/// from, and no cloth owner is reached through two slots.
pub proof fn captured_routes_are_current_and_distinct(
    player: usize,
    anchor: usize,
    base: usize,
    m: Image,
)
    ensures
        routes_sound(spec_capture(player, anchor, base, m), base, m),
{
    let s = spec_capture(player, anchor, base, m);
    if player == 0 || anchor == 0 || base == 0 {
    } else if m(player) == Some(at(base, ENEMY_VTABLE_RVA)) {
        assert(s.routes.len() == MODEL_SLOT_COUNT);
    } else {
        let assembly = word(m, at(player, 0x648));
        let model = word(m, at(player, 0x50));
        if !(assembly == 0 || model == 0 || m(assembly) != Some(at(base, ASSEMBLY_VTABLE_RVA)) || m(
            at(assembly, 8),
        ) != Some(model)) {
            let root = ScopeView {
                player,
                player_model: model,
                assembly,
                anchor,
                routes: null_routes(),
            };
            lemma_fill_sound(root, base, m, MODEL_SLOT_COUNT as nat);
        }
    }
}

/// A non-player character never goes through a player equipment assembly:
/// its scope has no assembly and at most the route of its own model slot.
pub proof fn non_player_scope_has_only_its_model_route(
    character: usize,
    anchor: usize,
    base: usize,
    m: Image,
)
    requires
        character != 0,
        anchor != 0,
        base != 0,
        m(character) == Some(at(base, ENEMY_VTABLE_RVA)),
    ensures
        spec_capture(character, anchor, base, m).assembly == 0,
        forall|i: int|
            1 <= i < MODEL_SLOT_COUNT ==> #[trigger] spec_capture(character, anchor, base, m).routes[i]
                == Route::null(),
        spec_capture(character, anchor, base, m).routes[0].owner != 0 ==> spec_capture(
            character,
            anchor,
            base,
            m,
        ).routes[0].slot_address == at(character, 0x50),
{
}

/// Replacing a character's model pointer invalidates every route captured
/// for it.
pub proof fn replaced_model_invalidates_routes(
    s: ScopeView,
    route: Route,
    base: usize,
    m: Image,
    replacement: usize,
)
    requires
        replacement != s.player_model,
    ensures
        !spec_route_is_current(
            s,
            route,
            base,
            |a: usize|
                if a == at(s.player, 0x50) {
                    Some(replacement)
                } else {
                    m(a)
                },
        ),
{
}

/// A route found by owner and input carries that owner and input.
pub proof fn found_route_matches(routes: Seq<Route>, owner: usize, input: usize, i: nat)
    ensures
        spec_find_from(routes, owner, input, i) matches Some(r) ==> r.owner == owner && r.input
            == input && owner != 0 && input != 0 && routes.contains(r),
    decreases routes.len() - i,
{
    if i < routes.len() {
        if !(owner != 0 && input != 0 && routes[i as int].owner == owner && routes[i as int].input
            == input) {
            found_route_matches(routes, owner, input, i + 1);
        }
    }
}

} // verus!

//! User scale rules, validated once and resolved against each subject's own
//! facts in file order, never against a global player.
//!
//! Scales are carried as the bit patterns of `f32` values; a valid scale is
//! a finite number greater than zero.
use vstd::prelude::*;

verus! {

/// Configuration format version this library reads.
pub const CONFIG_VERSION: u32 = 1;
/// Bit pattern of the unit scale `1.0f32`.
pub const UNIT_SCALE_BITS: u32 = 0x3F80_0000;
/// Bit pattern of `+inf`; every positive finite `f32` lies strictly below it.
pub const POSITIVE_INFINITY_BITS: u32 = 0x7F80_0000;

/// Whom a rule applies to.
#[derive(Clone, Copy, Debug, PartialEq, Eq, Structural)]
pub enum TargetKind {
    Player,
    Enemy,
}

/// How a rule decides its scale: by an active special effect, or always.
#[derive(Clone, Copy, Debug, PartialEq, Eq, Structural)]
pub enum Mode {
    Speffect,
    Constant,
}

/// Whether one category of subjects is scaled at all.
#[derive(Debug)]
pub struct TargetSwitch {
    pub enabled: bool,
}

/// One scale rule: whom it applies to and what scale it gives.
#[derive(Debug)]
pub struct Rule {
    pub name: String,
    pub target: TargetKind,
    pub mode: Mode,
    pub sp_effect_id: Option<i32>,
    pub scale_bits: u32,
    pub character_ids: Option<Vec<u32>>,
    pub npc_param_ids: Option<Vec<i32>>,
    pub entity_ids: Option<Vec<u32>>,
    pub hostile_only: bool,
}

/// A configuration: its version, switches and rules in file order.
#[derive(Debug)]
pub struct Config {
    pub version: u32,
    pub enabled: bool,
    pub player: TargetSwitch,
    pub enemies: TargetSwitch,
    pub rules: Vec<Rule>,
}

/// What is known of the subject a scale is resolved for.
#[derive(Clone, Copy, Debug)]
pub struct UnitFacts {
    pub kind: TargetKind,
    pub character_id: u32,
    pub npc_param_id: i32,
    pub entity_id: u32,
}

/// The rule that applies and the scale it gives; no rule gives unit scale.
#[derive(Clone, Copy, Debug, PartialEq, Eq, Structural)]
pub struct Selection {
    pub rule: Option<usize>,
    pub scale_bits: u32,
}

impl Selection {
/// No rule, unit scale.
    pub open spec fn none() -> Selection {
        Selection { rule: None, scale_bits: UNIT_SCALE_BITS }
    }

    /// No rule, unit scale.
    pub fn unit() -> (s: Selection)
        ensures
            s == Selection::none(),
    {
        Selection { rule: None, scale_bits: UNIT_SCALE_BITS }
    }
}

/// Why a configuration is refused.
#[derive(Clone, Copy, Debug, PartialEq, Eq, Structural)]
pub enum RuleProblem {
    EmptyName,
    DuplicateName,
    InvalidScale,
    HostileOnlyRequiresEnemy,
    EffectIdMismatch,
    InvalidCharacterIds,
    InvalidNpcParamIds,
    InvalidEntityIds,
}

/// Why a configuration is refused: its version, or the first problem of a rule.
#[derive(Clone, Copy, Debug, PartialEq, Eq, Structural)]
pub enum ConfigError {
    UnsupportedVersion(u32),
    Rule { index: usize, problem: RuleProblem },
}

/// The bit pattern of a finite `f32` greater than zero.
pub open spec fn spec_valid_scale_bits(bits: u32) -> bool {
    0 < bits < POSITIVE_INFINITY_BITS
}

/// Whether a scale is finite and greater than zero, read from its bits:
/// the sign bit clear, the exponent not all ones, and not positive zero.
pub fn valid_scale_bits(bits: u32) -> (r: bool)
    ensures
        r == spec_valid_scale_bits(bits),
{
    bits != 0 && bits < POSITIVE_INFINITY_BITS
}

/// The Unicode `White_Space` property, as `char::is_whitespace` reports it.
pub open spec fn spec_white_space(c: char) -> bool {
    let v = c as u32;
    (0x09 <= v <= 0x0D) || v == 0x20 || v == 0x85 || v == 0xA0 || v == 0x1680 || (0x2000 <= v
        <= 0x200A) || v == 0x2028 || v == 0x2029 || v == 0x202F || v == 0x205F || v == 0x3000
}

/// Whether a character is Unicode white space.
pub fn is_white_space(c: char) -> (r: bool)
    ensures
        r == spec_white_space(c),
{
    let v = c as u32;
    (0x09 <= v && v <= 0x0D) || v == 0x20 || v == 0x85 || v == 0xA0 || v == 0x1680 || (0x2000 <= v
        && v <= 0x200A) || v == 0x2028 || v == 0x2029 || v == 0x202F || v == 0x205F || v == 0x3000
}

/// A name that trims to nothing: every character is white space.
pub open spec fn spec_blank(name: Seq<char>) -> bool {
    forall|i: int| 0 <= i < name.len() ==> spec_white_space(#[trigger] name[i])
}

/// Whether a rule name is blank: empty once white space is trimmed.
pub fn is_blank(name: &str) -> (r: bool)
    ensures
        r == spec_blank(name@),
{
    let mut blank = true;
    for c in it: name.chars()
        invariant
            it.seq() == name@,
            blank == (forall|i: int| 0 <= i < it.index() ==> spec_white_space(#[trigger] name@[i])),
    {
        if !is_white_space(c) {
            blank = false;
        }
    }
    blank
}


/// An earlier rule has the name of rule `i`.
pub open spec fn name_taken(rules: Seq<Rule>, i: int) -> bool {
    exists|j: int| 0 <= j < i && #[trigger] rules[j].name@ == rules[i].name@
}

/// A character id list is empty or holds the invalid id.
pub open spec fn character_ids_invalid(ids: Option<Vec<u32>>) -> bool {
    match ids {
        Some(v) => v@.len() == 0 || v@.contains(u32::MAX),
        None => false,
    }
}

/// An NPC parameter id list is empty or holds a negative id.
pub open spec fn npc_param_ids_invalid(ids: Option<Vec<i32>>) -> bool {
    match ids {
        Some(v) => v@.len() == 0 || exists|k: int| 0 <= k < v@.len() && #[trigger] v@[k] < 0,
        None => false,
    }
}

/// An entity id list is empty or holds a null or invalid id.
pub open spec fn entity_ids_invalid(ids: Option<Vec<u32>>) -> bool {
    match ids {
        Some(v) => v@.len() == 0 || v@.contains(0u32) || v@.contains(u32::MAX),
        None => false,
    }
}

/// An effect rule names a nonnegative effect, and a constant rule names none.
pub open spec fn effect_id_consistent(mode: Mode, id: Option<i32>) -> bool {
    match (mode, id) {
        (Mode::Speffect, Some(id)) => id >= 0,
        (Mode::Constant, None) => true,
        _ => false,
    }
}

/// The first problem of rule `i`, in the order the checks are made.
pub open spec fn spec_rule_problem(rules: Seq<Rule>, i: int) -> Option<RuleProblem> {
    let rule = rules[i];
    if spec_blank(rule.name@) {
        Some(RuleProblem::EmptyName)
    } else if name_taken(rules, i) {
        Some(RuleProblem::DuplicateName)
    } else if !spec_valid_scale_bits(rule.scale_bits) {
        Some(RuleProblem::InvalidScale)
    } else if rule.hostile_only && rule.target == TargetKind::Player {
        Some(RuleProblem::HostileOnlyRequiresEnemy)
    } else if !effect_id_consistent(rule.mode, rule.sp_effect_id) {
        Some(RuleProblem::EffectIdMismatch)
    } else if character_ids_invalid(rule.character_ids) {
        Some(RuleProblem::InvalidCharacterIds)
    } else if npc_param_ids_invalid(rule.npc_param_ids) {
        Some(RuleProblem::InvalidNpcParamIds)
    } else if entity_ids_invalid(rule.entity_ids) {
        Some(RuleProblem::InvalidEntityIds)
    } else {
        None
    }
}

/// The first rule from `i` on that has a problem.
pub open spec fn first_problem(rules: Seq<Rule>, i: nat) -> Option<(nat, RuleProblem)>
    decreases rules.len() - i,
{
    if i >= rules.len() {
        None
    } else {
        match spec_rule_problem(rules, i as int) {
            Some(problem) => Some((i, problem)),
            None => first_problem(rules, i + 1),
        }
    }
}

/// The outcome of validating a configuration: its version first, then the
/// first problem of its rules in file order.
pub open spec fn spec_validate(version: u32, rules: Seq<Rule>) -> Result<(), ConfigError> {
    if version != CONFIG_VERSION {
        Err(ConfigError::UnsupportedVersion(version))
    } else {
        match first_problem(rules, 0) {
            Some((index, problem)) => Err(ConfigError::Rule { index: index as usize, problem }),
            None => Ok(()),
        }
    }
}

fn contains_u32(v: &Vec<u32>, x: u32) -> (r: bool)
    ensures
        r == v@.contains(x),
{
    let mut i: usize = 0;
    while i < v.len()
        invariant
            0 <= i <= v@.len(),
            forall|k: int| 0 <= k < i ==> v@[k] != x,
        decreases v@.len() - i,
    {
        if v[i] == x {
            assert(v@[i as int] == x);
            return true;
        }
        i = i + 1;
    }
    false
}

fn contains_i32(v: &Vec<i32>, x: i32) -> (r: bool)
    ensures
        r == v@.contains(x),
{
    let mut i: usize = 0;
    while i < v.len()
        invariant
            0 <= i <= v@.len(),
            forall|k: int| 0 <= k < i ==> v@[k] != x,
        decreases v@.len() - i,
    {
        if v[i] == x {
            assert(v@[i as int] == x);
            return true;
        }
        i = i + 1;
    }
    false
}

fn any_negative(v: &Vec<i32>) -> (r: bool)
    ensures
        r == exists|k: int| 0 <= k < v@.len() && #[trigger] v@[k] < 0,
{
    let mut i: usize = 0;
    while i < v.len()
        invariant
            0 <= i <= v@.len(),
            forall|k: int| 0 <= k < i ==> v@[k] >= 0,
        decreases v@.len() - i,
    {
        if v[i] < 0 {
            assert(v@[i as int] < 0);
            return true;
        }
        i = i + 1;
    }
    false
}

fn name_taken_exec(rules: &Vec<Rule>, i: usize) -> (r: bool)
    requires
        i < rules@.len(),
    ensures
        r == name_taken(rules@, i as int),
{
    let mut j: usize = 0;
    while j < i
        invariant
            i < rules@.len(),
            0 <= j <= i,
            forall|k: int| 0 <= k < j ==> rules@[k].name@ != rules@[i as int].name@,
        decreases i - j,
    {
        if rules[j].name == rules[i].name {
            return true;
        }
        j = j + 1;
    }
    false
}

fn rule_problem(rules: &Vec<Rule>, i: usize) -> (r: Option<RuleProblem>)
    requires
        i < rules@.len(),
    ensures
        r == spec_rule_problem(rules@, i as int),
{
    let rule = &rules[i];
    if is_blank(rule.name.as_str()) {
        return Some(RuleProblem::EmptyName);
    }
    if name_taken_exec(rules, i) {
        return Some(RuleProblem::DuplicateName);
    }
    if !valid_scale_bits(rule.scale_bits) {
        return Some(RuleProblem::InvalidScale);
    }
    if rule.hostile_only && rule.target == TargetKind::Player {
        return Some(RuleProblem::HostileOnlyRequiresEnemy);
    }
    let consistent = match (rule.mode, rule.sp_effect_id) {
        (Mode::Speffect, Some(id)) => id >= 0,
        (Mode::Constant, None) => true,
        _ => false,
    };
    if !consistent {
        return Some(RuleProblem::EffectIdMismatch);
    }
    let characters_bad = match &rule.character_ids {
        Some(v) => v.len() == 0 || contains_u32(v, u32::MAX),
        None => false,
    };
    if characters_bad {
        return Some(RuleProblem::InvalidCharacterIds);
    }
    let npcs_bad = match &rule.npc_param_ids {
        Some(v) => v.len() == 0 || any_negative(v),
        None => false,
    };
    if npcs_bad {
        return Some(RuleProblem::InvalidNpcParamIds);
    }
    let entities_bad = match &rule.entity_ids {
        Some(v) => v.len() == 0 || contains_u32(v, 0) || contains_u32(v, u32::MAX),
        None => false,
    };
    if entities_bad {
        return Some(RuleProblem::InvalidEntityIds);
    }
    None
}

/// Whether a list filter admits a value: no list admits every value.
pub open spec fn spec_matches_u32(filter: Option<Vec<u32>>, value: u32) -> bool {
    match filter {
        Some(v) => v@.contains(value),
        None => true,
    }
}

/// A value passes a list filter when there is no list or the list holds it.
pub open spec fn spec_matches_i32(filter: Option<Vec<i32>>, value: i32) -> bool {
    match filter {
        Some(v) => v@.contains(value),
        None => true,
    }
}

/// A rule applies to a subject of its target kind whose character, NPC
/// parameter and entity ids each pass the rule's list, if it has one.
pub open spec fn spec_applies(rule: Rule, facts: UnitFacts) -> bool {
    &&& rule.target == facts.kind
    &&& spec_matches_u32(rule.character_ids, facts.character_id)
    &&& spec_matches_i32(rule.npc_param_ids, facts.npc_param_id)
    &&& spec_matches_u32(rule.entity_ids, facts.entity_id)
}

/// The rule asks whether an effect is active before it can apply.
pub open spec fn queries_effect(rule: Rule) -> bool {
    rule.mode != Mode::Constant && rule.sp_effect_id is Some
}

/// The rules from `i` on, scanned in file order: the first rule that applies,
/// whose effect (if it names one) is active, and whose hostility filter (if
/// set) sees a hostile relation, gives the selection.
pub open spec fn spec_scan(
    rules: Seq<Rule>,
    facts: UnitFacts,
    effect: spec_fn(i32) -> bool,
    relation: Option<bool>,
    i: nat,
) -> Selection
    decreases rules.len() - i,
{
    if i >= rules.len() {
        Selection::none()
    } else {
        let rule = rules[i as int];
        if spec_applies(rule, facts) && (rule.mode == Mode::Constant || (rule.sp_effect_id is Some
            && effect(rule.sp_effect_id->0))) && !(rule.hostile_only && relation != Some(true)) {
            Selection { rule: Some(i as usize), scale_bits: rule.scale_bits }
        } else {
            spec_scan(rules, facts, effect, relation, i + 1)
        }
    }
}

/// Scaling is on, and on for the subject's category.
pub open spec fn category_enabled(config: Config, kind: TargetKind) -> bool {
    config.enabled && match kind {
        TargetKind::Player => config.player.enabled,
        TargetKind::Enemy => config.enemies.enabled,
    }
}

/// The selection for a subject, given which effects are active and its
/// relation to the player (`None` when unknown).
pub open spec fn spec_resolve(
    config: Config,
    facts: UnitFacts,
    effect: spec_fn(i32) -> bool,
    relation: Option<bool>,
) -> Selection {
    if !category_enabled(config, facts.kind) {
        Selection::none()
    } else {
        spec_scan(config.rules@, facts, effect, relation, 0)
    }
}

/// The effect query answers as `effect` does.
pub open spec fn effects_as<F: Fn(i32) -> bool>(has_effect: F, effect: spec_fn(i32) -> bool) -> bool {
    forall|id: i32, b: bool| #[trigger] has_effect.ensures((id,), b) ==> b == effect(id)
}

/// The relation query answers `relation`.
pub open spec fn relation_as<G: Fn() -> Option<bool>>(is_hostile: G, relation: Option<bool>) -> bool {
    forall|r: Option<bool>| #[trigger] is_hostile.ensures((), r) ==> r == relation
}

/// Effect queries are only made for applicable rules that name an effect.
pub open spec fn effect_queries_allowed<F: Fn(i32) -> bool>(
    config: Config,
    facts: UnitFacts,
    has_effect: F,
) -> bool {
    category_enabled(config, facts.kind) ==> forall|i: int|
        0 <= i < config.rules@.len() && spec_applies(config.rules@[i], facts) && queries_effect(
            #[trigger] config.rules@[i],
        ) ==> has_effect.requires((config.rules@[i].sp_effect_id->0,))
}

/// The relation is only queried when an applicable rule is hostile-only.
pub open spec fn relation_query_allowed<G: Fn() -> Option<bool>>(
    config: Config,
    facts: UnitFacts,
    is_hostile: G,
) -> bool {
    (category_enabled(config, facts.kind) && exists|i: int|
        0 <= i < config.rules@.len() && spec_applies(#[trigger] config.rules@[i], facts)
            && config.rules@[i].hostile_only) ==> is_hostile.requires(())
}

/// In this call the rule was passed over: its effect was reported inactive
/// (or it names none), or the relation was reported as not hostile while
/// the rule is hostile-only.
pub open spec fn passed_over<F: Fn(i32) -> bool, G: Fn() -> Option<bool>>(
    rule: Rule,
    has_effect: F,
    is_hostile: G,
) -> bool {
    ||| rule.mode == Mode::Speffect && match rule.sp_effect_id {
        Some(id) => has_effect.ensures((id,), false),
        None => true,
    }
    ||| rule.hostile_only && exists|r: Option<bool>| r != Some(true) && #[trigger] is_hostile.ensures((), r)
}

/// Every rule before `i` that applies to the subject was passed over.
pub open spec fn earlier_passed_over<F: Fn(i32) -> bool, G: Fn() -> Option<bool>>(
    rules: Seq<Rule>,
    facts: UnitFacts,
    has_effect: F,
    is_hostile: G,
    i: int,
) -> bool {
    forall|j: int|
        0 <= j < i && spec_applies(rules[j], facts) ==> passed_over(#[trigger] rules[j], has_effect, is_hostile)
}

/// With the relation unknown, the rule was passed over: its effect was
/// reported inactive (or it names none), or it is hostile-only.
pub open spec fn passed_over_unknown<F: Fn(i32) -> bool>(rule: Rule, has_effect: F) -> bool {
    ||| rule.mode == Mode::Speffect && match rule.sp_effect_id {
        Some(id) => has_effect.ensures((id,), false),
        None => true,
    }
    ||| rule.hostile_only
}

fn matches_u32(filter: &Option<Vec<u32>>, value: u32) -> (r: bool)
    ensures
        r == spec_matches_u32(*filter, value),
{
    match filter {
        Some(v) => contains_u32(v, value),
        None => true,
    }
}

fn matches_i32(filter: &Option<Vec<i32>>, value: i32) -> (r: bool)
    ensures
        r == spec_matches_i32(*filter, value),
{
    match filter {
        Some(v) => contains_i32(v, value),
        None => true,
    }
}

impl Config {
    /// Checks a parsed configuration: the supported version, then each rule
    /// in file order; the first rule with a problem is reported.
    pub fn validate(&self) -> (r: Result<(), ConfigError>)
        ensures
            r == spec_validate(self.version, self.rules@),
    {
        if self.version != CONFIG_VERSION {
            return Err(ConfigError::UnsupportedVersion(self.version));
        }
        let mut i: usize = 0;
        while i < self.rules.len()
            invariant
                0 <= i <= self.rules@.len(),
                self.version == CONFIG_VERSION,
                first_problem(self.rules@, 0) == first_problem(self.rules@, i as nat),
            decreases self.rules@.len() - i,
        {
            match rule_problem(&self.rules, i) {
                Some(problem) => {
                    return Err(ConfigError::Rule { index: i, problem });
                },
                None => {},
            }
            i = i + 1;
        }
        Ok(())
    }

    /// Resolves the scale of a subject whose relation to the player is not
    /// known: hostile-only rules never apply.
    pub fn resolve(&self, facts: UnitFacts, has_effect: impl Fn(i32) -> bool) -> (selection: Selection)
        requires
            effect_queries_allowed(*self, facts, has_effect),
        ensures
            selection.rule matches Some(i) ==> {
                &&& i < self.rules@.len()
                &&& spec_applies(self.rules@[i as int], facts)
                &&& !self.rules@[i as int].hostile_only
                &&& selection.scale_bits == self.rules@[i as int].scale_bits
                &&& self.rules@[i as int].mode == Mode::Constant || has_effect.ensures(
                    (self.rules@[i as int].sp_effect_id->0,),
                    true,
                )
            },
            selection.rule is None ==> selection.scale_bits == UNIT_SCALE_BITS,
            !category_enabled(*self, facts.kind) ==> selection == Selection::none(),
            selection.rule matches Some(i) ==> category_enabled(*self, facts.kind) && forall|j: int|
                0 <= j < i && spec_applies(self.rules@[j], facts) ==> passed_over_unknown(
                    #[trigger] self.rules@[j],
                    has_effect,
                ),
            selection.rule is None && category_enabled(*self, facts.kind) ==> forall|j: int|
                0 <= j < self.rules@.len() && spec_applies(self.rules@[j], facts)
                    ==> passed_over_unknown(#[trigger] self.rules@[j], has_effect),
            forall|effect: spec_fn(i32) -> bool|
                effects_as(has_effect, effect) ==> selection == spec_resolve(*self, facts, effect, None),
    {
        let unknown = || -> (r: Option<bool>)
            ensures
                r is None,
            { None };
        let selection = self.resolve_with_relation(facts, has_effect, unknown);
        proof {
            assert(relation_as(unknown, None));
            assert forall|j: int|
                0 <= j < self.rules@.len() && passed_over(#[trigger] self.rules@[j], has_effect, unknown)
                    implies passed_over_unknown(self.rules@[j], has_effect) by {}
        }
        selection
    }

    /// Resolves the scale of a subject. A disabled configuration or subject
    /// category gives unit scale without any query. Rules are scanned in file
    /// order; effects are queried only for applicable effect rules, and the
    /// relation at most once, only for an applicable hostile-only rule.
    pub fn resolve_with_relation(
        &self,
        facts: UnitFacts,
        has_effect: impl Fn(i32) -> bool,
        is_hostile: impl Fn() -> Option<bool>,
    ) -> (selection: Selection)
        requires
            effect_queries_allowed(*self, facts, has_effect),
            relation_query_allowed(*self, facts, is_hostile),
        ensures
            selection.rule matches Some(i) ==> {
                &&& i < self.rules@.len()
                &&& spec_applies(self.rules@[i as int], facts)
                &&& selection.scale_bits == self.rules@[i as int].scale_bits
                &&& self.rules@[i as int].mode == Mode::Constant || has_effect.ensures(
                    (self.rules@[i as int].sp_effect_id->0,),
                    true,
                )
                &&& self.rules@[i as int].hostile_only ==> is_hostile.ensures((), Some(true))
            },
            selection.rule is None ==> selection.scale_bits == UNIT_SCALE_BITS,
            !category_enabled(*self, facts.kind) ==> selection == Selection::none(),
            selection.rule matches Some(i) ==> category_enabled(*self, facts.kind)
                && earlier_passed_over(self.rules@, facts, has_effect, is_hostile, i as int),
            selection.rule is None && category_enabled(*self, facts.kind) ==> earlier_passed_over(
                self.rules@,
                facts,
                has_effect,
                is_hostile,
                self.rules@.len() as int,
            ),
            forall|effect: spec_fn(i32) -> bool, relation: Option<bool>|
                effects_as(has_effect, effect) && relation_as(is_hostile, relation) ==> selection
                    == spec_resolve(*self, facts, effect, relation),
    {
        let enabled = self.enabled && match facts.kind {
            TargetKind::Player => self.player.enabled,
            TargetKind::Enemy => self.enemies.enabled,
        };
        if !enabled {
            return Selection::unit();
        }
        let mut relation: Option<Option<bool>> = None;
        let mut i: usize = 0;
        while i < self.rules.len()
            invariant
                0 <= i <= self.rules@.len(),
                category_enabled(*self, facts.kind),
                effect_queries_allowed(*self, facts, has_effect),
                relation_query_allowed(*self, facts, is_hostile),
                relation matches Some(r) ==> is_hostile.ensures((), r),
                earlier_passed_over(self.rules@, facts, has_effect, is_hostile, i as int),
                forall|effect: spec_fn(i32) -> bool, rel: Option<bool>|
                    effects_as(has_effect, effect) && relation_as(is_hostile, rel) ==> spec_resolve(
                        *self,
                        facts,
                        effect,
                        rel,
                    ) == spec_scan(self.rules@, facts, effect, rel, i as nat),
            decreases self.rules@.len() - i,
        {
            let rule = &self.rules[i];
            let applies = rule.target == facts.kind && matches_u32(
                &rule.character_ids,
                facts.character_id,
            ) && matches_i32(&rule.npc_param_ids, facts.npc_param_id) && matches_u32(
                &rule.entity_ids,
                facts.entity_id,
            );
            if applies {
                let active = rule.mode == Mode::Constant || match rule.sp_effect_id {
                    Some(id) => has_effect(id),
                    None => false,
                };
                if active {
                    // Ordinary model rules never depend on the native team lookup;
                    // an unknown relation only skips explicitly hostile-only rules.
                    let mut hostile_block = false;
                    if rule.hostile_only {
                        let known = match relation {
                            Some(r) => r,
                            None => {
                                let r = is_hostile();
                                relation = Some(r);
                                r
                            },
                        };
                        hostile_block = match known {
                            Some(true) => false,
                            _ => true,
                        };
                    }
                    if !hostile_block {
                        return Selection { rule: Some(i), scale_bits: rule.scale_bits };
                    }
                }
            }
            i = i + 1;
        }
        Selection::unit()
    }
}

proof fn lemma_scan_ignores_effects(
    rules: Seq<Rule>,
    facts: UnitFacts,
    e1: spec_fn(i32) -> bool,
    e2: spec_fn(i32) -> bool,
    relation: Option<bool>,
    i: nat,
)
    requires
        forall|k: int| 0 <= k < rules.len() && spec_applies(rules[k], facts) ==> !queries_effect(
            #[trigger] rules[k],
        ),
    ensures
        spec_scan(rules, facts, e1, relation, i) == spec_scan(rules, facts, e2, relation, i),
    decreases rules.len() - i,
{
    if i < rules.len() {
        lemma_scan_ignores_effects(rules, facts, e1, e2, relation, i + 1);
    }
}

/// When no applicable rule names an effect, the selection does not depend on
/// which effects are active (the effect query is never made).
pub proof fn constant_rules_ignore_effects(
    config: Config,
    facts: UnitFacts,
    e1: spec_fn(i32) -> bool,
    e2: spec_fn(i32) -> bool,
    relation: Option<bool>,
)
    requires
        forall|k: int|
            0 <= k < config.rules@.len() && spec_applies(config.rules@[k], facts) ==> !queries_effect(
                #[trigger] config.rules@[k],
            ),
    ensures
        spec_resolve(config, facts, e1, relation) == spec_resolve(config, facts, e2, relation),
{
    lemma_scan_ignores_effects(config.rules@, facts, e1, e2, relation, 0);
}

proof fn lemma_scan_ignores_relation(
    rules: Seq<Rule>,
    facts: UnitFacts,
    effect: spec_fn(i32) -> bool,
    r1: Option<bool>,
    r2: Option<bool>,
    i: nat,
)
    requires
        forall|k: int| 0 <= k < rules.len() && spec_applies(rules[k], facts) ==> !(
        #[trigger] rules[k]).hostile_only,
    ensures
        spec_scan(rules, facts, effect, r1, i) == spec_scan(rules, facts, effect, r2, i),
    decreases rules.len() - i,
{
    if i < rules.len() {
        lemma_scan_ignores_relation(rules, facts, effect, r1, r2, i + 1);
    }
}

/// Rules without a hostility filter never depend on the relation to the
/// player (the relation query is never made).
pub proof fn model_rules_ignore_relation(
    config: Config,
    facts: UnitFacts,
    effect: spec_fn(i32) -> bool,
    r1: Option<bool>,
    r2: Option<bool>,
)
    requires
        forall|k: int|
            0 <= k < config.rules@.len() && spec_applies(config.rules@[k], facts) ==> !(
            #[trigger] config.rules@[k]).hostile_only,
    ensures
        spec_resolve(config, facts, effect, r1) == spec_resolve(config, facts, effect, r2),
{
    lemma_scan_ignores_relation(config.rules@, facts, effect, r1, r2, 0);
}

/// A disabled configuration or subject category resolves to unit scale.
pub proof fn disabled_category_is_unit(
    config: Config,
    facts: UnitFacts,
    effect: spec_fn(i32) -> bool,
    relation: Option<bool>,
)
    requires
        !category_enabled(config, facts.kind),
    ensures
        spec_resolve(config, facts, effect, relation) == Selection::none(),
{
}

proof fn lemma_first_problem_none(rules: Seq<Rule>, i: nat, k: int)
    requires
        first_problem(rules, i) is None,
        i <= k < rules.len(),
    ensures
        spec_rule_problem(rules, k) is None,
    decreases rules.len() - i,
{
    if i < k {
        lemma_first_problem_none(rules, i + 1, k);
    }
}

proof fn lemma_scan_result(
    rules: Seq<Rule>,
    facts: UnitFacts,
    effect: spec_fn(i32) -> bool,
    relation: Option<bool>,
    i: nat,
)
    requires
        rules.len() <= usize::MAX,
    ensures
        spec_scan(rules, facts, effect, relation, i).rule matches Some(k) ==> i <= k < rules.len()
            && spec_scan(rules, facts, effect, relation, i).scale_bits == rules[k as int].scale_bits
            && spec_applies(rules[k as int], facts),
        spec_scan(rules, facts, effect, relation, i).rule is None ==> spec_scan(
            rules,
            facts,
            effect,
            relation,
            i,
        ).scale_bits == UNIT_SCALE_BITS,
    decreases rules.len() - i,
{
    if i < rules.len() {
        lemma_scan_result(rules, facts, effect, relation, i + 1);
    }
}

/// A validated configuration only ever resolves to a finite scale greater
/// than zero, given by a rule that applies to the subject.
pub proof fn validated_configuration_resolves_to_valid_scale(
    config: Config,
    facts: UnitFacts,
    effect: spec_fn(i32) -> bool,
    relation: Option<bool>,
)
    requires
        spec_validate(config.version, config.rules@) is Ok,
        config.rules@.len() <= usize::MAX,
    ensures
        spec_valid_scale_bits(spec_resolve(config, facts, effect, relation).scale_bits),
        spec_resolve(config, facts, effect, relation).rule matches Some(k) ==> spec_applies(
            config.rules@[k as int],
            facts,
        ),
{
    lemma_scan_result(config.rules@, facts, effect, relation, 0);
    let s = spec_resolve(config, facts, effect, relation);
    if s.rule is Some && category_enabled(config, facts.kind) {
        lemma_first_problem_none(config.rules@, 0, s.rule->0 as int);
    }
}

/// A validated configuration has distinct, nonblank rule names, and every
/// effect rule names a nonnegative effect.
pub proof fn validated_rules_are_well_formed(config: Config, i: int, j: int)
    requires
        spec_validate(config.version, config.rules@) is Ok,
        0 <= j < i < config.rules@.len(),
    ensures
        config.rules@[i].name@ != config.rules@[j].name@,
        !spec_blank(config.rules@[i].name@),
        config.rules@[i].mode == Mode::Speffect ==> (config.rules@[i].sp_effect_id matches Some(id)
            && id >= 0),
        config.rules@[i].mode == Mode::Constant ==> config.rules@[i].sp_effect_id is None,
        config.rules@[i].hostile_only ==> config.rules@[i].target == TargetKind::Enemy,
{
    lemma_first_problem_none(config.rules@, 0, i);
}

/// Every id list of a validated rule is nonempty and holds only usable ids:
/// no character id is the invalid id, no NPC parameter id is negative, and
/// no entity id is null or invalid, at any position of its list. Its scale
/// is a finite positive `f32`.
pub proof fn validated_id_lists_are_usable(config: Config, i: int)
    requires
        spec_validate(config.version, config.rules@) is Ok,
        0 <= i < config.rules@.len(),
    ensures
        0 < config.rules@[i].scale_bits < 0x7F80_0000,
        config.rules@[i].character_ids matches Some(v) ==> v@.len() > 0 && forall|k: int|
            0 <= k < v@.len() ==> #[trigger] v@[k] != u32::MAX,
        config.rules@[i].npc_param_ids matches Some(v) ==> v@.len() > 0 && forall|k: int|
            0 <= k < v@.len() ==> #[trigger] v@[k] >= 0,
        config.rules@[i].entity_ids matches Some(v) ==> v@.len() > 0 && forall|k: int|
            0 <= k < v@.len() ==> #[trigger] v@[k] != 0 && v@[k] != u32::MAX,
{
    lemma_first_problem_none(config.rules@, 0, i);
    let rule = config.rules@[i];
    match rule.character_ids {
        Some(v) => {
            assert forall|k: int| 0 <= k < v@.len() implies #[trigger] v@[k] != u32::MAX by {
                if v@[k] == u32::MAX {
                    assert(v@.contains(u32::MAX));
                }
            }
        },
        None => {},
    }
    match rule.npc_param_ids {
        Some(v) => {
            assert forall|k: int| 0 <= k < v@.len() implies #[trigger] v@[k] >= 0 by {}
        },
        None => {},
    }
    match rule.entity_ids {
        Some(v) => {
            assert forall|k: int| 0 <= k < v@.len() implies #[trigger] v@[k] != 0 && v@[k] != u32::MAX by {
                if v@[k] == 0 {
                    assert(v@.contains(0u32));
                }
                if v@[k] == u32::MAX {
                    assert(v@.contains(u32::MAX));
                }
            }
        },
        None => {},
    }
}

} // verus!

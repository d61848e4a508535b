use er_character_scale::config::{
    is_blank, is_white_space, valid_scale_bits, Config, ConfigError, Mode, Rule, RuleProblem,
    Selection, TargetKind, TargetSwitch, UnitFacts, UNIT_SCALE_BITS,
};
use std::cell::Cell;

fn rule(name: &str, target: TargetKind, mode: Mode, effect: Option<i32>, scale: f32) -> Rule {
    Rule {
        name: name.to_string(),
        target,
        mode,
        sp_effect_id: effect,
        scale_bits: scale.to_bits(),
        character_ids: None,
        npc_param_ids: None,
        entity_ids: None,
        hostile_only: false,
    }
}

fn config(rules: Vec<Rule>) -> Config {
    Config {
        version: 1,
        enabled: true,
        player: TargetSwitch { enabled: true },
        enemies: TargetSwitch { enabled: true },
        rules,
    }
}

fn facts(kind: TargetKind, entity_id: u32) -> UnitFacts {
    UnitFacts {
        kind,
        character_id: 1234,
        npc_param_id: 123456,
        entity_id,
    }
}

fn selection(rule: usize, scale: f32) -> Selection {
    Selection {
        rule: Some(rule),
        scale_bits: scale.to_bits(),
    }
}

#[test]
fn optional_hostility_is_a_rule_filter_with_ordered_fallback() {
    let mut hostile = rule("hostile", TargetKind::Enemy, Mode::Constant, None, 0.6);
    hostile.character_ids = Some(vec![1234]);
    hostile.hostile_only = true;
    let mut other = rule("other", TargetKind::Enemy, Mode::Constant, None, 0.8);
    other.character_ids = Some(vec![1234]);
    let c = config(vec![hostile, other]);
    assert_eq!(c.validate(), Ok(()));
    for (relation, scale, index) in [(Some(true), 0.6, 0), (Some(false), 0.8, 1), (None, 0.8, 1)] {
        assert_eq!(
            c.resolve_with_relation(facts(TargetKind::Enemy, 1), |_| panic!("constant"), || relation),
            selection(index, scale)
        );
    }
    let mut invalid = rule("invalid", TargetKind::Player, Mode::Constant, None, 0.6);
    invalid.hostile_only = true;
    assert_eq!(
        config(vec![invalid]).validate(),
        Err(ConfigError::Rule { index: 0, problem: RuleProblem::HostileOnlyRequiresEnemy })
    );
}

#[test]
fn model_only_rules_do_not_query_or_require_hostility() {
    for hostile_only in [false, false] {
        let mut model = rule("model", TargetKind::Enemy, Mode::Constant, None, 0.6);
        model.character_ids = Some(vec![1234]);
        model.hostile_only = hostile_only;
        let c = config(vec![model]);
        let chosen = c.resolve_with_relation(
            facts(TargetKind::Enemy, 1),
            |_| panic!("constant"),
            || panic!("model rule queried hostility"),
        );
        assert_eq!(chosen.scale_bits, 0.6f32.to_bits());
        let mut different = facts(TargetKind::Enemy, 2);
        different.character_id = 9521;
        let chosen = c.resolve_with_relation(different, |_| panic!("different model"), || panic!("different model"));
        assert_eq!(chosen.scale_bits, 1.0f32.to_bits());
    }
}

#[test]
fn fixed_rule_never_queries_effects() {
    let c = config(vec![rule("fixed", TargetKind::Player, Mode::Constant, None, 0.75)]);
    let chosen = c.resolve(facts(TargetKind::Player, 0), |_| panic!("effect query in constant mode"));
    assert_eq!(chosen.scale_bits, 0.75f32.to_bits());
}

#[test]
fn hostility_is_queried_at_most_once() {
    let mut first = rule("first", TargetKind::Enemy, Mode::Constant, None, 0.6);
    first.hostile_only = true;
    let mut second = rule("second", TargetKind::Enemy, Mode::Constant, None, 0.7);
    second.hostile_only = true;
    let c = config(vec![first, second]);
    let queries = Cell::new(0);
    let chosen = c.resolve_with_relation(
        facts(TargetKind::Enemy, 1),
        |_| false,
        || {
            queries.set(queries.get() + 1);
            Some(false)
        },
    );
    assert_eq!(chosen, Selection::unit());
    assert_eq!(queries.get(), 1);
}

#[test]
fn same_effect_is_resolved_for_each_subject_and_falls_through_in_file_order() {
    let p = rule("p", TargetKind::Player, Mode::Speffect, Some(8020400), 0.5);
    let mut a1 = rule("a1", TargetKind::Enemy, Mode::Speffect, Some(8020400), 1.5);
    a1.entity_ids = Some(vec![101]);
    let mut a2 = rule("a2", TargetKind::Enemy, Mode::Constant, None, 0.75);
    a2.entity_ids = Some(vec![102]);
    let mut fallback = rule("a1-fallback", TargetKind::Enemy, Mode::Constant, None, 1.25);
    fallback.entity_ids = Some(vec![101]);
    let c = config(vec![p, a1, a2, fallback]);
    assert_eq!(c.validate(), Ok(()));
    for (kind, id, active, scale) in [
        (TargetKind::Player, 0, true, 0.5f32),
        (TargetKind::Enemy, 101, true, 1.5),
        (TargetKind::Enemy, 102, false, 0.75),
        (TargetKind::Enemy, 103, true, 1.0),
        (TargetKind::Enemy, 101, false, 1.25),
    ] {
        let chosen = c.resolve(facts(kind, id), |_| active);
        assert_eq!(chosen.scale_bits, scale.to_bits());
    }
}

#[test]
fn filters_require_all_fields_and_any_member_within_a_list() {
    let mut filter = rule("filter", TargetKind::Enemy, Mode::Constant, None, 2.0);
    filter.character_ids = Some(vec![1234, 2345]);
    filter.npc_param_ids = Some(vec![123456]);
    filter.entity_ids = Some(vec![101, 102]);
    let c = config(vec![filter]);
    let good = facts(TargetKind::Enemy, 102);
    assert_eq!(c.resolve(good, |_| false), selection(0, 2.0));
    for bad in [
        UnitFacts { kind: TargetKind::Player, ..good },
        UnitFacts { character_id: 7777, ..good },
        UnitFacts { npc_param_id: 9, ..good },
        UnitFacts { entity_id: 103, ..good },
    ] {
        assert_eq!(
            c.resolve(bad, |_| panic!("nonmatching unit queried")),
            Selection::unit()
        );
    }
}

#[test]
fn invalid_values_and_unknown_fields_are_rejected() {
    // The values as `f32` parses them: 1e100 overflows, 1e-100 underflows to zero.
    for value in [0.0f32, -0.0, -1.0, f32::NAN, f32::INFINITY, f32::NEG_INFINITY, 1e100f64 as f32, 1e-100f64 as f32] {
        let c = config(vec![rule("bad", TargetKind::Player, Mode::Constant, None, value)]);
        assert_eq!(
            c.validate(),
            Err(ConfigError::Rule { index: 0, problem: RuleProblem::InvalidScale }),
            "{value}"
        );
    }
    let cases: Vec<(Rule, RuleProblem)> = vec![
        (rule("bad", TargetKind::Enemy, Mode::Constant, Some(1), 1.0), RuleProblem::EffectIdMismatch),
        (rule("bad", TargetKind::Enemy, Mode::Speffect, None, 1.0), RuleProblem::EffectIdMismatch),
        (rule("bad", TargetKind::Enemy, Mode::Speffect, Some(-1), 1.0), RuleProblem::EffectIdMismatch),
        (
            Rule { entity_ids: Some(vec![]), ..rule("bad", TargetKind::Enemy, Mode::Constant, None, 1.0) },
            RuleProblem::InvalidEntityIds,
        ),
        (
            Rule { entity_ids: Some(vec![0]), ..rule("bad", TargetKind::Enemy, Mode::Constant, None, 1.0) },
            RuleProblem::InvalidEntityIds,
        ),
        (
            Rule { entity_ids: Some(vec![u32::MAX]), ..rule("bad", TargetKind::Enemy, Mode::Constant, None, 1.0) },
            RuleProblem::InvalidEntityIds,
        ),
        (
            Rule { npc_param_ids: Some(vec![-1]), ..rule("bad", TargetKind::Enemy, Mode::Constant, None, 1.0) },
            RuleProblem::InvalidNpcParamIds,
        ),
        (
            Rule { character_ids: Some(vec![]), ..rule("bad", TargetKind::Enemy, Mode::Constant, None, 1.0) },
            RuleProblem::InvalidCharacterIds,
        ),
        (
            Rule { character_ids: Some(vec![u32::MAX]), ..rule("bad", TargetKind::Enemy, Mode::Constant, None, 1.0) },
            RuleProblem::InvalidCharacterIds,
        ),
        (rule(" \t", TargetKind::Enemy, Mode::Constant, None, 1.0), RuleProblem::EmptyName),
    ];
    for (bad, problem) in cases {
        assert_eq!(config(vec![bad]).validate(), Err(ConfigError::Rule { index: 0, problem }));
    }
    let duplicate = config(vec![
        rule("duplicate", TargetKind::Player, Mode::Constant, None, 1.0),
        rule("duplicate", TargetKind::Player, Mode::Constant, None, 1.0),
    ]);
    assert_eq!(
        duplicate.validate(),
        Err(ConfigError::Rule { index: 1, problem: RuleProblem::DuplicateName })
    );
    let mut version = config(vec![]);
    version.version = 2;
    assert_eq!(version.validate(), Err(ConfigError::UnsupportedVersion(2)));
}

#[test]
fn bom_and_positive_scales_outside_old_range_are_valid() {
    for scale in [0.1f32, 0.25, 0.49, 0.5, 3.0, 3.01, 4.0, 10.0, f32::MIN_POSITIVE, f32::MAX] {
        assert!(valid_scale_bits(scale.to_bits()));
        let c = config(vec![rule("endpoint", TargetKind::Enemy, Mode::Constant, None, scale)]);
        assert_eq!(c.validate(), Ok(()));
    }
}

#[test]
fn disabled_categories_do_not_query_effects() {
    let mut c = config(vec![
        rule("p", TargetKind::Player, Mode::Speffect, Some(1), 0.5),
        rule("e", TargetKind::Enemy, Mode::Speffect, Some(2), 0.5),
    ]);
    c.enemies.enabled = false;
    assert_eq!(c.resolve(facts(TargetKind::Enemy, 1), |_| panic!()), Selection::unit());
    c.player.enabled = false;
    assert_eq!(c.resolve(facts(TargetKind::Player, 0), |_| panic!()), Selection::unit());
    c.player.enabled = true;
    c.enabled = false;
    assert_eq!(c.resolve(facts(TargetKind::Player, 0), |_| panic!()), Selection::unit());
    assert_eq!(
        c.resolve_with_relation(facts(TargetKind::Player, 0), |_| panic!(), || panic!()),
        Selection::unit()
    );
    assert_eq!(Selection::unit().scale_bits, UNIT_SCALE_BITS);
}

#[test]
fn blank_names_follow_unicode_white_space() {
    assert!(is_blank(""));
    assert!(is_blank(" \u{3000}\n"));
    assert!(!is_blank(" a "));
    assert!(is_white_space('\u{85}'));
    assert!(!is_white_space('\u{200b}'));
    for c in ['\t', ' ', '\u{a0}', '\u{2028}', 'x', '\u{feff}'] {
        assert_eq!(is_white_space(c), c.is_whitespace());
    }
}

#[test]
fn unknown_relation_skips_hostile_only_rules() {
    let c = config(vec![rule("e", TargetKind::Enemy, Mode::Constant, None, 0.5)]);
    assert_eq!(c.resolve(facts(TargetKind::Enemy, 1), |_| panic!()), selection(0, 0.5));
    let mut hostile = rule("h", TargetKind::Enemy, Mode::Constant, None, 0.5);
    hostile.hostile_only = true;
    let c = config(vec![hostile]);
    assert_eq!(c.resolve(facts(TargetKind::Enemy, 1), |_| panic!()), Selection::unit());
}

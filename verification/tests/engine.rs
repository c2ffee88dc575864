use rules_engine::eval::ProbeResults;
use rules_engine::model::{Action, ActionType, Condition, ConditionOperator, Rule, RuleCategory};
use rules_engine::strmap::StringMap;
use rules_engine::RulesEngine;

fn simple_rule(id: &str, field: &str, operator: ConditionOperator, value: &str, tag: &str) -> Rule {
    let mut params = StringMap::new();
    params.set("tag".to_string(), tag.to_string());
    Rule {
        id: id.to_string(),
        name: format!("rule {}", id),
        description: String::new(),
        category: RuleCategory::Quality,
        priority: 1,
        conditions: vec![Condition {
            field: field.to_string(),
            operator,
            value: value.to_string(),
        }],
        actions: vec![Action { action_type: ActionType::LogEvent, parameters: params }],
        created_at: 0,
        updated_at: 0,
    }
}

fn tags_of(actions: &[Action]) -> Vec<String> {
    actions.iter().map(|a| a.parameters.get_or_empty(&"tag".to_string())).collect()
}

#[test]
fn test_rules_engine() {
    let mut engine = RulesEngine::new();
    engine.load_default_rules().unwrap();
    engine.update_context("git_version".to_string(), "2.41.0".to_string());
    let actions = engine.evaluate_rules(&ProbeResults::none()).unwrap();
    assert!(!actions.is_empty());
}

#[test]
fn empty_condition_list_always_fires() {
    let mut engine = RulesEngine::new();
    let mut rule = simple_rule("always", "", ConditionOperator::Equals, "", "always");
    rule.conditions = Vec::new();
    engine.register_rule(rule).unwrap();
    let actions = engine.evaluate_rules(&ProbeResults::none()).unwrap();
    assert_eq!(tags_of(&actions), vec!["always".to_string()]);
}

#[test]
fn absent_field_reads_as_empty_string() {
    let mut engine = RulesEngine::new();
    engine
        .register_rule(simple_rule("eq", "missing", ConditionOperator::Equals, "", "eq"))
        .unwrap();
    engine
        .register_rule(simple_rule("ne", "missing", ConditionOperator::NotEquals, "", "ne"))
        .unwrap();
    engine
        .register_rule(simple_rule("ct", "missing", ConditionOperator::Contains, "", "ct"))
        .unwrap();
    engine
        .register_rule(simple_rule("ctx", "missing", ConditionOperator::Contains, "x", "ctx"))
        .unwrap();
    let actions = engine.evaluate_rules(&ProbeResults::none()).unwrap();
    // Equals "" holds, NotEquals "" fails, Contains "" holds, Contains "x" fails.
    assert_eq!(tags_of(&actions), vec!["eq".to_string(), "ct".to_string()]);
}

#[test]
fn registering_twice_identically_changes_nothing() {
    let mut engine = RulesEngine::new();
    engine.update_context("k".to_string(), "v".to_string());
    engine
        .register_rule(simple_rule("r", "k", ConditionOperator::Equals, "v", "first"))
        .unwrap();
    let once = tags_of(&engine.evaluate_rules(&ProbeResults::none()).unwrap());
    engine
        .register_rule(simple_rule("r", "k", ConditionOperator::Equals, "v", "first"))
        .unwrap();
    let twice = tags_of(&engine.evaluate_rules(&ProbeResults::none()).unwrap());
    assert_eq!(once, twice);
    assert_eq!(twice, vec!["first".to_string()]);
}

#[test]
fn registering_same_id_replaces_the_rule() {
    let mut engine = RulesEngine::new();
    engine.update_context("k".to_string(), "v".to_string());
    engine
        .register_rule(simple_rule("r", "k", ConditionOperator::Equals, "v", "first"))
        .unwrap();
    engine
        .register_rule(simple_rule("r", "k", ConditionOperator::Equals, "v", "second"))
        .unwrap();
    let actions = engine.evaluate_rules(&ProbeResults::none()).unwrap();
    assert_eq!(tags_of(&actions), vec!["second".to_string()]);
}

#[test]
fn non_numeric_side_counts_as_zero() {
    let mut engine = RulesEngine::new();
    engine.update_context("x".to_string(), "5".to_string());
    engine.update_context("y".to_string(), "oops".to_string());
    engine
        .register_rule(simple_rule("gt", "x", ConditionOperator::GreaterThan, "oops", "gt"))
        .unwrap();
    engine
        .register_rule(simple_rule("lt", "y", ConditionOperator::LessThan, "3", "lt"))
        .unwrap();
    engine
        .register_rule(simple_rule("zz", "y", ConditionOperator::GreaterThan, "oops", "zz"))
        .unwrap();
    let actions = engine.evaluate_rules(&ProbeResults::none()).unwrap();
    // 5 > 0 holds; 0 < 3 holds; 0 > 0 fails.
    assert_eq!(tags_of(&actions), vec!["gt".to_string(), "lt".to_string()]);
}

#[test]
fn version_check_accepts_higher_version() {
    let mut engine = RulesEngine::new();
    engine.load_default_rules().unwrap();
    engine.update_context("git_version".to_string(), "2.41.0".to_string());
    let actions = engine.evaluate_rules(&ProbeResults::none()).unwrap();
    let log_levels: Vec<String> = actions
        .iter()
        .filter(|a| a.action_type == ActionType::LogEvent)
        .map(|a| a.parameters.get_or_empty(&"level".to_string()))
        .collect();
    assert_eq!(log_levels, vec!["info".to_string()]);
}

#[test]
fn version_check_rejects_lower_version() {
    let mut engine = RulesEngine::new();
    engine.load_default_rules().unwrap();
    engine.update_context("git_version".to_string(), "2.3.0".to_string());
    let actions = engine.evaluate_rules(&ProbeResults::none()).unwrap();
    assert!(actions.iter().all(|a| a.action_type != ActionType::LogEvent));
}

#[test]
fn version_check_is_lexicographic_not_numeric() {
    let mut engine = RulesEngine::new();
    engine
        .register_rule(simple_rule("v", "git_version", ConditionOperator::VersionCheck, "2.40", "v"))
        .unwrap();
    // Lexicographically "2.100" < "2.40" (because '1' < '4'), though the
    // numeric value 2.100 exceeds 2.40: the rule must not fire.
    engine.update_context("git_version".to_string(), "2.100".to_string());
    let actions = engine.evaluate_rules(&ProbeResults::none()).unwrap();
    assert!(actions.is_empty());
}

#[test]
fn numeric_comparison_is_numeric_not_lexicographic() {
    let mut engine = RulesEngine::new();
    engine
        .register_rule(simple_rule("g", "v", ConditionOperator::GreaterThan, "2.40", "g"))
        .unwrap();
    // Numerically 2.100 < 2.40, so GreaterThan must not fire ...
    engine.update_context("v".to_string(), "2.100".to_string());
    assert!(engine.evaluate_rules(&ProbeResults::none()).unwrap().is_empty());
    // ... while 2.5 > 2.40 must.
    engine.update_context("v".to_string(), "2.5".to_string());
    let actions = engine.evaluate_rules(&ProbeResults::none()).unwrap();
    assert_eq!(tags_of(&actions), vec!["g".to_string()]);
}

#[test]
fn numeric_comparison_handles_signs_and_fractions() {
    let mut engine = RulesEngine::new();
    engine
        .register_rule(simple_rule("a", "v", ConditionOperator::GreaterThan, "-1.5", "a"))
        .unwrap();
    engine
        .register_rule(simple_rule("b", "v", ConditionOperator::LessThan, "-1.19", "b"))
        .unwrap();
    engine.update_context("v".to_string(), "-1.2".to_string());
    // -1.2 > -1.5 holds; -1.2 < -1.19 holds.
    let actions = engine.evaluate_rules(&ProbeResults::none()).unwrap();
    assert_eq!(tags_of(&actions), vec!["a".to_string(), "b".to_string()]);
    // 0.50 equals .5: neither strictly greater nor strictly less.
    let mut engine2 = RulesEngine::new();
    engine2
        .register_rule(simple_rule("c", "v", ConditionOperator::GreaterThan, ".5", "c"))
        .unwrap();
    engine2
        .register_rule(simple_rule("d", "v", ConditionOperator::LessThan, ".5", "d"))
        .unwrap();
    engine2.update_context("v".to_string(), "0.50".to_string());
    assert!(engine2.evaluate_rules(&ProbeResults::none()).unwrap().is_empty());
}

#[test]
fn file_exists_follows_probe_outcome() {
    let mut engine = RulesEngine::new();
    engine
        .register_rule(simple_rule(
            "f",
            "watched",
            ConditionOperator::FileExists,
            "/surely/absent/path",
            "f",
        ))
        .unwrap();
    // The path was probed and found absent: the rule's actions are absent.
    let before = engine.evaluate_rules(&ProbeResults::none()).unwrap();
    assert!(before.is_empty());
    // The path now exists, and the probe says so: the actions are present.
    let probes = ProbeResults {
        files_present: vec!["/surely/absent/path".to_string()],
        commands_present: Vec::new(),
    };
    let after = engine.evaluate_rules(&probes).unwrap();
    assert_eq!(tags_of(&after), vec!["f".to_string()]);
}

#[test]
fn command_exists_follows_probe_outcome() {
    let mut engine = RulesEngine::new();
    engine
        .register_rule(simple_rule("c", "tool", ConditionOperator::CommandExists, "sh", "c"))
        .unwrap();
    assert!(engine.evaluate_rules(&ProbeResults::none()).unwrap().is_empty());
    let probes = ProbeResults {
        files_present: Vec::new(),
        commands_present: vec!["sh".to_string()],
    };
    let actions = engine.evaluate_rules(&probes).unwrap();
    assert_eq!(tags_of(&actions), vec!["c".to_string()]);
}

#[test]
fn many_updates_with_distinct_keys_lose_nothing() {
    let mut engine = RulesEngine::new();
    engine.register_rule(simple_rule("r", "key3", ConditionOperator::Equals, "value3", "r")).unwrap();
    for i in 0..50 {
        engine.update_context(format!("key{}", i), format!("value{}", i));
        // An evaluation pass between updates disturbs nothing.
        engine.evaluate_rules(&ProbeResults::none()).unwrap();
    }
    for i in 0..50 {
        let got = engine.context.get_or_empty(&format!("key{}", i));
        assert_eq!(got, format!("value{}", i));
    }
}

#[test]
fn probe_requests_lists_probe_condition_values() {
    let mut engine = RulesEngine::new();
    engine
        .register_rule(simple_rule("f", "w", ConditionOperator::FileExists, "/some/path", "f"))
        .unwrap();
    engine
        .register_rule(simple_rule("c", "t", ConditionOperator::CommandExists, "prettier", "c"))
        .unwrap();
    engine
        .register_rule(simple_rule("e", "x", ConditionOperator::Equals, "y", "e"))
        .unwrap();
    let (files, commands) = rules_engine::eval::probe_requests(&engine.rules);
    assert_eq!(files, vec!["/some/path".to_string()]);
    assert_eq!(commands, vec!["prettier".to_string()]);
}

#[test]
fn contains_matches_substrings() {
    let mut engine = RulesEngine::new();
    engine
        .register_rule(simple_rule("c1", "path", ConditionOperator::Contains, "src/", "c1"))
        .unwrap();
    engine
        .register_rule(simple_rule("c2", "path", ConditionOperator::Contains, "test", "c2"))
        .unwrap();
    engine.update_context("path".to_string(), "crate/src/lib.rs".to_string());
    let actions = engine.evaluate_rules(&ProbeResults::none()).unwrap();
    assert_eq!(tags_of(&actions), vec!["c1".to_string()]);
}

#[test]
fn default_rules_are_seeded_with_the_given_time() {
    let mut engine = RulesEngine::new();
    engine.load_default_rules_at(42).unwrap();
    let rules = engine.rules.rules();
    assert_eq!(rules.len(), 2);
    assert_eq!(rules[0].id, "session_git_check".to_string());
    assert_eq!(rules[1].id, "code_style_prettier".to_string());
    assert!(rules.iter().all(|r| r.created_at == 42 && r.updated_at == 42));
    assert_eq!(rules[0].priority, 10);
    assert_eq!(rules[1].priority, 8);
}

#[test]
fn prettier_rule_fires_on_ts_extension() {
    let mut engine = RulesEngine::new();
    engine.load_default_rules_at(0).unwrap();
    engine.update_context("file_extension".to_string(), ".ts".to_string());
    let actions = engine.evaluate_rules(&ProbeResults::none()).unwrap();
    let commands: Vec<String> = actions
        .iter()
        .filter(|a| a.action_type == ActionType::ExecuteCommand)
        .map(|a| a.parameters.get_or_empty(&"command".to_string()))
        .collect();
    assert_eq!(commands, vec!["prettier".to_string()]);
    // A different extension leaves the formatter action out.
    engine.update_context("file_extension".to_string(), ".rs".to_string());
    let actions = engine.evaluate_rules(&ProbeResults::none()).unwrap();
    assert!(actions.iter().all(|a| a.action_type != ActionType::ExecuteCommand));
}

#[test]
fn update_overwrites_existing_key() {
    let mut engine = RulesEngine::new();
    engine.update_context("k".to_string(), "old".to_string());
    engine.update_context("k".to_string(), "new".to_string());
    assert_eq!(engine.context.get_or_empty(&"k".to_string()), "new".to_string());
}

use vitric::json::{Json, JsonNumber};
use vitric::rule_file::ValidationReport;
use vitric::rules::{input_actions, RuleSet, Trigger};

fn json(text: &str) -> Json {
    let v: serde_json::Value = serde_json::from_str(text).unwrap();
    convert(&v)
}

fn convert(v: &serde_json::Value) -> Json {
    match v {
        serde_json::Value::Null => Json::Null,
        serde_json::Value::Bool(b) => Json::Bool(*b),
        serde_json::Value::Number(n) => {
            if let Some(u) = n.as_u64() {
                Json::Number(JsonNumber::PosInt(u))
            } else if let Some(i) = n.as_i64() {
                Json::Number(JsonNumber::NegInt(i))
            } else {
                Json::Number(JsonNumber::Float(n.as_f64().unwrap().to_bits()))
            }
        }
        serde_json::Value::String(s) => Json::Str(s.clone()),
        serde_json::Value::Array(a) => Json::Array(a.iter().map(convert).collect()),
        serde_json::Value::Object(m) => Json::Object(m.iter().map(|(k, x)| (k.clone(), convert(x))).collect()),
    }
}

fn parse(text: &str) -> Result<RuleSet, ValidationReport> {
    RuleSet::parse(&json(text), "rules/game.json")
}

#[test]
fn parse_good_rules() {
    let set = parse(r#"{"rules": [
        {"id": "gravity", "on": "tick", "each": ["Position", "Velocity"],
         "do": [{"add": "self.Velocity.y", "by": -9.8}]},
        {"id": "collect", "on": {"event": "collision", "between": ["Player", "Coin"]},
         "if": [["other.Coin.value", ">", 0]],
         "do": [{"despawn": "other"}]},
        {"id": "quit", "on": {"event": "input", "filter": {"action": "quit", "phase": "pressed"}},
         "do": [{"emit": "game-over", "data": {}}]}
    ]}"#)
    .unwrap();
    assert_eq!(set.rules.len(), 3);
    assert_eq!(set.rules[0].trigger, Trigger::Tick);
    assert!(matches!(&set.rules[1].trigger, Trigger::Event { between: Some(_), .. }));
}

#[test]
fn parse_reports_all_problems() {
    let err = parse(r#"{"rules": [
        {"on": "tick", "do": [{"set": "x", "to": 1}]},
        {"id": "a", "on": "tick", "do": [{"fly": "moon"}]},
        {"id": "a", "on": "tick", "do": [{"set": "x", "to": 1}],
         "if": [["x", "~=", 1]]},
        {"id": "b", "on": {"event": "input", "between": ["A", "B"]},
         "do": [{"set": "x", "to": 1}]}
    ]}"#)
    .unwrap_err();
    let codes: Vec<&str> = err.errors.iter().map(|e| e.code.as_str()).collect();
    assert!(codes.contains(&"VR003"), "缺 id: {err:?}");
    assert!(codes.contains(&"VR010"), "未知动作: {err:?}");
    assert!(codes.contains(&"VR009"), "未知操作符: {err:?}");
    assert!(codes.contains(&"VR002"), "id 重复: {err:?}");
    assert!(codes.contains(&"VR005"), "between 配错事件: {err:?}");
}

#[test]
fn input_actions_collects_distinct_actions_and_phases() {
    let set = parse(r#"{"rules": [
        {"id": "left-go", "on": {"event": "input", "filter": {"action": "left", "phase": "pressed"}},
         "do": [{"set": "@hero.Velocity.x", "to": -8}]},
        {"id": "left-stop", "on": {"event": "input", "filter": {"action": "left", "phase": "released"}},
         "do": [{"set": "@hero.Velocity.x", "to": 0}]},
        {"id": "right-go", "on": {"event": "input", "filter": {"action": "right", "phase": "pressed"}},
         "do": [{"set": "@hero.Velocity.x", "to": 8}]},
        {"id": "tickrule", "on": "tick", "do": [{"emit": "noop", "data": {}}]},
        {"id": "hitrule", "on": {"event": "collision", "between": ["A", "B"]},
         "do": [{"emit": "boom", "data": {}}]}
    ]}"#)
    .unwrap();
    let acts = input_actions(&set);
    assert_eq!(acts.len(), 2, "only left/right two actions: {acts:?}");
    assert_eq!(acts[0].action, "left");
    assert_eq!(acts[0].phases, vec!["pressed".to_string(), "released".to_string()]);
    assert_eq!(acts[1].action, "right");
    assert_eq!(acts[1].phases, vec!["pressed".to_string()]);
}

#[test]
fn input_actions_is_deterministic() {
    let set = parse(r#"{"rules": [
        {"id": "a", "on": {"event": "input", "filter": {"action": "fire", "phase": "pressed"}},
         "do": [{"emit": "shot", "data": {}}]},
        {"id": "b", "on": {"event": "input", "filter": {"action": "jump", "phase": "pressed"}},
         "do": [{"emit": "hop", "data": {}}]}
    ]}"#)
    .unwrap();
    assert_eq!(input_actions(&set), input_actions(&set));
}

#[test]
fn input_actions_action_without_phase_has_empty_phases() {
    let set = parse(r#"{"rules": [
        {"id": "any", "on": {"event": "input", "filter": {"action": "menu"}},
         "do": [{"emit": "open", "data": {}}]}
    ]}"#)
    .unwrap();
    let acts = input_actions(&set);
    assert_eq!(acts.len(), 1);
    assert_eq!(acts[0].action, "menu");
    assert!(acts[0].phases.is_empty(), "没声明 phase → phases 空: {acts:?}");
}

#[test]
fn input_actions_ignores_non_input_and_filterless_input() {
    let set = parse(r#"{"rules": [
        {"id": "t", "on": "tick", "do": [{"emit": "x", "data": {}}]},
        {"id": "noaction", "on": {"event": "input", "filter": {"phase": "pressed"}},
         "do": [{"emit": "y", "data": {}}]}
    ]}"#)
    .unwrap();
    assert!(input_actions(&set).is_empty());
}

#[test]
fn rules_document_without_rules_array_is_refused() {
    let err = parse(r#"{"rule": []}"#).unwrap_err();
    assert!(!err.errors.is_empty());
}

#[test]
fn two_item_condition_needs_a_presence_operator() {
    let err = parse(
        r#"{"rules": [{"id": "a", "on": "tick", "if": [["self.Score.value", "<"]], "do": [{"emit": "e"}]}]}"#,
    )
    .unwrap_err();
    let codes: Vec<&str> = err.errors.iter().map(|e| e.code.as_str()).collect();
    assert_eq!(codes, vec!["VR008"]);
    assert_eq!(err.errors[0].path, "rules/game.json#/rules/0/if/0");
}

#[test]
fn two_item_exists_condition_is_accepted() {
    let rs = parse(
        r#"{"rules": [{"id": "a", "on": "tick", "if": [["self.Shield", "exists"], ["self.Aura", "!exists"]], "do": [{"emit": "e"}]}]}"#,
    )
    .unwrap();
    assert_eq!(rs.rules.len(), 1);
    assert_eq!(rs.rules[0].conditions.len(), 2);
}

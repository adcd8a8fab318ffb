use vitric::engine::{decode_action, ActionSpec, 
    add_ints, check_cascade, classify_ref, entity_ref_form, event_field, event_rules, extend_chain, fill_template,
    filter_matches, json_equal, split_target, step_label, tick_rule_positions, unbound_ref, unrecognized_ref,
    EntityRef, RefForm, RuleError, TickScheduler, TickStep,
};
use vitric::json::{Json, JsonNumber};
use vitric::rules::{Event, RuleSet};

fn json(text: &str) -> Json {
    let v: serde_json::Value = serde_json::from_str(text).unwrap();
    convert(&v)
}

fn convert(v: &serde_json::Value) -> Json {
    match v {
        serde_json::Value::Null => Json::Null,
        serde_json::Value::Bool(b) => Json::Bool(*b),
        serde_json::Value::Number(n) => {
            if let Some(u) = n.as_u64() {
                Json::Number(JsonNumber::PosInt(u))
            } else if let Some(i) = n.as_i64() {
                Json::Number(JsonNumber::NegInt(i))
            } else {
                Json::Number(JsonNumber::Float(n.as_f64().unwrap().to_bits()))
            }
        }
        serde_json::Value::String(s) => Json::Str(s.clone()),
        serde_json::Value::Array(a) => Json::Array(a.iter().map(convert).collect()),
        serde_json::Value::Object(m) => Json::Object(m.iter().map(|(k, x)| (k.clone(), convert(x))).collect()),
    }
}

fn rules(text: &str) -> RuleSet {
    RuleSet::parse(&json(text), "rules.json").unwrap()
}

#[test]
fn input_filter_selects_rules_exactly() {
    let set = rules(r#"{"rules": [{
        "id": "jump",
        "on": {"event": "input", "filter": {"action": "jump", "phase": "pressed"}},
        "do": [{"set": "@player.Score.value", "to": 99}]
    }, {"id": "t", "on": "tick", "do": [{"emit": "x", "data": {}}]}]}"#);
    let released = Event::new("input", json(r#"{"action": "jump", "phase": "released"}"#));
    let pressed = Event::new("input", json(r#"{"action": "jump", "phase": "pressed"}"#));
    assert!(event_rules(&set, &released).is_empty(), "phase 不匹配不触发");
    assert_eq!(event_rules(&set, &pressed), vec![0]);
    assert_eq!(tick_rule_positions(&set), vec![1]);
}

#[test]
fn filter_compares_values_as_json() {
    let filter = match json(r#"{"n": 1, "z": 0.0}"#) { Json::Object(m) => m, _ => unreachable!() };
    let data = match json(r#"{"n": 1, "z": -0.0, "extra": true}"#) { Json::Object(m) => m, _ => unreachable!() };
    assert!(filter_matches(&filter, &data));
    let other = match json(r#"{"n": 1.0, "z": 0.0}"#) { Json::Object(m) => m, _ => unreachable!() };
    assert!(!filter_matches(&filter, &other), "an integer and a float are different JSON numbers");
    assert!(json_equal(&json(r#"[1, {"a": "b"}]"#), &json(r#"[1, {"a": "b"}]"#)));
    assert!(!json_equal(&json(r#"[1, 2]"#), &json(r#"[1]"#)));
}

#[test]
fn cascade_guard_reports_the_chain() {
    let mut chain: Vec<String> = Vec::new();
    for depth in 1..=9 {
        let (rule, event) = if depth % 2 == 1 { ("ping", "pong") } else { ("pong", "ping") };
        chain = extend_chain(&chain, rule, event);
        let r = check_cascade(depth, &chain);
        if depth <= 8 {
            assert!(r.is_ok());
        } else {
            match r.unwrap_err() {
                RuleError::CascadeOverflow { depth, chain } => {
                    assert_eq!(depth, 8);
                    assert!(chain.iter().any(|c| c.contains("ping")));
                    assert_eq!(chain[0], "ping→pong");
                }
                other => panic!("{other:?}"),
            }
        }
    }
    let msg = RuleError::CascadeOverflow { depth: 8, chain: vec!["a→b".to_string(), "b→a".to_string()] }.message();
    assert_eq!(msg, "事件级联超过 8 层，疑似规则死循环。触发链: a→b -> b→a。提示：检查链上的规则是否互相 emit 形成回路");
}

#[test]
fn exec_error_names_rule_and_reason() {
    let e = RuleError::Exec { rule: "bad".to_string(), at: step_label("do", 0), message: unbound_ref("self") };
    let msg = e.message();
    assert!(msg.contains("bad") && msg.contains("self"), "{msg}");
    assert!(msg.starts_with("规则 \"bad\" 在 do/0 执行失败: \"self\" 没有绑定。"));
}

#[test]
fn template_fills_slots_in_order() {
    let out = fill_template("SCORE {} / {}", &vec!["2".to_string(), "3".to_string()]).unwrap();
    assert_eq!(out, "SCORE 2 / 3");
    assert_eq!(fill_template("{{}}", &vec!["x".to_string()]).unwrap(), "{x}");
    let err = fill_template("A {} B {}", &vec!["1".to_string()]).unwrap_err();
    assert!(err.contains("format"), "{err}");
    assert_eq!(err, "format 模板 \"A {} B {}\" 有 2 个 {}，但 args 给了 1 个");
}

#[test]
fn references_read_as_their_forms() {
    assert_eq!(classify_ref("self"), RefForm::Binding("self".to_string()));
    assert_eq!(classify_ref("event.amount"), RefForm::EventField("amount".to_string()));
    assert_eq!(classify_ref("other.Coin.value"), RefForm::BoundField { binding: "other".to_string(), field: "Coin.value".to_string() });
    assert_eq!(classify_ref("@player.Score.value"), RefForm::Named { name: "player".to_string(), path: Some("Score.value".to_string()) });
    assert_eq!(classify_ref("@door"), RefForm::Named { name: "door".to_string(), path: None });
    assert_eq!(classify_ref("selfish"), RefForm::Literal);
    assert_eq!(entity_ref_form("self"), EntityRef::SelfRef);
    assert_eq!(entity_ref_form("@door"), EntityRef::Named("door".to_string()));
    assert_eq!(entity_ref_form("e3v1"), EntityRef::Handle("e3v1".to_string()));
    assert_eq!(entity_ref_form("door"), EntityRef::Unrecognized);
    assert!(unrecognized_ref("door").contains("无法识别"));
    assert_eq!(split_target("self.Score.value").unwrap(), ("self".to_string(), "Score.value".to_string()));
    assert!(split_target("self").unwrap_err().starts_with("目标 \"self\" 缺少字段路径"));
}

#[test]
fn event_fields_are_looked_up_or_listed() {
    let e = Event::new("drop", json(r#"{"amount": 3, "kind": "coin"}"#));
    assert_eq!(event_field(Some(&e), "event.amount", "amount").unwrap(), Json::Number(JsonNumber::PosInt(3)));
    assert_eq!(
        event_field(Some(&e), "event.x", "x").unwrap_err(),
        "事件 \"drop\" 没有字段 \"x\"，现有字段: [amount, kind]"
    );
    assert_eq!(
        event_field(None, "event.x", "x").unwrap_err(),
        "引用了 \"event.x\"，但该规则不是事件触发的（tick 规则没有 event 上下文）"
    );
}

#[test]
fn integer_add_is_checked() {
    assert_eq!(add_ints(2, 3), Ok(5));
    assert_eq!(add_ints(i64::MIN, 0), Ok(i64::MIN));
    assert_eq!(
        add_ints(i64::MAX, 1).unwrap_err(),
        "add 整数溢出：9223372036854775807 + 1 超出 i64 范围"
    );
    assert_eq!(
        add_ints(i64::MIN, -1).unwrap_err(),
        "add 整数溢出：-9223372036854775808 + -1 超出 i64 范围"
    );
}

#[test]
fn scheduler_runs_tick_rules_then_events_in_order_and_stops_deep_cascades() {
    let set = rules(r#"{"rules": [
        {"id": "ping", "on": {"event": "ping"}, "do": [{"emit": "pong", "data": {}}]},
        {"id": "t", "on": "tick", "do": [{"emit": "noop", "data": {}}]},
        {"id": "pong", "on": {"event": "pong"}, "do": [{"emit": "ping", "data": {}}]}
    ]}"#);
    let mut s = TickScheduler::new(&set, vec![Event::new("ping", json("{}"))]);
    assert_eq!(s.next(&set), TickStep::RunTickRule(1));
    let mut ran: Vec<usize> = Vec::new();
    loop {
        match s.next(&set) {
            TickStep::RunEventRule { rule, event } => {
                ran.push(rule);
                let next_name = if s.event(event).name == "ping" { "pong" } else { "ping" };
                let id = set.rules[rule].id.clone();
                s.emit(&id, Event::new(next_name, json("{}")));
            }
            TickStep::Overflow(RuleError::CascadeOverflow { depth, chain }) => {
                assert_eq!(depth, 8);
                assert_eq!(chain.len(), 9);
                assert_eq!(chain[0], "ping→pong");
                assert!(chain.iter().any(|c| c.contains("ping")));
                break;
            }
            other => panic!("{other:?}"),
        }
    }
    assert_eq!(ran, vec![0, 2, 0, 2, 0, 2, 0, 2, 0]);
}

#[test]
fn scheduler_finishes_when_the_queue_is_empty() {
    let set = rules(r#"{"rules": [
        {"id": "a", "on": {"event": "go"}, "do": [{"emit": "x", "data": {}}]},
        {"id": "b", "on": {"event": "go"}, "do": [{"emit": "y", "data": {}}]}
    ]}"#);
    let mut s = TickScheduler::new(&set, vec![Event::new("go", json("{}")), Event::new("stay", json("{}"))]);
    assert_eq!(s.next(&set), TickStep::RunEventRule { rule: 0, event: 0 });
    assert_eq!(s.next(&set), TickStep::RunEventRule { rule: 1, event: 0 });
    assert_eq!(s.next(&set), TickStep::Finished);
    assert_eq!(s.next(&set), TickStep::Finished);
}

#[test]
fn actions_decode_into_their_kind_or_name_what_is_missing() {
    match decode_action("r", "do/0", &json(r#"{"set": "self.Health.hp", "to": 3}"#)) {
        Ok(ActionSpec::SetField { target, to }) => {
            assert_eq!(target, "self.Health.hp");
            assert_eq!(to, Json::Number(JsonNumber::PosInt(3)));
        }
        other => panic!("{other:?}"),
    }
    match decode_action("r", "do/1", &json(r#"{"emit": "won"}"#)) {
        Ok(ActionSpec::Emit { name, data }) => {
            assert_eq!(name, "won");
            assert_eq!(data, Json::Object(vec![]));
        }
        other => panic!("{other:?}"),
    }
    match decode_action("r", "do/2", &json(r#"{"spawn": {"name": "boss", "components": {"Hp": 5}}}"#)) {
        Ok(ActionSpec::Spawn { name, components }) => {
            assert_eq!(name.as_deref(), Some("boss"));
            assert_eq!(components, vec![("Hp".to_string(), Json::Number(JsonNumber::PosInt(5)))]);
        }
        other => panic!("{other:?}"),
    }
    assert_eq!(
        decode_action("r", "do/3", &json(r#"{"add": "self.Score.value"}"#)).unwrap_err(),
        RuleError::Exec { rule: "r".to_string(), at: "do/3".to_string(), message: "add 动作缺少 by".to_string() }
    );
    assert_eq!(
        decode_action("r", "do/4", &json(r#"{"spawn": {"name": "x"}}"#)).unwrap_err(),
        RuleError::Exec {
            rule: "r".to_string(),
            at: "do/4".to_string(),
            message: "spawn 动作缺少 components 对象。写法: {\"spawn\": {\"components\": {...}}}".to_string(),
        }
    );
    assert!(matches!(decode_action("r", "do/5", &json(r#"{"call": "boom"}"#)), Ok(ActionSpec::Call { .. })));
    assert!(matches!(decode_action("r", "do/6", &json(r#"{"despawn": "other"}"#)), Ok(ActionSpec::Despawn { .. })));
    assert_eq!(
        decode_action("r", "do/7", &json(r#""emit""#)).unwrap_err(),
        RuleError::Exec {
            rule: "r".to_string(),
            at: "do/7".to_string(),
            message: "action is not any known kind (parse layer should have rejected it)".to_string(),
        }
    );
}

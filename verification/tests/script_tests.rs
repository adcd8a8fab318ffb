use vitric::json::{Json, JsonNumber};
use vitric::pcg::Pcg32;
use vitric::script::{
    classify_js_error, decode_op, parse_listing, revive_f64, rng_from_json, rng_to_json, InstructionBudget,
    validate_system_result, PendingWrite, ScriptError, ScriptLimits, ScriptOp, SystemDecl,
};

fn json(text: &str) -> Json {
    let v: serde_json::Value = serde_json::from_str(text).unwrap();
    convert(&v)
}

fn convert(v: &serde_json::Value) -> Json {
    match v {
        serde_json::Value::Null => Json::Null,
        serde_json::Value::Bool(b) => Json::Bool(*b),
        serde_json::Value::Number(n) => {
            if let Some(u) = n.as_u64() {
                Json::Number(JsonNumber::PosInt(u))
            } else if let Some(i) = n.as_i64() {
                Json::Number(JsonNumber::NegInt(i))
            } else {
                Json::Number(JsonNumber::Float(n.as_f64().unwrap().to_bits()))
            }
        }
        serde_json::Value::String(s) => Json::Str(s.clone()),
        serde_json::Value::Array(a) => Json::Array(a.iter().map(convert).collect()),
        serde_json::Value::Object(m) => Json::Object(m.iter().map(|(k, x)| (k.clone(), convert(x))).collect()),
    }
}

#[test]
fn forged_op_missing_fields_is_prelude_violation_not_panic() {
    let err = decode_op(&json(r#"{"op": "emit"}"#), "系统 \"s\"").unwrap_err();
    assert!(matches!(err, ScriptError::PreludeViolated { .. }), "应为 SC004，实际 {err:?}");
    assert_eq!(err.code(), "SC004");
}

#[test]
fn forged_unknown_op_is_op_error_not_panic() {
    let err = decode_op(&json(r#"{"op": "teleport", "x": 1}"#), "系统 \"s\"").unwrap_err();
    match &err {
        ScriptError::Op { message, .. } => assert!(message.contains("teleport"), "{message}"),
        other => panic!("错误类型不对: {other:?}"),
    }
    assert_eq!(err.code(), "SC013");
}

#[test]
fn ops_decode_into_what_they_ask_for() {
    match decode_op(&json(r#"{"op": "emit", "name": "boom", "data": {"x": 1}}"#), "f").unwrap() {
        ScriptOp::Emit(e) => {
            assert_eq!(e.name, "boom");
            assert_eq!(e.data, vec![("x".to_string(), Json::Number(JsonNumber::PosInt(1)))]);
        }
        other => panic!("{other:?}"),
    }
    match decode_op(&json(r#"{"op": "setField", "ref": "@hero", "path": "Score.value", "value": 3}"#), "f").unwrap() {
        ScriptOp::SetField { target, path, value } => {
            assert_eq!(target, "hero");
            assert_eq!(path, "Score.value");
            assert_eq!(value, Json::Number(JsonNumber::PosInt(3)));
        }
        other => panic!("{other:?}"),
    }
    match decode_op(&json(r#"{"op": "despawn", "id": "e3v1"}"#), "f").unwrap() {
        ScriptOp::Despawn { handle } => assert_eq!(handle, "e3v1"),
        other => panic!("{other:?}"),
    }
    let err = decode_op(&json(r#"{"op": "spawn", "components": 3}"#), "f").unwrap_err();
    assert_eq!(err, ScriptError::Op { location: "f".to_string(), message: "spawn 的 components 必须是对象".to_string() });
    let err = decode_op(&json(r#"{"x": 1}"#), "f").unwrap_err();
    assert_eq!(err, ScriptError::Op { location: "f".to_string(), message: "未知操作 None".to_string() });
    let err = decode_op(&json(r#"{"op": "setField", "ref": "e1v0"}"#), "f").unwrap_err();
    assert_eq!(
        err,
        ScriptError::PreludeViolated {
            location: "f".to_string(),
            message: "op 缺少 prelude 保证的字段 \"path\"（prelude 内部函数可能被覆盖）".to_string()
        }
    );
}

#[test]
fn error_codes_hints_and_messages() {
    let e = ScriptError::Timeout { location: "系统 \"s\"".to_string(), budget: 10 };
    assert_eq!(e.code(), "SC001");
    assert!(e.hint().starts_with("脚本在 10 条指令预算内没有结束"));
    assert!(e.message().starts_with("脚本 系统 \"s\" 超出指令预算（10 条）被强制中断 [SC001]（脚本在 10 条"));
    let u = ScriptError::UndeclaredWrite { system: "s".to_string(), entity: "e1v0".to_string(), component: "Velocity".to_string() };
    assert_eq!(u.code(), "SC012");
    assert!(u.message().starts_with("系统 \"s\" 修改了实体 e1v0 的组件 \"Velocity\"，但 writes 里没有声明它 [SC012]（把 \"Velocity\" 加进"));
    assert_eq!(ScriptError::Load { file: "a.js".to_string(), message: "x".to_string() }.code(), "SC010");
    assert_eq!(ScriptError::Runtime { location: "a".to_string(), message: "x".to_string() }.code(), "SC011");
    assert_eq!(ScriptError::OutOfMemory { location: "a".to_string(), limit: 1 }.code(), "SC002");
    assert_eq!(ScriptError::StackOverflow { location: "a".to_string(), limit: 1 }.code(), "SC003");
}

#[test]
fn limits_default_and_exception_classification() {
    let l = ScriptLimits::default();
    assert_eq!(l, ScriptLimits { memory_limit: 64 * 1024 * 1024, max_stack_size: 1024 * 1024, instruction_budget: 10_000_000 });
    assert_eq!(
        classify_js_error(true, &l, "f", "out of memory".to_string(), false),
        ScriptError::Timeout { location: "f".to_string(), budget: 10_000_000 }
    );
    assert_eq!(
        classify_js_error(false, &l, "f", "InternalError: out of memory".to_string(), false),
        ScriptError::OutOfMemory { location: "f".to_string(), limit: 64 * 1024 * 1024 }
    );
    assert_eq!(
        classify_js_error(false, &l, "f", "RangeError: Maximum Call Stack Size Exceeded".to_string(), true),
        ScriptError::StackOverflow { location: "f".to_string(), limit: 1024 * 1024 }
    );
    assert_eq!(
        classify_js_error(false, &l, "a.js", "SyntaxError".to_string(), true),
        ScriptError::Load { file: "a.js".to_string(), message: "SyntaxError".to_string() }
    );
    assert_eq!(
        classify_js_error(false, &l, "f", "boom".to_string(), false),
        ScriptError::Runtime { location: "f".to_string(), message: "boom".to_string() }
    );
}

#[test]
fn budget_counts_down_then_fires_and_stays_fired() {
    let mut b = InstructionBudget::new();
    b.reset(2);
    assert!(!b.tick());
    assert!(!b.tick());
    assert!(!b.was_interrupted());
    assert!(b.tick());
    assert!(b.was_interrupted());
    assert!(b.tick());
    b.reset(1);
    assert!(!b.was_interrupted());
    assert!(!b.tick());
}

#[test]
fn registry_listing_reads_systems_and_functions() {
    let l = parse_listing(&json(
        r#"{"systems": [{"name": "move", "query": ["Position", 3, "Velocity"], "writes": ["Position"], "catch_up": true},
                        {"name": "idle"}],
            "fns": ["onHit"]}"#,
    ))
    .unwrap();
    assert_eq!(l.systems.len(), 2);
    assert_eq!(l.systems[0].name, "move");
    assert_eq!(l.systems[0].query, vec!["Position".to_string(), "Velocity".to_string()]);
    assert_eq!(l.systems[0].writes, vec!["Position".to_string()]);
    assert!(l.systems[0].has_catch_up);
    assert!(!l.systems[1].has_catch_up);
    assert!(l.systems[1].query.is_empty());
    assert_eq!(l.fns, vec!["onHit".to_string()]);
    let err = parse_listing(&json(r#"{"systems": [{"query": []}]}"#)).unwrap_err();
    assert_eq!(err.code(), "SC010");
    let err = parse_listing(&json(r#""not a listing""#)).unwrap_err();
    assert_eq!(
        err,
        ScriptError::Load {
            file: "<注册表>".to_string(),
            message: "prelude __list 输出缺少 systems 数组（globalThis.__list 可能被脚本覆盖）".to_string()
        }
    );
}

#[test]
fn float_markers_revive_and_bad_ones_are_reported() {
    let v = revive_f64(&json(r#"{"a": {"$f64": "3ff8000000000000"}, "b": [1, {"$f64": "0000000000000000"}]}"#), "f").unwrap();
    assert_eq!(
        v,
        Json::Object(vec![
            ("a".to_string(), Json::Number(JsonNumber::Float(1.5f64.to_bits()))),
            ("b".to_string(), Json::Array(vec![Json::Number(JsonNumber::PosInt(1)), Json::Number(JsonNumber::Float(0))])),
        ])
    );
    let err = revive_f64(&json(r#"[{"$f64": "xyz"}]"#), "f").unwrap_err();
    assert_eq!(
        err,
        ScriptError::Op { location: "f".to_string(), message: "$f64 位串 \"xyz\" 不合法: invalid digit found in string".to_string() }
    );
    let err = revive_f64(&json(r#"{"$f64": "7ff0000000000000"}"#), "f").unwrap_err();
    assert_eq!(
        err,
        ScriptError::Op { location: "f".to_string(), message: "$f64 位串 \"7ff0000000000000\" 不是有限浮点数".to_string() }
    );
    let err = revive_f64(&json(r#"{"$f64": ""}"#), "f").unwrap_err();
    assert!(matches!(err, ScriptError::Op { ref message, .. } if message.ends_with("cannot parse integer from empty string")));
    let err = revive_f64(&json(r#"{"$f64": "10000000000000000"}"#), "f").unwrap_err();
    assert!(matches!(err, ScriptError::Op { ref message, .. } if message.ends_with("number too large to fit in target type")));
    // a marker with a second key is an ordinary object
    let plain = json(r#"{"$f64": "0", "k": 1}"#);
    assert_eq!(revive_f64(&plain, "f").unwrap(), plain);
}

#[test]
fn rng_handoff_round_trips_and_rejects_bad_words() {
    let mut r = Pcg32::new(11);
    r.next_u32();
    let j = rng_to_json(&r);
    let s = r.state().to_string();
    let i = r.increment().to_string();
    assert_eq!(j, Json::Object(vec![("inc".to_string(), Json::Str(i)), ("state".to_string(), Json::Str(s))]));
    assert_eq!(rng_from_json(Some(&j), "f").unwrap(), r);
    assert_eq!(
        rng_from_json(None, "f").unwrap_err(),
        ScriptError::Op { location: "f".to_string(), message: "返回缺少 rng 状态".to_string() }
    );
    assert_eq!(
        rng_from_json(Some(&json(r#"{"state": "-1", "inc": "3"}"#)), "f").unwrap_err(),
        ScriptError::Op { location: "f".to_string(), message: "rng.state 不是合法 u64 字符串".to_string() }
    );
    assert_eq!(rng_from_json(Some(&json(r#"{"state": "+7", "inc": "3"}"#)), "f").unwrap(), Pcg32::from_parts(7, 3));
}

#[test]
fn returned_batch_is_checked_whole_before_any_write() {
    let decl = SystemDecl {
        name: "move".to_string(),
        query: vec!["Pos".to_string(), "Hp".to_string()],
        writes: vec!["Pos".to_string()],
        has_catch_up: false,
    };
    let ids = vec!["e1v1".to_string(), "e2v1".to_string()];
    let returned = match json(r#"[{"id": "e1v1", "Pos": 1, "Hp": 3}, {"id": "e2v1", "Pos": 2, "Hp": 4}]"#) {
        Json::Array(a) => a,
        _ => unreachable!(),
    };
    let ws = validate_system_result(&decl, "系统 \"move\"", &ids, &returned, &vec![vec![true, false], vec![true, false]]).unwrap();
    assert_eq!(
        ws,
        vec![
            PendingWrite { entity: 0, component: "Pos".to_string(), value: Json::Number(JsonNumber::PosInt(1)) },
            PendingWrite { entity: 1, component: "Pos".to_string(), value: Json::Number(JsonNumber::PosInt(2)) },
        ]
    );
    let err = validate_system_result(&decl, "系统 \"move\"", &ids, &returned, &vec![vec![true, false], vec![false, true]]).unwrap_err();
    assert_eq!(
        err,
        ScriptError::UndeclaredWrite { system: "move".to_string(), entity: "e2v1".to_string(), component: "Hp".to_string() }
    );

    let extra = match json(r#"[{"id": "e1v1", "Mana": 1}, {"id": "e2v1"}]"#) {
        Json::Array(a) => a,
        _ => unreachable!(),
    };
    let err = validate_system_result(&decl, "s", &ids, &extra, &vec![vec![false, false], vec![false, false]]).unwrap_err();
    assert_eq!(
        err,
        ScriptError::UndeclaredWrite { system: "move".to_string(), entity: "e1v1".to_string(), component: "Mana".to_string() }
    );

    let not_obj = match json(r#"[{"id": "e1v1"}, 7]"#) {
        Json::Array(a) => a,
        _ => unreachable!(),
    };
    let err = validate_system_result(&decl, "s", &ids, &not_obj, &vec![vec![false, false], vec![false, false]]).unwrap_err();
    assert_eq!(err, ScriptError::Op { location: "s".to_string(), message: "entities[1] 被改成了非对象".to_string() });

    let short = vec![returned[0].deep_clone()];
    let err = validate_system_result(&decl, "s", &ids, &short, &vec![vec![false, false], vec![false, false]]).unwrap_err();
    assert_eq!(
        err,
        ScriptError::Op {
            location: "s".to_string(),
            message: "entities 数组长度从 2 变成了 1。不要增删数组元素；生成/销毁实体用 ctx.spawn / ctx.despawn".to_string(),
        }
    );
}

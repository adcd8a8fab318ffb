use vitric::json::{Json, JsonNumber};
use vitric::recording::{InputRecord, Recording};
use vitric::sim::{
    check_replay_checkpoint, check_replay_end, check_replay_start, next_dormant_ticks, next_particle_ttl,
    parse_snapshot_head, parse_snapshot_queues, Sim, SimError,
};

fn json(text: &str) -> Json {
    let v: serde_json::Value = serde_json::from_str(text).unwrap();
    convert(&v)
}

fn convert(v: &serde_json::Value) -> Json {
    match v {
        serde_json::Value::Null => Json::Null,
        serde_json::Value::Bool(b) => Json::Bool(*b),
        serde_json::Value::Number(n) => {
            if let Some(u) = n.as_u64() {
                Json::Number(JsonNumber::PosInt(u))
            } else if let Some(i) = n.as_i64() {
                Json::Number(JsonNumber::NegInt(i))
            } else {
                Json::Number(JsonNumber::Float(n.as_f64().unwrap().to_bits()))
            }
        }
        serde_json::Value::String(s) => Json::Str(s.clone()),
        serde_json::Value::Array(a) => Json::Array(a.iter().map(convert).collect()),
        serde_json::Value::Object(m) => Json::Object(m.iter().map(|(k, x)| (k.clone(), convert(x))).collect()),
    }
}

#[test]
fn step_events_start_then_inputs_then_replies_then_host_events() {
    let mut sim = Sim::new(1);
    sim.inject_input("jump", "pressed");
    sim.inject_reply("llm-reply", json(r#"{"id": "q1"}"#));
    sim.thaw_region("north");
    let events = sim.begin_step();
    let names: Vec<&str> = events.iter().map(|e| e.name.as_str()).collect();
    assert_eq!(names, vec!["start", "input", "llm-reply", "region-thaw"]);
    assert_eq!(
        events[1].data,
        vec![
            ("action".to_string(), Json::Str("jump".to_string())),
            ("phase".to_string(), Json::Str("pressed".to_string())),
        ]
    );
    assert_eq!(events[3].data, vec![("id".to_string(), Json::Str("north".to_string()))]);
    assert!(!sim.end_step());
    assert_eq!(sim.tick, 1);
    // drained: the next tick starts empty (and is not tick 0)
    assert!(sim.begin_step().is_empty());
}

#[test]
fn recording_captures_inputs_replies_and_checkpoints() {
    let mut sim = Sim::new(5);
    sim.start_recording(111);
    assert!(sim.is_recording());
    for t in 0..60u64 {
        if t == 3 {
            sim.inject_input("left", "released");
            sim.inject_reply("llm-error", json(r#"{"reason": "x"}"#));
        }
        sim.begin_step();
        if sim.end_step() {
            sim.record_checkpoint(222);
        }
    }
    let rec = sim.stop_recording(333).unwrap();
    assert!(!sim.is_recording());
    assert_eq!(rec.seed, 5);
    assert_eq!(rec.inputs, vec![InputRecord { tick: 3, action: "left".to_string(), phase: "released".to_string() }]);
    assert_eq!(rec.replies.len(), 1);
    assert_eq!(rec.replies[0].tick, 3);
    assert_eq!(rec.checkpoints, vec![(0, 111), (60, 222)]);
    assert_eq!(rec.ticks, 60);
    assert_eq!(rec.final_hash, 333);
    assert_eq!(rec.inputs_at(3).len(), 1);
    assert!(rec.inputs_at(4).is_empty());
    assert_eq!(rec.replies_at(3)[0].name, "llm-error");
}

#[test]
fn replay_checks_start_checkpoints_and_end() {
    let mut rec = Recording::empty();
    rec.checkpoints = vec![(0, 10), (60, 20)];
    rec.final_hash = 30;
    assert!(check_replay_start(&rec, 0, 10).is_ok());
    assert_eq!(
        check_replay_start(&rec, 0, 11).unwrap_err(),
        SimError::ReplayDiverged { tick: 0, expected: 10, actual: 11 }
    );
    let mut cursor = 1usize;
    assert!(check_replay_checkpoint(&rec, &mut cursor, 59, 999).is_ok());
    assert_eq!(cursor, 1);
    assert_eq!(
        check_replay_checkpoint(&rec, &mut cursor, 60, 21).unwrap_err(),
        SimError::ReplayDiverged { tick: 60, expected: 20, actual: 21 }
    );
    assert_eq!(cursor, 2);
    assert!(check_replay_end(&rec, 100, 30).is_ok());
    assert!(check_replay_end(&rec, 100, 31).is_err());
}

#[test]
fn sim_error_messages() {
    let e = SimError::ReplayDiverged { tick: 60, expected: 0xabc, actual: 0 };
    assert_eq!(
        e.message(),
        "重放在 tick 60 跑偏：期望哈希 0xabc，实际 0x0。提示：检查这段时间内的逻辑是否引入了非确定性（墙钟时间、外部状态、未声明的随机）"
    );
    let l = SimError::Logic { tick: 2, message: "boom".to_string() };
    assert_eq!(l.message(), "tick 2: 游戏逻辑报错: boom");
}

#[test]
fn snapshot_then_restore_resumes_the_same_stream_and_queues() {
    let mut sim = Sim::new(3);
    for _ in 0..5 {
        sim.rng.next_u32();
        sim.begin_step();
        sim.end_step();
    }
    sim.inject_input("jump", "pressed");
    sim.inject_reply("llm-reply", json(r#"{"id": "q1", "text": "snap"}"#));
    sim.thaw_region("r1");
    let snap = sim.snapshot(json(r#"{"entities": []}"#), Json::Null);

    let mut sim2 = Sim::new(0);
    sim2.start_recording(1);
    sim2.restore(&snap).unwrap();
    assert!(!sim2.is_recording(), "restore 后录像必须作废");
    assert!(sim2.stop_recording(0).is_none());
    assert_eq!(sim2.tick, sim.tick);
    assert_eq!(sim2.seed(), 3);
    assert_eq!(sim2.rng, sim.rng);
    let a: Vec<String> = sim.begin_step().iter().map(|e| e.name.clone()).collect();
    let b: Vec<String> = sim2.begin_step().iter().map(|e| e.name.clone()).collect();
    assert_eq!(a, b);
    assert_eq!(sim.rng.next_u32(), sim2.rng.next_u32());
}

#[test]
fn snapshot_without_pending_replies_is_refused() {
    let sim = Sim::new(3);
    let snap = sim.snapshot(json(r#"{}"#), Json::Null);
    let mut old = match snap {
        Json::Object(m) => m,
        _ => unreachable!(),
    };
    old.retain(|(k, _)| k != "pending_replies");
    let err = parse_snapshot_queues(&Json::Object(old)).unwrap_err();
    assert!(err.contains("pending_replies"), "{err}");
    let err = parse_snapshot_head(&json(r#"{"tick": 1}"#)).unwrap_err();
    assert_eq!(err, "快照缺 seed");
    let head = parse_snapshot_head(&json(r#"{"tick": 1, "seed": 2, "rng": [5, 7], "world": {}}"#)).unwrap();
    assert_eq!((head.tick, head.seed, head.rng.state(), head.rng.increment()), (1, 2, 5, 7));
}

#[test]
fn particles_age_and_regions_count_dormant_ticks() {
    assert_eq!(next_particle_ttl(1), None);
    assert_eq!(next_particle_ttl(5), Some(4));
    assert_eq!(next_dormant_ticks("dormant", None), Some(1));
    assert_eq!(next_dormant_ticks("frozen", Some(4)), Some(5));
    assert_eq!(next_dormant_ticks("active", Some(4)), None);
    let _ = JsonNumber::PosInt(0);
}

#[test]
fn replay_reinjects_recorded_inputs_at_their_ticks() {
    let mut sim = Sim::new(9);
    sim.start_recording(0);
    let mut first: Vec<Vec<String>> = Vec::new();
    for t in 0..10u64 {
        if t == 2 || t == 7 {
            sim.inject_input("jump", "pressed");
            sim.inject_input("left", "released");
            sim.inject_reply("llm-reply", json(r#"{"t": 1}"#));
        }
        first.push(sim.begin_step().iter().map(|e| format!("{}:{:?}", e.name, e.data)).collect());
        sim.end_step();
    }
    let rec = sim.stop_recording(0).unwrap();
    let mut again = Sim::new(9);
    for t in 0..10usize {
        again.inject_recorded(&rec);
        let got: Vec<String> = again.begin_step().iter().map(|e| format!("{}:{:?}", e.name, e.data)).collect();
        assert_eq!(got, first[t], "tick {t}");
        again.end_step();
    }
}

#[test]
fn refused_restore_leaves_the_simulator_as_it_was() {
    let mut sim = Sim::new(5);
    sim.inject_input("jump", "pressed");
    sim.start_recording(11);
    let before = sim.snapshot(Json::Null, Json::Null);
    let err = sim.restore(&json(r#"{"tick": 3, "seed": 9}"#)).unwrap_err();
    assert_eq!(err, "快照缺 rng");
    assert!(sim.is_recording());
    assert_eq!(sim.snapshot(Json::Null, Json::Null), before);
    let mut partial = before.deep_clone();
    if let Json::Object(m) = &mut partial {
        m.retain(|(k, _)| k != "pending_replies");
    }
    let err = sim.restore(&partial).unwrap_err();
    assert!(err.starts_with("快照缺 pending_replies"), "{err}");
    assert!(sim.is_recording());
}

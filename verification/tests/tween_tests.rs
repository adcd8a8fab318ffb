use vitric::sim::SimError;
use vitric::tween::{check_tween_duration, check_tween_start, displaced_tweens, ease_names, tween_phase, Ease, TweenKey, TweenPhase};

#[test]
fn parse_rejects_unknown_curve_listing_all() {
    let err = Ease::parse("bounce").unwrap_err();
    for name in ease_names() {
        assert!(err.contains(name), "错误要列出 {name}: {err}");
    }
    for name in ease_names() {
        assert_eq!(Ease::parse(name).unwrap().name(), name);
    }
}

#[test]
fn unknown_curve_message_is_exact() {
    let err = Ease::parse("bounce").unwrap_err();
    assert_eq!(
        err,
        "未知缓动曲线 \"bounce\"。可用曲线: [linear, ease-in, ease-out, ease-in-out, ease-out-back]"
    );
}

#[test]
fn latecomer_displaces_incumbent_on_same_field_only() {
    let ts = vec![
        TweenKey { target: 1, field: "Position.x".to_string(), start: 0 },
        TweenKey { target: 1, field: "Position.y".to_string(), start: 0 },
        TweenKey { target: 1, field: "Position.x".to_string(), start: 5 },
        TweenKey { target: 2, field: "Position.x".to_string(), start: 1 },
    ];
    let mut losers = displaced_tweens(&ts);
    losers.sort();
    assert_eq!(losers, vec![0]);
}

#[test]
fn tween_phase_counts_elapsed_and_finishes() {
    assert_eq!(tween_phase(10, 4, 20).0, TweenPhase::Running { elapsed: 6 });
    assert_eq!(tween_phase(24, 4, 20).0, TweenPhase::Finished);
    let (p, fresh) = tween_phase(30, -1, 5);
    assert_eq!(p, TweenPhase::Running { elapsed: 0 });
    assert!(fresh);
}

#[test]
fn tween_timing_checks_refuse_bad_duration_and_early_start() {
    assert_eq!(check_tween_duration(7, "e1v1", 3), Ok(3));
    match check_tween_duration(7, "e1v1", 0) {
        Err(SimError::BadComponent { tick, entity, component, reason }) => {
            assert_eq!((tick, entity.as_str(), component.as_str()), (7, "e1v1", "Tween"));
            assert_eq!(reason, "duration 必须 ≥ 1（tick），拿到 0");
        }
        other => panic!("{other:?}"),
    }
    assert!(check_tween_start(7, "e1v1", -1).is_ok());
    assert!(check_tween_start(7, "e1v1", 7).is_ok());
    match check_tween_start(7, "e1v1", 9) {
        Err(SimError::BadComponent { reason, .. }) => assert_eq!(
            reason,
            "start（9）超前当前 tick（7）。start 由引擎在补间起跑时盖章，不要手填——留 -1 即可"
        ),
        other => panic!("{other:?}"),
    }
}

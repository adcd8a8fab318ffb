use vitric::ui::{align_names, anchor_names, button_states, container_kinds, Align, Anchor, ButtonState, ContainerKind, Dir};

#[test]
fn button_state_parse_roundtrip() {
    for name in button_states() {
        assert_eq!(ButtonState::parse(name).unwrap().name(), name);
    }
    assert_eq!(ButtonState::parse("hover"), None, "hover 不是 v1 状态");
}

#[test]
fn every_vocabulary_name_parses_back() {
    for name in anchor_names() {
        assert_eq!(Anchor::parse(name).unwrap().name(), name);
    }
    for name in container_kinds() {
        assert_eq!(ContainerKind::parse(name).unwrap().name(), name);
    }
    for name in align_names() {
        assert_eq!(Align::parse(name).unwrap().name(), name);
    }
    assert_eq!(Dir::parse("up"), Some(Dir::Up));
    assert_eq!(Dir::parse("right"), Some(Dir::Right));
    assert_eq!(Dir::parse("ui-up"), None);
}

#[test]
fn unknown_vocabulary_names_are_none() {
    assert_eq!(Anchor::parse("middle"), None);
    assert_eq!(Anchor::parse("Center"), None);
    assert_eq!(ContainerKind::parse("vbox"), None);
    assert_eq!(Align::parse("left"), None);
    assert_eq!(Anchor::parse("stretch"), Some(Anchor::Stretch));
    assert_eq!(anchor_names().len(), 11);
}

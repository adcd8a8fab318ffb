//! The UI vocabularies: anchor presets, container kinds, alignments, button states and focus
//! directions, each with its fixed set of names as written in scene data. (Layout geometry and
//! press feedback are floating point and live with the renderer-side code.)
use vstd::prelude::*;
use crate::text::str_eq;

verus! {

/// Anchor preset: which point of the parent frame (or viewport) a UI node attaches to. `Stretch` fills the parent frame; `Manual` uses the node's own ratio anchor.
#[derive(Debug, Clone, Copy, PartialEq, Eq, Structural)]
pub enum Anchor {
    TopLeft,
    TopCenter,
    TopRight,
    CenterLeft,
    Center,
    CenterRight,
    BottomLeft,
    BottomCenter,
    BottomRight,
    Stretch,
    Manual,
}

/// The name of a value, as written in scene data.
pub open spec fn anchor_name(x: Anchor) -> Seq<char> {
    match x {
        Anchor::TopLeft => "top-left"@,
        Anchor::TopCenter => "top-center"@,
        Anchor::TopRight => "top-right"@,
        Anchor::CenterLeft => "center-left"@,
        Anchor::Center => "center"@,
        Anchor::CenterRight => "center-right"@,
        Anchor::BottomLeft => "bottom-left"@,
        Anchor::BottomCenter => "bottom-center"@,
        Anchor::BottomRight => "bottom-right"@,
        Anchor::Stretch => "stretch"@,
        Anchor::Manual => "manual"@,
    }
}

/// All legal anchor-preset names, one for each preset.
pub open spec fn anchor_names_spec() -> Seq<Seq<char>> {
    seq!["top-left"@, "top-center"@, "top-right"@, "center-left"@, "center"@, "center-right"@, "bottom-left"@, "bottom-center"@, "bottom-right"@, "stretch"@, "manual"@]
}

/// All legal anchor-preset names, one for each preset.
pub fn anchor_names() -> (v: Vec<&'static str>)
    ensures
        v@.map_values(|t: &str| t@) == anchor_names_spec(),
{
    let v = vec!["top-left", "top-center", "top-right", "center-left", "center", "center-right", "bottom-left", "bottom-center", "bottom-right", "stretch", "manual"];
    assert(v@.map_values(|t: &str| t@) =~= anchor_names_spec());
    v
}

/// Different values have different names (so parsing a name gives back its value).
pub proof fn lemma_anchor_names_distinct()
    ensures
        forall|a: Anchor, b: Anchor| anchor_name(a) == anchor_name(b) ==> a == b,
{
    reveal_strlit("top-left");
    reveal_strlit("top-center");
    reveal_strlit("top-right");
    reveal_strlit("center-left");
    reveal_strlit("center");
    reveal_strlit("center-right");
    reveal_strlit("bottom-left");
    reveal_strlit("bottom-center");
    reveal_strlit("bottom-right");
    reveal_strlit("stretch");
    reveal_strlit("manual");
    assert forall|a: Anchor, b: Anchor| anchor_name(a) == anchor_name(b) implies a == b by {
        if a != b {
            let x = anchor_name(a);
            let y = anchor_name(b);
            match a {
                Anchor::TopLeft => {
                    match b {
                        Anchor::TopLeft => {},
                        Anchor::TopCenter => { assert(x.len() != y.len()); },
                        Anchor::TopRight => { assert(x.len() != y.len()); },
                        Anchor::CenterLeft => { assert(x.len() != y.len()); },
                        Anchor::Center => { assert(x.len() != y.len()); },
                        Anchor::CenterRight => { assert(x.len() != y.len()); },
                        Anchor::BottomLeft => { assert(x.len() != y.len()); },
                        Anchor::BottomCenter => { assert(x.len() != y.len()); },
                        Anchor::BottomRight => { assert(x.len() != y.len()); },
                        Anchor::Stretch => { assert(x.len() != y.len()); },
                        Anchor::Manual => { assert(x.len() != y.len()); },
                    }
                },
                Anchor::TopCenter => {
                    match b {
                        Anchor::TopLeft => { assert(x.len() != y.len()); },
                        Anchor::TopCenter => {},
                        Anchor::TopRight => { assert(x.len() != y.len()); },
                        Anchor::CenterLeft => { assert(x.len() != y.len()); },
                        Anchor::Center => { assert(x.len() != y.len()); },
                        Anchor::CenterRight => { assert(x.len() != y.len()); },
                        Anchor::BottomLeft => { assert(x.len() != y.len()); },
                        Anchor::BottomCenter => { assert(x.len() != y.len()); },
                        Anchor::BottomRight => { assert(x.len() != y.len()); },
                        Anchor::Stretch => { assert(x.len() != y.len()); },
                        Anchor::Manual => { assert(x.len() != y.len()); },
                    }
                },
                Anchor::TopRight => {
                    match b {
                        Anchor::TopLeft => { assert(x.len() != y.len()); },
                        Anchor::TopCenter => { assert(x.len() != y.len()); },
                        Anchor::TopRight => {},
                        Anchor::CenterLeft => { assert(x.len() != y.len()); },
                        Anchor::Center => { assert(x.len() != y.len()); },
                        Anchor::CenterRight => { assert(x.len() != y.len()); },
                        Anchor::BottomLeft => { assert(x.len() != y.len()); },
                        Anchor::BottomCenter => { assert(x.len() != y.len()); },
                        Anchor::BottomRight => { assert(x.len() != y.len()); },
                        Anchor::Stretch => { assert(x.len() != y.len()); },
                        Anchor::Manual => { assert(x.len() != y.len()); },
                    }
                },
                Anchor::CenterLeft => {
                    match b {
                        Anchor::TopLeft => { assert(x.len() != y.len()); },
                        Anchor::TopCenter => { assert(x.len() != y.len()); },
                        Anchor::TopRight => { assert(x.len() != y.len()); },
                        Anchor::CenterLeft => {},
                        Anchor::Center => { assert(x.len() != y.len()); },
                        Anchor::CenterRight => { assert(x.len() != y.len()); },
                        Anchor::BottomLeft => { assert(x[0] != y[0]); },
                        Anchor::BottomCenter => { assert(x.len() != y.len()); },
                        Anchor::BottomRight => { assert(x.len() != y.len()); },
                        Anchor::Stretch => { assert(x.len() != y.len()); },
                        Anchor::Manual => { assert(x.len() != y.len()); },
                    }
                },
                Anchor::Center => {
                    match b {
                        Anchor::TopLeft => { assert(x.len() != y.len()); },
                        Anchor::TopCenter => { assert(x.len() != y.len()); },
                        Anchor::TopRight => { assert(x.len() != y.len()); },
                        Anchor::CenterLeft => { assert(x.len() != y.len()); },
                        Anchor::Center => {},
                        Anchor::CenterRight => { assert(x.len() != y.len()); },
                        Anchor::BottomLeft => { assert(x.len() != y.len()); },
                        Anchor::BottomCenter => { assert(x.len() != y.len()); },
                        Anchor::BottomRight => { assert(x.len() != y.len()); },
                        Anchor::Stretch => { assert(x.len() != y.len()); },
                        Anchor::Manual => { assert(x[0] != y[0]); },
                    }
                },
                Anchor::CenterRight => {
                    match b {
                        Anchor::TopLeft => { assert(x.len() != y.len()); },
                        Anchor::TopCenter => { assert(x.len() != y.len()); },
                        Anchor::TopRight => { assert(x.len() != y.len()); },
                        Anchor::CenterLeft => { assert(x.len() != y.len()); },
                        Anchor::Center => { assert(x.len() != y.len()); },
                        Anchor::CenterRight => {},
                        Anchor::BottomLeft => { assert(x.len() != y.len()); },
                        Anchor::BottomCenter => { assert(x.len() != y.len()); },
                        Anchor::BottomRight => { assert(x[0] != y[0]); },
                        Anchor::Stretch => { assert(x.len() != y.len()); },
                        Anchor::Manual => { assert(x.len() != y.len()); },
                    }
                },
                Anchor::BottomLeft => {
                    match b {
                        Anchor::TopLeft => { assert(x.len() != y.len()); },
                        Anchor::TopCenter => { assert(x.len() != y.len()); },
                        Anchor::TopRight => { assert(x.len() != y.len()); },
                        Anchor::CenterLeft => { assert(x[0] != y[0]); },
                        Anchor::Center => { assert(x.len() != y.len()); },
                        Anchor::CenterRight => { assert(x.len() != y.len()); },
                        Anchor::BottomLeft => {},
                        Anchor::BottomCenter => { assert(x.len() != y.len()); },
                        Anchor::BottomRight => { assert(x.len() != y.len()); },
                        Anchor::Stretch => { assert(x.len() != y.len()); },
                        Anchor::Manual => { assert(x.len() != y.len()); },
                    }
                },
                Anchor::BottomCenter => {
                    match b {
                        Anchor::TopLeft => { assert(x.len() != y.len()); },
                        Anchor::TopCenter => { assert(x.len() != y.len()); },
                        Anchor::TopRight => { assert(x.len() != y.len()); },
                        Anchor::CenterLeft => { assert(x.len() != y.len()); },
                        Anchor::Center => { assert(x.len() != y.len()); },
                        Anchor::CenterRight => { assert(x.len() != y.len()); },
                        Anchor::BottomLeft => { assert(x.len() != y.len()); },
                        Anchor::BottomCenter => {},
                        Anchor::BottomRight => { assert(x.len() != y.len()); },
                        Anchor::Stretch => { assert(x.len() != y.len()); },
                        Anchor::Manual => { assert(x.len() != y.len()); },
                    }
                },
                Anchor::BottomRight => {
                    match b {
                        Anchor::TopLeft => { assert(x.len() != y.len()); },
                        Anchor::TopCenter => { assert(x.len() != y.len()); },
                        Anchor::TopRight => { assert(x.len() != y.len()); },
                        Anchor::CenterLeft => { assert(x.len() != y.len()); },
                        Anchor::Center => { assert(x.len() != y.len()); },
                        Anchor::CenterRight => { assert(x[0] != y[0]); },
                        Anchor::BottomLeft => { assert(x.len() != y.len()); },
                        Anchor::BottomCenter => { assert(x.len() != y.len()); },
                        Anchor::BottomRight => {},
                        Anchor::Stretch => { assert(x.len() != y.len()); },
                        Anchor::Manual => { assert(x.len() != y.len()); },
                    }
                },
                Anchor::Stretch => {
                    match b {
                        Anchor::TopLeft => { assert(x.len() != y.len()); },
                        Anchor::TopCenter => { assert(x.len() != y.len()); },
                        Anchor::TopRight => { assert(x.len() != y.len()); },
                        Anchor::CenterLeft => { assert(x.len() != y.len()); },
                        Anchor::Center => { assert(x.len() != y.len()); },
                        Anchor::CenterRight => { assert(x.len() != y.len()); },
                        Anchor::BottomLeft => { assert(x.len() != y.len()); },
                        Anchor::BottomCenter => { assert(x.len() != y.len()); },
                        Anchor::BottomRight => { assert(x.len() != y.len()); },
                        Anchor::Stretch => {},
                        Anchor::Manual => { assert(x.len() != y.len()); },
                    }
                },
                Anchor::Manual => {
                    match b {
                        Anchor::TopLeft => { assert(x.len() != y.len()); },
                        Anchor::TopCenter => { assert(x.len() != y.len()); },
                        Anchor::TopRight => { assert(x.len() != y.len()); },
                        Anchor::CenterLeft => { assert(x.len() != y.len()); },
                        Anchor::Center => { assert(x[0] != y[0]); },
                        Anchor::CenterRight => { assert(x.len() != y.len()); },
                        Anchor::BottomLeft => { assert(x.len() != y.len()); },
                        Anchor::BottomCenter => { assert(x.len() != y.len()); },
                        Anchor::BottomRight => { assert(x.len() != y.len()); },
                        Anchor::Stretch => { assert(x.len() != y.len()); },
                        Anchor::Manual => {},
                    }
                },
            }
        }
    }
}

impl Anchor {
    /// The value named `s`; none for a name that is not in the vocabulary.
    pub fn parse(s: &str) -> (r: Option<Anchor>)
        ensures
            forall|x: Anchor| r == Some(x) <==> s@ == anchor_name(x),
            r is None <==> (forall|x: Anchor| s@ != anchor_name(x)),
    {
        if str_eq(s, "top-left") {
            proof { lemma_anchor_names_distinct(); assert(s@ == anchor_name(Anchor::TopLeft)); }
            Some(Anchor::TopLeft)
        } else if str_eq(s, "top-center") {
            proof { lemma_anchor_names_distinct(); assert(s@ == anchor_name(Anchor::TopCenter)); }
            Some(Anchor::TopCenter)
        } else if str_eq(s, "top-right") {
            proof { lemma_anchor_names_distinct(); assert(s@ == anchor_name(Anchor::TopRight)); }
            Some(Anchor::TopRight)
        } else if str_eq(s, "center-left") {
            proof { lemma_anchor_names_distinct(); assert(s@ == anchor_name(Anchor::CenterLeft)); }
            Some(Anchor::CenterLeft)
        } else if str_eq(s, "center") {
            proof { lemma_anchor_names_distinct(); assert(s@ == anchor_name(Anchor::Center)); }
            Some(Anchor::Center)
        } else if str_eq(s, "center-right") {
            proof { lemma_anchor_names_distinct(); assert(s@ == anchor_name(Anchor::CenterRight)); }
            Some(Anchor::CenterRight)
        } else if str_eq(s, "bottom-left") {
            proof { lemma_anchor_names_distinct(); assert(s@ == anchor_name(Anchor::BottomLeft)); }
            Some(Anchor::BottomLeft)
        } else if str_eq(s, "bottom-center") {
            proof { lemma_anchor_names_distinct(); assert(s@ == anchor_name(Anchor::BottomCenter)); }
            Some(Anchor::BottomCenter)
        } else if str_eq(s, "bottom-right") {
            proof { lemma_anchor_names_distinct(); assert(s@ == anchor_name(Anchor::BottomRight)); }
            Some(Anchor::BottomRight)
        } else if str_eq(s, "stretch") {
            proof { lemma_anchor_names_distinct(); assert(s@ == anchor_name(Anchor::Stretch)); }
            Some(Anchor::Stretch)
        } else if str_eq(s, "manual") {
            proof { lemma_anchor_names_distinct(); assert(s@ == anchor_name(Anchor::Manual)); }
            Some(Anchor::Manual)
        } else {
            proof {
                assert forall|x: Anchor| s@ != anchor_name(x) by {
                    match x {
                        Anchor::TopLeft => {},
                        Anchor::TopCenter => {},
                        Anchor::TopRight => {},
                        Anchor::CenterLeft => {},
                        Anchor::Center => {},
                        Anchor::CenterRight => {},
                        Anchor::BottomLeft => {},
                        Anchor::BottomCenter => {},
                        Anchor::BottomRight => {},
                        Anchor::Stretch => {},
                        Anchor::Manual => {},
                    }
                }
            }
            None
        }
    }

    /// The value's name.
    pub fn name(self) -> (s: &'static str)
        ensures
            s@ == anchor_name(self),
    {
        match self {
            Anchor::TopLeft => "top-left",
            Anchor::TopCenter => "top-center",
            Anchor::TopRight => "top-right",
            Anchor::CenterLeft => "center-left",
            Anchor::Center => "center",
            Anchor::CenterRight => "center-right",
            Anchor::BottomLeft => "bottom-left",
            Anchor::BottomCenter => "bottom-center",
            Anchor::BottomRight => "bottom-right",
            Anchor::Stretch => "stretch",
            Anchor::Manual => "manual",
        }
    }
}

/// Container kind (lays its child nodes out automatically): vertical, horizontal, or a grid.
#[derive(Debug, Clone, Copy, PartialEq, Eq, Structural)]
pub enum ContainerKind {
    VBox,
    HBox,
    Grid,
}

/// The name of a value, as written in scene data.
pub open spec fn container_kind_name(x: ContainerKind) -> Seq<char> {
    match x {
        ContainerKind::VBox => "VBox"@,
        ContainerKind::HBox => "HBox"@,
        ContainerKind::Grid => "Grid"@,
    }
}

/// All legal container-kind names.
pub open spec fn container_kinds_spec() -> Seq<Seq<char>> {
    seq!["VBox"@, "HBox"@, "Grid"@]
}

/// All legal container-kind names.
pub fn container_kinds() -> (v: Vec<&'static str>)
    ensures
        v@.map_values(|t: &str| t@) == container_kinds_spec(),
{
    let v = vec!["VBox", "HBox", "Grid"];
    assert(v@.map_values(|t: &str| t@) =~= container_kinds_spec());
    v
}

/// Different values have different names (so parsing a name gives back its value).
pub proof fn lemma_container_kind_names_distinct()
    ensures
        forall|a: ContainerKind, b: ContainerKind| container_kind_name(a) == container_kind_name(b) ==> a == b,
{
    reveal_strlit("VBox");
    reveal_strlit("HBox");
    reveal_strlit("Grid");
    assert forall|a: ContainerKind, b: ContainerKind| container_kind_name(a) == container_kind_name(b) implies a == b by {
        if a != b {
            let x = container_kind_name(a);
            let y = container_kind_name(b);
            match a {
                ContainerKind::VBox => {
                    match b {
                        ContainerKind::VBox => {},
                        ContainerKind::HBox => { assert(x[0] != y[0]); },
                        ContainerKind::Grid => { assert(x[0] != y[0]); },
                    }
                },
                ContainerKind::HBox => {
                    match b {
                        ContainerKind::VBox => { assert(x[0] != y[0]); },
                        ContainerKind::HBox => {},
                        ContainerKind::Grid => { assert(x[0] != y[0]); },
                    }
                },
                ContainerKind::Grid => {
                    match b {
                        ContainerKind::VBox => { assert(x[0] != y[0]); },
                        ContainerKind::HBox => { assert(x[0] != y[0]); },
                        ContainerKind::Grid => {},
                    }
                },
            }
        }
    }
}

impl ContainerKind {
    /// The value named `s`; none for a name that is not in the vocabulary.
    pub fn parse(s: &str) -> (r: Option<ContainerKind>)
        ensures
            forall|x: ContainerKind| r == Some(x) <==> s@ == container_kind_name(x),
            r is None <==> (forall|x: ContainerKind| s@ != container_kind_name(x)),
    {
        if str_eq(s, "VBox") {
            proof { lemma_container_kind_names_distinct(); assert(s@ == container_kind_name(ContainerKind::VBox)); }
            Some(ContainerKind::VBox)
        } else if str_eq(s, "HBox") {
            proof { lemma_container_kind_names_distinct(); assert(s@ == container_kind_name(ContainerKind::HBox)); }
            Some(ContainerKind::HBox)
        } else if str_eq(s, "Grid") {
            proof { lemma_container_kind_names_distinct(); assert(s@ == container_kind_name(ContainerKind::Grid)); }
            Some(ContainerKind::Grid)
        } else {
            proof {
                assert forall|x: ContainerKind| s@ != container_kind_name(x) by {
                    match x {
                        ContainerKind::VBox => {},
                        ContainerKind::HBox => {},
                        ContainerKind::Grid => {},
                    }
                }
            }
            None
        }
    }

    /// The value's name.
    pub fn name(self) -> (s: &'static str)
        ensures
            s@ == container_kind_name(self),
    {
        match self {
            ContainerKind::VBox => "VBox",
            ContainerKind::HBox => "HBox",
            ContainerKind::Grid => "Grid",
        }
    }
}

/// Main-axis / cross-axis alignment of a container's children.
#[derive(Debug, Clone, Copy, PartialEq, Eq, Structural)]
pub enum Align {
    Start,
    Center,
    End,
}

/// The name of a value, as written in scene data.
pub open spec fn align_name(x: Align) -> Seq<char> {
    match x {
        Align::Start => "start"@,
        Align::Center => "center"@,
        Align::End => "end"@,
    }
}

/// All legal alignment names.
pub open spec fn align_names_spec() -> Seq<Seq<char>> {
    seq!["start"@, "center"@, "end"@]
}

/// All legal alignment names.
pub fn align_names() -> (v: Vec<&'static str>)
    ensures
        v@.map_values(|t: &str| t@) == align_names_spec(),
{
    let v = vec!["start", "center", "end"];
    assert(v@.map_values(|t: &str| t@) =~= align_names_spec());
    v
}

/// Different values have different names (so parsing a name gives back its value).
pub proof fn lemma_align_names_distinct()
    ensures
        forall|a: Align, b: Align| align_name(a) == align_name(b) ==> a == b,
{
    reveal_strlit("start");
    reveal_strlit("center");
    reveal_strlit("end");
    assert forall|a: Align, b: Align| align_name(a) == align_name(b) implies a == b by {
        if a != b {
            let x = align_name(a);
            let y = align_name(b);
            match a {
                Align::Start => {
                    match b {
                        Align::Start => {},
                        Align::Center => { assert(x.len() != y.len()); },
                        Align::End => { assert(x.len() != y.len()); },
                    }
                },
                Align::Center => {
                    match b {
                        Align::Start => { assert(x.len() != y.len()); },
                        Align::Center => {},
                        Align::End => { assert(x.len() != y.len()); },
                    }
                },
                Align::End => {
                    match b {
                        Align::Start => { assert(x.len() != y.len()); },
                        Align::Center => { assert(x.len() != y.len()); },
                        Align::End => {},
                    }
                },
            }
        }
    }
}

impl Align {
    /// The value named `s`; none for a name that is not in the vocabulary.
    pub fn parse(s: &str) -> (r: Option<Align>)
        ensures
            forall|x: Align| r == Some(x) <==> s@ == align_name(x),
            r is None <==> (forall|x: Align| s@ != align_name(x)),
    {
        if str_eq(s, "start") {
            proof { lemma_align_names_distinct(); assert(s@ == align_name(Align::Start)); }
            Some(Align::Start)
        } else if str_eq(s, "center") {
            proof { lemma_align_names_distinct(); assert(s@ == align_name(Align::Center)); }
            Some(Align::Center)
        } else if str_eq(s, "end") {
            proof { lemma_align_names_distinct(); assert(s@ == align_name(Align::End)); }
            Some(Align::End)
        } else {
            proof {
                assert forall|x: Align| s@ != align_name(x) by {
                    match x {
                        Align::Start => {},
                        Align::Center => {},
                        Align::End => {},
                    }
                }
            }
            None
        }
    }

    /// The value's name.
    pub fn name(self) -> (s: &'static str)
        ensures
            s@ == align_name(self),
    {
        match self {
            Align::Start => "start",
            Align::Center => "center",
            Align::End => "end",
        }
    }
}

/// Button state: the default, selected by focus, just activated (press feedback), or inert.
#[derive(Debug, Clone, Copy, PartialEq, Eq, Structural)]
pub enum ButtonState {
    Normal,
    Focused,
    Pressed,
    Disabled,
}

/// The name of a value, as written in scene data.
pub open spec fn button_state_name(x: ButtonState) -> Seq<char> {
    match x {
        ButtonState::Normal => "normal"@,
        ButtonState::Focused => "focused"@,
        ButtonState::Pressed => "pressed"@,
        ButtonState::Disabled => "disabled"@,
    }
}

/// All legal button-state names, one for each state.
pub open spec fn button_states_spec() -> Seq<Seq<char>> {
    seq!["normal"@, "focused"@, "pressed"@, "disabled"@]
}

/// All legal button-state names, one for each state.
pub fn button_states() -> (v: Vec<&'static str>)
    ensures
        v@.map_values(|t: &str| t@) == button_states_spec(),
{
    let v = vec!["normal", "focused", "pressed", "disabled"];
    assert(v@.map_values(|t: &str| t@) =~= button_states_spec());
    v
}

/// Different values have different names (so parsing a name gives back its value).
pub proof fn lemma_button_state_names_distinct()
    ensures
        forall|a: ButtonState, b: ButtonState| button_state_name(a) == button_state_name(b) ==> a == b,
{
    reveal_strlit("normal");
    reveal_strlit("focused");
    reveal_strlit("pressed");
    reveal_strlit("disabled");
    assert forall|a: ButtonState, b: ButtonState| button_state_name(a) == button_state_name(b) implies a == b by {
        if a != b {
            let x = button_state_name(a);
            let y = button_state_name(b);
            match a {
                ButtonState::Normal => {
                    match b {
                        ButtonState::Normal => {},
                        ButtonState::Focused => { assert(x.len() != y.len()); },
                        ButtonState::Pressed => { assert(x.len() != y.len()); },
                        ButtonState::Disabled => { assert(x.len() != y.len()); },
                    }
                },
                ButtonState::Focused => {
                    match b {
                        ButtonState::Normal => { assert(x.len() != y.len()); },
                        ButtonState::Focused => {},
                        ButtonState::Pressed => { assert(x[0] != y[0]); },
                        ButtonState::Disabled => { assert(x.len() != y.len()); },
                    }
                },
                ButtonState::Pressed => {
                    match b {
                        ButtonState::Normal => { assert(x.len() != y.len()); },
                        ButtonState::Focused => { assert(x[0] != y[0]); },
                        ButtonState::Pressed => {},
                        ButtonState::Disabled => { assert(x.len() != y.len()); },
                    }
                },
                ButtonState::Disabled => {
                    match b {
                        ButtonState::Normal => { assert(x.len() != y.len()); },
                        ButtonState::Focused => { assert(x.len() != y.len()); },
                        ButtonState::Pressed => { assert(x.len() != y.len()); },
                        ButtonState::Disabled => {},
                    }
                },
            }
        }
    }
}

impl ButtonState {
    /// The value named `s`; none for a name that is not in the vocabulary.
    pub fn parse(s: &str) -> (r: Option<ButtonState>)
        ensures
            forall|x: ButtonState| r == Some(x) <==> s@ == button_state_name(x),
            r is None <==> (forall|x: ButtonState| s@ != button_state_name(x)),
    {
        if str_eq(s, "normal") {
            proof { lemma_button_state_names_distinct(); assert(s@ == button_state_name(ButtonState::Normal)); }
            Some(ButtonState::Normal)
        } else if str_eq(s, "focused") {
            proof { lemma_button_state_names_distinct(); assert(s@ == button_state_name(ButtonState::Focused)); }
            Some(ButtonState::Focused)
        } else if str_eq(s, "pressed") {
            proof { lemma_button_state_names_distinct(); assert(s@ == button_state_name(ButtonState::Pressed)); }
            Some(ButtonState::Pressed)
        } else if str_eq(s, "disabled") {
            proof { lemma_button_state_names_distinct(); assert(s@ == button_state_name(ButtonState::Disabled)); }
            Some(ButtonState::Disabled)
        } else {
            proof {
                assert forall|x: ButtonState| s@ != button_state_name(x) by {
                    match x {
                        ButtonState::Normal => {},
                        ButtonState::Focused => {},
                        ButtonState::Pressed => {},
                        ButtonState::Disabled => {},
                    }
                }
            }
            None
        }
    }

    /// The value's name.
    pub fn name(self) -> (s: &'static str)
        ensures
            s@ == button_state_name(self),
    {
        match self {
            ButtonState::Normal => "normal",
            ButtonState::Focused => "focused",
            ButtonState::Pressed => "pressed",
            ButtonState::Disabled => "disabled",
        }
    }
}

/// Focus-navigation direction (the `ui-` input actions with the prefix stripped).
#[derive(Debug, Clone, Copy, PartialEq, Eq, Structural)]
pub enum Dir {
    Up,
    Down,
    Left,
    Right,
}

/// The name of a value, as written in scene data.
pub open spec fn dir_name(x: Dir) -> Seq<char> {
    match x {
        Dir::Up => "up"@,
        Dir::Down => "down"@,
        Dir::Left => "left"@,
        Dir::Right => "right"@,
    }
}

/// All direction names.
pub open spec fn dir_names_spec() -> Seq<Seq<char>> {
    seq!["up"@, "down"@, "left"@, "right"@]
}

/// All direction names.
pub fn dir_names() -> (v: Vec<&'static str>)
    ensures
        v@.map_values(|t: &str| t@) == dir_names_spec(),
{
    let v = vec!["up", "down", "left", "right"];
    assert(v@.map_values(|t: &str| t@) =~= dir_names_spec());
    v
}

/// Different values have different names (so parsing a name gives back its value).
pub proof fn lemma_dir_names_distinct()
    ensures
        forall|a: Dir, b: Dir| dir_name(a) == dir_name(b) ==> a == b,
{
    reveal_strlit("up");
    reveal_strlit("down");
    reveal_strlit("left");
    reveal_strlit("right");
    assert forall|a: Dir, b: Dir| dir_name(a) == dir_name(b) implies a == b by {
        if a != b {
            let x = dir_name(a);
            let y = dir_name(b);
            match a {
                Dir::Up => {
                    match b {
                        Dir::Up => {},
                        Dir::Down => { assert(x.len() != y.len()); },
                        Dir::Left => { assert(x.len() != y.len()); },
                        Dir::Right => { assert(x.len() != y.len()); },
                    }
                },
                Dir::Down => {
                    match b {
                        Dir::Up => { assert(x.len() != y.len()); },
                        Dir::Down => {},
                        Dir::Left => { assert(x[0] != y[0]); },
                        Dir::Right => { assert(x.len() != y.len()); },
                    }
                },
                Dir::Left => {
                    match b {
                        Dir::Up => { assert(x.len() != y.len()); },
                        Dir::Down => { assert(x[0] != y[0]); },
                        Dir::Left => {},
                        Dir::Right => { assert(x.len() != y.len()); },
                    }
                },
                Dir::Right => {
                    match b {
                        Dir::Up => { assert(x.len() != y.len()); },
                        Dir::Down => { assert(x.len() != y.len()); },
                        Dir::Left => { assert(x.len() != y.len()); },
                        Dir::Right => {},
                    }
                },
            }
        }
    }
}

impl Dir {
    /// The value named `s`; none for a name that is not in the vocabulary.
    pub fn parse(s: &str) -> (r: Option<Dir>)
        ensures
            forall|x: Dir| r == Some(x) <==> s@ == dir_name(x),
            r is None <==> (forall|x: Dir| s@ != dir_name(x)),
    {
        if str_eq(s, "up") {
            proof { lemma_dir_names_distinct(); assert(s@ == dir_name(Dir::Up)); }
            Some(Dir::Up)
        } else if str_eq(s, "down") {
            proof { lemma_dir_names_distinct(); assert(s@ == dir_name(Dir::Down)); }
            Some(Dir::Down)
        } else if str_eq(s, "left") {
            proof { lemma_dir_names_distinct(); assert(s@ == dir_name(Dir::Left)); }
            Some(Dir::Left)
        } else if str_eq(s, "right") {
            proof { lemma_dir_names_distinct(); assert(s@ == dir_name(Dir::Right)); }
            Some(Dir::Right)
        } else {
            proof {
                assert forall|x: Dir| s@ != dir_name(x) by {
                    match x {
                        Dir::Up => {},
                        Dir::Down => {},
                        Dir::Left => {},
                        Dir::Right => {},
                    }
                }
            }
            None
        }
    }

    /// The value's name.
    pub fn name(self) -> (s: &'static str)
        ensures
            s@ == dir_name(self),
    {
        match self {
            Dir::Up => "up",
            Dir::Down => "down",
            Dir::Left => "left",
            Dir::Right => "right",
        }
    }
}

} // verus!

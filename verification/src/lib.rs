//! Deterministic core of a glass-box 2D game engine: seeded random streams, recordings,
//! rule-file validation, script-boundary data checks, asset naming and UI vocabularies.
use vstd::prelude::*;

pub mod assets;
pub mod engine;
pub mod font;
pub mod json;
pub mod pcg;
pub mod recording;
pub mod render;
pub mod rule_file;
pub mod rules;
pub mod script;
pub mod sim;
pub mod text;
pub mod tween;
pub mod ui;

verus! {
} // verus!

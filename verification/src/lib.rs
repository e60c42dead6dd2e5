//! Deterministic decision logic for experience acquisition, external effects,
//! evidence diversity, operational knowledge scopes and strategy experiments.
#![allow(unused_imports)]

pub mod error;
pub mod common;
pub mod text;
pub mod ids;
pub mod digest;
pub mod sorted;
pub mod versions;

pub mod effects;
pub mod economics;
pub mod epistemic;
pub mod experimentation;
pub mod evaluation;
pub mod federation;
pub mod hierarchy;
pub mod experience;
pub mod experiment;

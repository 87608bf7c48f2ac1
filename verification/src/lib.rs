use vstd::prelude::*;

pub mod text;
pub mod order;
pub mod patterns;
pub mod strings;
pub mod traceability;
pub mod cycle;
pub mod architecture;
pub mod render;
pub mod model;
pub mod project;
pub mod digest;
pub mod templates;
pub mod markers;
pub mod validation;
pub mod review;
pub mod scaffold;
pub mod generate;
pub mod gate;
pub mod profile;
pub mod freshness;
pub mod cycles;
pub mod setup;
pub mod agent;
pub mod paths;
pub mod catalog;
pub mod viewer;
pub mod graph;
pub mod hooks;
pub mod symbols;

verus! {

} // verus!

//! Configuration compiler and topology validator for an observability
//! pipeline: turns a declarative component graph (sources, transforms,
//! sinks) into a validated, ready-to-run topology description.

pub mod id;
pub mod omap;
pub mod text;
pub mod resource;
pub mod arbiter;
pub mod components;
pub mod testdef;
pub mod builder;
pub mod graph;
pub mod config;
pub mod compiler;
pub mod events;
pub mod hash;
pub mod vars;

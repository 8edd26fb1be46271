//! A verified reference dataset of airports and aircraft with two query
//! services over it: exact, case-insensitive multi-key lookup with bounded
//! top-K fuzzy "did you mean" suggestions, and a two-stage route-candidate
//! pipeline that narrows a bulk destination list to those legal for an
//! aircraft under a ruleset, keeping a structured diagnostic for every
//! rejected candidate.
//!
//! Distances are carried in thousandths of a distance unit and similarity
//! scores as the bit patterns of their non-negative `f32` values, so every
//! boundary rule is stated and proved exactly over integers.

pub mod aircraft;
pub mod airport;
pub mod route;
pub mod text;
pub mod user;
pub mod utils;

//! The ruleset selector under which route candidates are validated.

use vstd::prelude::*;

verus! {

/// The ruleset a route query runs under: the permissive mode waives the
/// runway rule, the strict mode enforces it.
#[derive(Debug, Clone, Copy, PartialEq, Eq, Structural)]
pub enum GameMode {
    Easy,
    Realism,
}

} // verus!

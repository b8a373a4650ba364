//! Response healing: leaked tool-call and thinking markup is taken out of the
//! visible text of model answers.
//!
//! Where both kinds meet, tool-call isolation comes first: the value of a tool
//! argument may hold thinking markup.
pub mod agree;
pub mod dsml;
pub mod markers;
pub mod merge;
pub mod merged;
pub mod responses;
pub mod tags;
pub mod think;

use vstd::prelude::*;

verus! {

/// Which kinds of healing a request asks for.
#[derive(Debug, Clone, Copy, PartialEq, Eq, Structural)]
pub struct HealGates {
    /// Heal leaked DSML tool-call markup.
    pub dsml: bool,
    /// Split leaked `<think>` markup onto the reasoning channel.
    pub think: bool,
    /// Collapse upstream runs of same-type output items into one item.
    pub merge_fragmented: bool,
}

impl Default for HealGates {
    /// All gates are open by default.
    fn default() -> (r: HealGates)
        ensures
            r.dsml && r.think && r.merge_fragmented,
    {
        HealGates { dsml: true, think: true, merge_fragmented: true }
    }
}

} // verus!

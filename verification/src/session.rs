//! Analysis requests: the options a caller may ask for and the search budget
//! they become.
use vstd::prelude::*;
use crate::rules::types::SearchBudget;

verus! {

#[derive(Clone, Copy, Debug)]
pub struct AnalysisOptions {
    pub time_ms: u32,
    pub max_nodes: u32,
    pub max_depth: u8,
}

impl Default for AnalysisOptions {
    fn default() -> (o: Self)
        ensures
            o.time_ms == 250 && o.max_nodes == 100_000 && o.max_depth == 32,
    {
        AnalysisOptions { time_ms: 250, max_nodes: 100_000, max_depth: 32 }
    }
}

/// The options an analysis accepts: at most 5 s and two million nodes, a
/// depth from 1 to 32, and some time or node limit.
pub open spec fn options_ok(o: AnalysisOptions) -> bool {
    &&& o.time_ms <= 5000
    &&& o.max_nodes <= 2_000_000
    &&& 1 <= o.max_depth <= 32
    &&& !(o.time_ms == 0 && o.max_nodes == 0)
}

impl AnalysisOptions {
    /// The search budget of the options, or why they are refused.
    pub fn budget(self) -> (r: Result<SearchBudget, String>)
        ensures
            match r {
                Ok(b) => options_ok(self) && b.max_time_us == self.time_ms as int * 1000 && b.max_nodes
                    == self.max_nodes && b.max_depth == self.max_depth && b.seed == 0,
                Err(e) => !options_ok(self) && e@ == "Search requires timeMs <= 5000, maxNodes <= 2000000, maxDepth 1..32, and a positive time or node limit"@,
            },
    {
        if self.time_ms > 5000 || self.max_nodes > 2_000_000 || !(1 <= self.max_depth && self.max_depth <= 32) || (
        self.time_ms == 0 && self.max_nodes == 0) {
            return Err(
                "Search requires timeMs <= 5000, maxNodes <= 2000000, maxDepth 1..32, and a positive time or node limit".to_owned(),
            );
        }
        Ok(
            SearchBudget {
                max_time_us: self.time_ms as i64 * 1000,
                max_nodes: self.max_nodes as i64,
                max_depth: self.max_depth as i32,
                seed: 0,
            },
        )
    }
}

} // verus!

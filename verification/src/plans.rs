//! Models from drawn plans: what was built from the sheets.

use vstd::prelude::*;

verus! {

/// What was built from a set of plan sheets.
#[derive(Debug)]
pub struct PlanReport {
    pub name: String,
    pub levels: usize,
    pub walls: usize,
    pub doors: usize,
    pub windows: usize,
    pub rooms: usize,
    pub floors: usize,
    pub roofs: usize,
    pub warnings: Vec<String>,
}

impl Default for PlanReport {
    fn default() -> (r: PlanReport)
        ensures
            r.name@.len() == 0,
            r.levels == 0 && r.walls == 0 && r.doors == 0 && r.windows == 0,
            r.rooms == 0 && r.floors == 0 && r.roofs == 0,
            r.warnings@.len() == 0,
    {
        PlanReport {
            name: String::new(),
            levels: 0,
            walls: 0,
            doors: 0,
            windows: 0,
            rooms: 0,
            floors: 0,
            roofs: 0,
            warnings: Vec::new(),
        }
    }
}

} // verus!

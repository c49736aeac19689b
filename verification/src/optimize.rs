//! The optimizer: dead-column elimination, then filter hoisting.

use vstd::prelude::*;

use crate::cells::{optimizing_adds_nothing, total_cells};
use crate::hoist::hoisted;
use crate::prune::pruned;
use crate::query::Query;

verus! {

impl<'a> Query<'a> {
    /// The optimized plan. The receiver is left as it is: both passes work
    /// on a copy, the first on the plan as given, the second on what the
    /// first left. The result has as many steps as the receiver and no more
    /// cells.
    pub fn optimize(&self) -> (plan: Query<'a>)
        ensures
            plan@ == hoisted(pruned(self@)),
            plan@.len() == self@.len(),
            total_cells(plan@) <= total_cells(self@),
    {
        proof {
            optimizing_adds_nothing(self@);
        }
        let mut query = self.clone();
        query.prune_dead_columns();
        query.hoist_filters();
        query
    }
}

} // verus!

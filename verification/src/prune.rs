//! The first rewrite pass: dead-column elimination.
//!
//! Every column of the plan is judged once, on the plan as it stands before
//! the pass. The columns are then visited left to right, and for each one
//! that was judged dead, the position of that index is removed from the plan
//! as it stands at that moment. A removal shifts the cells to its right one
//! place left, so a later index names what used to be its right neighbour.

use vstd::prelude::*;

use crate::action::Action;
use crate::col::is_dead;
use crate::query::{column, width, without_column, Query};

verus! {

/// The plan after the first `n` columns of `rows` have been visited.
pub open spec fn pruned_upto<'a>(rows: Seq<Seq<Action<'a>>>, n: nat) -> Seq<Seq<Action<'a>>>
    decreases n,
{
    if n == 0 {
        rows
    } else {
        let before = pruned_upto(rows, (n - 1) as nat);
        if is_dead(column(rows, n - 1)) {
            without_column(before, n - 1)
        } else {
            before
        }
    }
}

/// The plan after dead-column elimination.
pub open spec fn pruned<'a>(rows: Seq<Seq<Action<'a>>>) -> Seq<Seq<Action<'a>>> {
    pruned_upto(rows, width(rows))
}

impl<'a> Query<'a> {
    /// Dead-column elimination, in place.
    pub fn prune_dead_columns(&mut self)
        ensures
            final(self)@ == pruned(old(self)@),
    {
        let cols = self.cols();
        let mut i: usize = 0;
        while i < cols.len()
            invariant
                i <= cols@.len(),
                cols@.len() == width(old(self)@),
                forall|k: int| 0 <= k < cols@.len() ==> (#[trigger] cols@[k])@ == column(old(self)@, k),
                self@ == pruned_upto(old(self)@, i as nat),
            decreases cols.len() - i,
        {
            if cols[i].is_empty() {
                self.remove_col(i);
            }
            i += 1;
        }
    }
}

} // verus!

//! The second rewrite pass: filter hoisting.
//!
//! The steps are scanned top to bottom with an anchor, the wall that no
//! filter may be raised past. A step that holds a `Group` becomes the anchor.
//! A step that holds a `Filter` first moves the anchor down to the nearest
//! step above it, no higher than the anchor, that is too narrow to host the
//! filter, if there is one; then the step is raised to stand right behind
//! the anchor.

use vstd::prelude::*;

use crate::action::Action;
use crate::query::{raised, Query};
use crate::step::{has_filter, has_group, rightmost_filter};

verus! {

/// Where the hoisting scan stands: the plan as rearranged so far, and the
/// anchor.
pub struct Scan<'a> {
    pub rows: Seq<Seq<Action<'a>>>,
    pub anchor: int,
}

/// The anchor after the search for a narrow row: the position of the first
/// row shorter than `bound` that is met going up from `upper - 1` through
/// `anchor`, or `anchor` itself when no such row is met.
pub open spec fn narrowed(rows: Seq<Seq<Action>>, anchor: int, upper: int, bound: int) -> int
    decreases upper - anchor,
{
    if upper <= anchor {
        anchor
    } else if rows[upper - 1].len() < bound {
        upper - 1
    } else {
        narrowed(rows, anchor, upper - 1, bound)
    }
}

/// One turn of the scan, at the step in position `i`.
pub open spec fn scan_step<'a>(scan: Scan<'a>, i: int) -> Scan<'a> {
    let row = scan.rows[i];
    let wall = if has_group(row) {
        i
    } else {
        scan.anchor
    };
    if has_filter(row) {
        let anchor = match rightmost_filter(row) {
            Some(at) => narrowed(scan.rows, wall, i, at - 1),
            None => wall,
        };
        Scan { rows: raised(scan.rows, i, anchor), anchor: anchor }
    } else {
        Scan { rows: scan.rows, anchor: wall }
    }
}

/// The scan after its first `n` turns on `rows`.
pub open spec fn scanned<'a>(rows: Seq<Seq<Action<'a>>>, n: nat) -> Scan<'a>
    decreases n,
{
    if n == 0 {
        Scan { rows: rows, anchor: 0 }
    } else {
        scan_step(scanned(rows, (n - 1) as nat), n - 1)
    }
}

/// The plan after filter hoisting.
pub open spec fn hoisted<'a>(rows: Seq<Seq<Action<'a>>>) -> Seq<Seq<Action<'a>>> {
    scanned(rows, rows.len()).rows
}

impl<'a> Query<'a> {
    /// The search for a narrow row above step `upper`: going up from
    /// `upper - 1` through `anchor`, the position of the first step whose
    /// length is below `rightmost - 1`, or `anchor` when there is none.
    pub fn narrow_anchor(&self, anchor: usize, upper: usize, rightmost: usize) -> (narrow: usize)
        requires
            upper <= self@.len(),
        ensures
            narrow == narrowed(self@, anchor as int, upper as int, rightmost - 1),
    {
        let mut j: usize = upper;
        while j > anchor
            invariant
                j <= upper <= self.steps@.len(),
                narrowed(self@, anchor as int, upper as int, rightmost - 1) == narrowed(
                    self@,
                    anchor as int,
                    j as int,
                    rightmost - 1,
                ),
            decreases j,
        {
            j -= 1;
            if rightmost >= 2 && self.steps[j].actions.len() < rightmost - 1 {
                return j;
            }
        }
        anchor
    }

    /// Filter hoisting, in place.
    pub fn hoist_filters(&mut self)
        ensures
            final(self)@ == hoisted(old(self)@),
    {
        let mut anchor: usize = 0;
        let mut i: usize = 0;
        while i < self.steps.len()
            invariant
                i <= self@.len(),
                self@.len() == self.steps@.len(),
                self@.len() == old(self)@.len(),
                anchor <= i,
                scanned(old(self)@, i as nat) == (Scan { rows: self@, anchor: anchor as int }),
            decreases self.steps.len() - i,
        {
            if self.steps[i].is_group() {
                anchor = i;
            }
            if self.steps[i].is_filter() {
                if let Some(rightmost) = self.steps[i].widest_filter_index() {
                    proof {
                        narrowed_is_nearest(self@, anchor as int, i as int, rightmost - 1);
                    }
                    anchor = self.narrow_anchor(anchor, i, rightmost);
                }
                self.raise_step(i, anchor);
            }
            i += 1;
        }
    }
}

/// The search never leaves the range it was given, and what it finds is the
/// nearest narrow row: its result is `anchor`, or a position between
/// `anchor` and `upper` whose row is shorter than `bound`; and no row between
/// the result and `upper` is shorter than `bound`.
pub proof fn narrowed_is_nearest(rows: Seq<Seq<Action>>, anchor: int, upper: int, bound: int)
    ensures
        anchor <= narrowed(rows, anchor, upper, bound),
        narrowed(rows, anchor, upper, bound) == anchor || {
            &&& narrowed(rows, anchor, upper, bound) < upper
            &&& rows[narrowed(rows, anchor, upper, bound)].len() < bound
        },
        forall|j: int|
            narrowed(rows, anchor, upper, bound) < j < upper ==> (#[trigger] rows[j]).len() >= bound,
    decreases upper - anchor,
{
    if upper > anchor && !(rows[upper - 1].len() < bound) {
        narrowed_is_nearest(rows, anchor, upper - 1, bound);
    }
}

} // verus!

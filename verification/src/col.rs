//! A vertical slice of a plan, and the test that finds dead columns.

use vstd::prelude::*;

use crate::action::Action;

verus! {

/// Whether a `Name` stands somewhere before position `at` of `cells`.
pub open spec fn named_before(cells: Seq<Action>, at: int) -> bool {
    exists|n: int| 0 <= n < at && n < cells.len() && #[trigger] cells[n] is Name
}

/// Whether a `Filter` or a `Join` stands somewhere before position `at` of
/// `cells`.
pub open spec fn read_before(cells: Seq<Action>, at: int) -> bool {
    exists|u: int| 0 <= u < at && u < cells.len() && (#[trigger] cells[u]).reads_column()
}

/// Whether position `at` of `cells` is a hole that kills the column: an
/// `Empty` that comes after a `Name` and before any `Filter` or `Join`.
pub open spec fn dead_hole(cells: Seq<Action>, at: int) -> bool {
    &&& 0 <= at < cells.len()
    &&& cells[at] is Empty
    &&& named_before(cells, at)
    &&& !read_before(cells, at)
}

/// Whether a column is dead: it was introduced by a `Name` and later shows
/// an `Empty` before anything has read it.
pub open spec fn is_dead(cells: Seq<Action>) -> bool {
    exists|at: int| dead_hole(cells, at)
}

/// A column with a `Name`, an `Empty` somewhere below it, and no `Filter` or
/// `Join` anywhere is dead.
pub proof fn unread_hole_is_dead(cells: Seq<Action>, name_at: int, hole_at: int)
    requires
        0 <= name_at < hole_at < cells.len(),
        cells[name_at] is Name,
        cells[hole_at] is Empty,
        forall|u: int| 0 <= u < cells.len() ==> !(#[trigger] cells[u]).reads_column(),
    ensures
        is_dead(cells),
{
    assert(named_before(cells, hole_at));
    assert(dead_hole(cells, hole_at));
}

/// A column without a `Name` is not dead.
pub proof fn unnamed_is_not_dead(cells: Seq<Action>)
    requires
        forall|n: int| 0 <= n < cells.len() ==> !(#[trigger] cells[n] is Name),
    ensures
        !is_dead(cells),
{
}

/// A column without an `Empty` is not dead.
pub proof fn whole_is_not_dead(cells: Seq<Action>)
    requires
        forall|e: int| 0 <= e < cells.len() ==> !(#[trigger] cells[e] is Empty),
    ensures
        !is_dead(cells),
{
}

/// A column is not dead if a `Filter` or a `Join` reads it before it shows
/// its first `Empty` below a `Name`.
pub proof fn read_in_time_is_not_dead(cells: Seq<Action>, read_at: int)
    requires
        0 <= read_at < cells.len(),
        cells[read_at].reads_column(),
        forall|e: int| 0 <= e < read_at ==> !(#[trigger] cells[e] is Empty && named_before(cells, e)),
    ensures
        !is_dead(cells),
{
    assert forall|at: int| !dead_hole(cells, at) by {
        if dead_hole(cells, at) {
            if read_at < at {
                assert(read_before(cells, at));
            }
        }
    }
}

/// The cells of one column of a plan, top to bottom.
#[derive(Debug, PartialEq)]
pub struct Col<'a> {
    pub actions: Vec<Action<'a>>,
}

impl<'a> View for Col<'a> {
    type V = Seq<Action<'a>>;

    open spec fn view(&self) -> Seq<Action<'a>> {
        self.actions@
    }
}

impl<'a> Clone for Col<'a> {
    fn clone(&self) -> (copy: Self)
        ensures
            copy@ == self@,
    {
        Col { actions: self.actions.clone() }
    }
}

impl<'a> Col<'a> {
    /// A column holding `actions`, top to bottom.
    pub fn new(actions: Vec<Action<'a>>) -> (col: Col<'a>)
        ensures
            col@ == actions@,
    {
        Col { actions: actions }
    }

    /// Whether the column is dead. One scan from the top, which never stops
    /// early: a hole counts only while nothing above it has read the column,
    /// and a hole that counted is not undone by a later read.
    pub fn is_empty(&self) -> (dead: bool)
        ensures
            dead == is_dead(self@),
    {
        let mut killed = false;
        let mut is_used = false;
        let mut seen_name = false;
        let mut i: usize = 0;
        while i < self.actions.len()
            invariant
                i <= self.actions.len(),
                seen_name == named_before(self@, i as int),
                is_used == read_before(self@, i as int),
                killed == (exists|at: int| at < i && dead_hole(self@, at)),
            decreases self.actions.len() - i,
        {
            let ghost cells = self@;
            let ghost was_named = seen_name;
            let ghost was_used = is_used;
            let ghost was_killed = killed;
            match self.actions[i] {
                Action::Empty => {
                    if seen_name && !is_used {
                        killed = true
                    }
                },
                Action::Name(_) => seen_name = true,
                Action::Filter => is_used = true,
                Action::Join(_) => is_used = true,
                _ => {},
            }
            proof {
                let here = i as int;
                assert(named_before(cells, here + 1) <==> was_named || cells[here] is Name);
                assert(read_before(cells, here + 1) <==> was_used || cells[here].reads_column());
                if was_killed {
                    let at = choose|at: int| at < here && dead_hole(cells, at);
                    assert(at < here + 1 && dead_hole(cells, at));
                }
                if dead_hole(cells, here) {
                    assert(here < here + 1 && dead_hole(cells, here));
                }
            }
            i += 1;
        }
        proof {
            if is_dead(self@) {
                let at = choose|at: int| dead_hole(self@, at);
                assert(at < i && dead_hole(self@, at));
            }
        }
        killed
    }
}

} // verus!

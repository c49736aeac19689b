//! One row of a plan and the row-level predicates the optimizer asks of it.

use vstd::prelude::*;

use crate::action::Action;

verus! {

/// Whether some cell of `row` is a `Filter`.
pub open spec fn has_filter(row: Seq<Action>) -> bool {
    exists|i: int| 0 <= i < row.len() && #[trigger] row[i] is Filter
}

/// Whether some cell of `row` is a `Group`, whatever its index.
pub open spec fn has_group(row: Seq<Action>) -> bool {
    exists|i: int| 0 <= i < row.len() && #[trigger] row[i] is Group
}

/// The position of the last `Filter` cell of `row`, if it has one.
pub open spec fn rightmost_filter(row: Seq<Action>) -> Option<int>
    decreases row.len(),
{
    if row.len() == 0 {
        None
    } else if row.last() is Filter {
        Some(row.len() - 1)
    } else {
        rightmost_filter(row.drop_last())
    }
}

/// `rightmost_filter` finds a `Filter` exactly when the row has one, and the
/// position it gives holds a `Filter` with none to its right.
pub proof fn rightmost_filter_is_last(row: Seq<Action>)
    ensures
        rightmost_filter(row) is Some <==> has_filter(row),
        rightmost_filter(row) matches Some(at) ==> {
            &&& 0 <= at < row.len()
            &&& row[at] is Filter
            &&& forall|j: int| at < j < row.len() ==> !(#[trigger] row[j] is Filter)
        },
    decreases row.len(),
{
    if row.len() == 0 {
    } else if row.last() is Filter {
    } else {
        let front = row.drop_last();
        rightmost_filter_is_last(front);
        if has_filter(row) {
            let i = choose|i: int| 0 <= i < row.len() && #[trigger] row[i] is Filter;
            assert(front[i] is Filter);
        }
        if has_filter(front) {
            let i = choose|i: int| 0 <= i < front.len() && #[trigger] front[i] is Filter;
            assert(row[i] is Filter);
        }
        if let Some(at) = rightmost_filter(front) {
            assert(row[at] == front[at]);
            assert forall|j: int| at < j < row.len() implies !(#[trigger] row[j] is Filter) by {
                if j < front.len() {
                    assert(row[j] == front[j]);
                }
            }
        }
    }
}

/// One stage of a plan: the operations it applies, one per column that is
/// active at that stage.
#[derive(Debug, PartialEq)]
pub struct Step<'a> {
    pub actions: Vec<Action<'a>>,
}

impl<'a> View for Step<'a> {
    type V = Seq<Action<'a>>;

    open spec fn view(&self) -> Seq<Action<'a>> {
        self.actions@
    }
}

impl<'a> Clone for Step<'a> {
    fn clone(&self) -> (copy: Self)
        ensures
            copy@ == self@,
    {
        Step { actions: self.actions.clone() }
    }
}

impl<'a> Step<'a> {
    /// A step holding `actions`, in order.
    pub fn new(actions: Vec<Action<'a>>) -> (step: Step<'a>)
        ensures
            step@ == actions@,
    {
        Step { actions: actions }
    }

    /// Whether any cell of the step is a `Filter`.
    pub fn is_filter(&self) -> (found: bool)
        ensures
            found == has_filter(self@),
    {
        let mut i: usize = 0;
        while i < self.actions.len()
            invariant
                i <= self.actions.len(),
                forall|k: int| 0 <= k < i ==> !(#[trigger] self@[k] is Filter),
            decreases self.actions.len() - i,
        {
            if let Action::Filter = self.actions[i] {
                return true;
            }
            i += 1;
        }
        false
    }

    /// The position of the right-most `Filter` cell, or `None` when the step
    /// has no `Filter`.
    pub fn widest_filter_index(&self) -> (found: Option<usize>)
        ensures
            found is Some <==> has_filter(self@),
            found matches Some(at) ==> {
                &&& at < self@.len()
                &&& self@[at as int] is Filter
                &&& forall|j: int| at < j < self@.len() ==> !(#[trigger] self@[j] is Filter)
                &&& rightmost_filter(self@) == Some(at as int)
            },
            found is None ==> rightmost_filter(self@) is None,
    {
        let mut i: usize = self.actions.len();
        while i > 0
            invariant
                i <= self.actions.len(),
                forall|k: int| i <= k < self@.len() ==> !(#[trigger] self@[k] is Filter),
            decreases i,
        {
            i -= 1;
            if let Action::Filter = self.actions[i] {
                proof {
                    rightmost_filter_is_last(self@);
                }
                return Some(i);
            }
        }
        proof {
            rightmost_filter_is_last(self@);
        }
        None
    }

    /// Whether any cell of the step is a `Group`.
    pub fn is_group(&self) -> (found: bool)
        ensures
            found == has_group(self@),
    {
        let mut i: usize = 0;
        while i < self.actions.len()
            invariant
                i <= self.actions.len(),
                forall|k: int| 0 <= k < i ==> !(#[trigger] self@[k] is Group),
            decreases self.actions.len() - i,
        {
            if let Action::Group(_) = self.actions[i] {
                return true;
            }
            i += 1;
        }
        false
    }
}

} // verus!

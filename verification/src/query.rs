//! The plan itself: an ordered sequence of steps, read as a jagged matrix.

use vstd::prelude::*;

use crate::action::Action;
use crate::col::Col;
use crate::step::Step;

verus! {

/// The number of columns a plan currently has: the length of its last row,
/// and zero for a plan without rows.
pub open spec fn width(rows: Seq<Seq<Action>>) -> nat {
    if rows.len() == 0 {
        0
    } else {
        rows.last().len()
    }
}

/// Column `index` of a plan: the cell each row holds at that position, top to
/// bottom, with `Empty` standing in for every row too short to reach it.
pub open spec fn column<'a>(rows: Seq<Seq<Action<'a>>>, index: int) -> Seq<Action<'a>> {
    Seq::new(
        rows.len(),
        |r: int|
            if 0 <= index < rows[r].len() {
                rows[r][index]
            } else {
                Action::Empty
            },
    )
}

/// A plan with column `index` removed: every row long enough to reach that
/// position loses its cell there, and every shorter row is left as it is.
pub open spec fn without_column<'a>(rows: Seq<Seq<Action<'a>>>, index: int) -> Seq<Seq<Action<'a>>> {
    Seq::new(
        rows.len(),
        |r: int|
            if 0 <= index < rows[r].len() {
                rows[r].remove(index)
            } else {
                rows[r]
            },
    )
}

/// A sequence with the item at `index` moved up to stand right behind
/// `anchor`; the items it passes each move one place down and keep their
/// order. Nothing moves unless `anchor + 1 < index`.
pub open spec fn raised<E>(items: Seq<E>, index: int, anchor: int) -> Seq<E> {
    if 0 <= anchor && anchor + 1 < index < items.len() {
        items.remove(index).insert(anchor + 1, items[index])
    } else {
        items
    }
}

/// `<[T]>::swap` exchanges the items at two positions of a slice and leaves
/// every other item where it was. Both positions must be in bounds.
pub assume_specification<T>[ <[T]>::swap ](slice: &mut [T], a: usize, b: usize)
    requires
        a < old(slice)@.len(),
        b < old(slice)@.len(),
    ensures
        final(slice)@ == old(slice)@.update(a as int, old(slice)@[b as int]).update(
            b as int,
            old(slice)@[a as int],
        ),
;

/// A plan: its steps in execution order. Each step owns its cells.
#[derive(Debug, PartialEq)]
pub struct Query<'a> {
    pub steps: Vec<Step<'a>>,
}

impl<'a> View for Query<'a> {
    type V = Seq<Seq<Action<'a>>>;

    open spec fn view(&self) -> Seq<Seq<Action<'a>>> {
        self.steps@.map_values(|step: Step<'a>| step@)
    }
}

impl<'a> Clone for Query<'a> {
    fn clone(&self) -> (copy: Self)
        ensures
            copy@ == self@,
    {
        let mut steps: Vec<Step<'a>> = Vec::new();
        let mut r: usize = 0;
        while r < self.steps.len()
            invariant
                r <= self.steps.len(),
                steps@.len() == r,
                forall|k: int| 0 <= k < r ==> (#[trigger] steps@[k])@ == self.steps@[k]@,
            decreases self.steps.len() - r,
        {
            steps.push(self.steps[r].clone());
            r += 1;
        }
        Query { steps: steps }
    }
}

impl<'a> Query<'a> {
    /// A plan whose rows are the given vectors, in order. Rows may differ in
    /// length.
    pub fn new(step_vec: Vec<Vec<Action<'a>>>) -> (query: Query<'a>)
        ensures
            query@ == step_vec@.map_values(|row: Vec<Action<'a>>| row@),
    {
        let ghost rows = step_vec@;
        let mut steps: Vec<Step<'a>> = Vec::new();
        for actions in it: step_vec
            invariant
                it.seq() == rows,
                steps@.len() == it.index(),
                forall|k: int| 0 <= k < steps@.len() ==> (#[trigger] steps@[k])@ == rows[k]@,
        {
            steps.push(Step::new(actions));
        }
        Query { steps: steps }
    }

    /// The current number of columns: the length of the last step.
    pub fn width(&self) -> (w: usize)
        ensures
            w == width(self@),
    {
        let n = self.steps.len();
        if n == 0 {
            0
        } else {
            self.steps[n - 1].actions.len()
        }
    }

    /// Column `index`, freshly copied out of the plan.
    pub fn col(&self, index: usize) -> (col: Col<'a>)
        ensures
            col@ == column(self@, index as int),
    {
        let mut actions: Vec<Action<'a>> = Vec::new();
        let mut r: usize = 0;
        while r < self.steps.len()
            invariant
                r <= self.steps.len(),
                actions@.len() == r,
                forall|k: int| 0 <= k < r ==> #[trigger] actions@[k] == column(self@, index as int)[k],
            decreases self.steps.len() - r,
        {
            let step = &self.steps[r];
            let action = if index < step.actions.len() {
                step.actions[index].clone()
            } else {
                Action::Empty
            };
            actions.push(action);
            r += 1;
        }
        Col::new(actions)
    }

    /// Every column of the plan, left to right.
    pub fn cols(&self) -> (cols: Vec<Col<'a>>)
        ensures
            cols@.len() == width(self@),
            forall|i: int| 0 <= i < cols@.len() ==> (#[trigger] cols@[i])@ == column(self@, i),
    {
        let w = self.width();
        let mut cols: Vec<Col<'a>> = Vec::new();
        let mut i: usize = 0;
        while i < w
            invariant
                i <= w,
                cols@.len() == i,
                forall|k: int| 0 <= k < i ==> (#[trigger] cols@[k])@ == column(self@, k),
            decreases w - i,
        {
            cols.push(self.col(i));
            i += 1;
        }
        cols
    }

    /// Removes column `index`: each step that reaches that position loses
    /// its cell there; shorter steps are untouched.
    pub fn remove_col(&mut self, index: usize)
        ensures
            final(self)@ == without_column(old(self)@, index as int),
    {
        let mut r: usize = 0;
        while r < self.steps.len()
            invariant
                r <= self.steps.len(),
                self.steps@.len() == old(self).steps@.len(),
                forall|k: int|
                    0 <= k < r ==> (#[trigger] self.steps@[k])@ == without_column(old(self)@, index as int)[k],
                forall|k: int|
                    r <= k < self.steps@.len() ==> #[trigger] self.steps@[k] == old(self).steps@[k],
            decreases self.steps.len() - r,
        {
            let step = &mut self.steps[r];
            if index < step.actions.len() {
                step.actions.remove(index);
            }
            r += 1;
        }
    }

    /// Moves the step at `index` up to stand right behind `anchor`, by
    /// exchanging it with its upper neighbour again and again. Nothing moves
    /// unless `anchor + 1 < index`.
    pub fn raise_step(&mut self, index: usize, anchor: usize)
        requires
            anchor + 1 < index ==> index < old(self)@.len(),
        ensures
            final(self)@ == raised(old(self)@, index as int, anchor as int),
    {
        if anchor < index && index - anchor > 1 {
            let mut k: usize = index;
            while k > anchor + 1
                invariant
                    anchor < k <= index < old(self).steps@.len(),
                    self.steps@ == old(self).steps@.remove(index as int).insert(
                        k as int,
                        old(self).steps@[index as int],
                    ),
                decreases k,
            {
                self.steps.swap(k, k - 1);
                k -= 1;
            }
            assert(self@ == raised(old(self)@, index as int, anchor as int));
        }
    }
}

} // verus!

//! The operation tags that occupy the cells of a plan.

use vstd::prelude::*;

verus! {

/// One primitive operation occupying a single cell of a plan.
///
/// Identifiers and indices are never interpreted by the optimizer; they are
/// only carried along with the cell.
#[derive(Debug, PartialEq)]
pub enum Action<'a> {
    /// An explicit hole: no operation in this cell.
    Empty,
    /// A reserved slot that is not a hole.
    Reserved,
    /// Introduces a named column.
    Name(&'a str),
    Select,
    Transform,
    Filter,
    Group(u32),
    Join(&'a str),
}

impl<'a> Action<'a> {
    /// Whether this cell consumes its column: a `Filter` or a `Join`.
    pub open spec fn reads_column(self) -> bool {
        self is Filter || self is Join
    }
}

impl<'a> Clone for Action<'a> {
    fn clone(&self) -> (copy: Self)
        ensures
            copy == *self,
    {
        match self {
            Action::Empty => Action::Empty,
            Action::Reserved => Action::Reserved,
            Action::Name(id) => Action::Name(*id),
            Action::Select => Action::Select,
            Action::Transform => Action::Transform,
            Action::Filter => Action::Filter,
            Action::Group(index) => Action::Group(*index),
            Action::Join(id) => Action::Join(*id),
        }
    }
}

} // verus!

//! The size of a plan, counted in cells, and how the two passes change it.

use vstd::prelude::*;

use crate::action::Action;
use crate::hoist::{hoisted, scanned};
use crate::origins::hoisting_rearranges;
use crate::prune::pruned;
use crate::query::raised;
use crate::survivors::pruning_only_shrinks;

verus! {

/// The number of cells of a plan: the lengths of its rows, added up.
pub open spec fn total_cells(rows: Seq<Seq<Action>>) -> nat
    decreases rows.len(),
{
    if rows.len() == 0 {
        0
    } else {
        total_cells(rows.drop_last()) + rows.last().len()
    }
}

/// A row put into a plan adds its cells to the count.
pub proof fn cells_with_row(rows: Seq<Seq<Action>>, at: int, row: Seq<Action>)
    requires
        0 <= at <= rows.len(),
    ensures
        total_cells(rows.insert(at, row)) == total_cells(rows) + row.len(),
    decreases rows.len(),
{
    let wider = rows.insert(at, row);
    if at == rows.len() {
        assert(wider.drop_last() == rows);
    } else {
        cells_with_row(rows.drop_last(), at, row);
        assert(wider.drop_last() == rows.drop_last().insert(at, row));
    }
}

/// A row taken out of a plan takes its cells from the count.
pub proof fn cells_without_row(rows: Seq<Seq<Action>>, at: int)
    requires
        0 <= at < rows.len(),
    ensures
        total_cells(rows.remove(at)) + rows[at].len() == total_cells(rows),
    decreases rows.len(),
{
    let fewer = rows.remove(at);
    if at == rows.len() - 1 {
        assert(fewer == rows.drop_last());
    } else {
        cells_without_row(rows.drop_last(), at);
        assert(fewer.drop_last() == rows.drop_last().remove(at));
    }
}

/// A plan whose rows are each no longer than those of another has no more
/// cells.
pub proof fn shorter_rows_fewer_cells(small: Seq<Seq<Action>>, large: Seq<Seq<Action>>)
    requires
        small.len() == large.len(),
        forall|r: int| 0 <= r < small.len() ==> (#[trigger] small[r]).len() <= large[r].len(),
    ensures
        total_cells(small) <= total_cells(large),
    decreases small.len(),
{
    if small.len() > 0 {
        assert(small.last().len() <= large.last().len());
        shorter_rows_fewer_cells(small.drop_last(), large.drop_last());
    }
}

/// Raising a step changes no row, so it changes no count.
pub proof fn raising_keeps_cells(rows: Seq<Seq<Action>>, index: int, anchor: int)
    ensures
        total_cells(raised(rows, index, anchor)) == total_cells(rows),
{
    if 0 <= anchor && anchor + 1 < index < rows.len() {
        cells_without_row(rows, index);
        cells_with_row(rows.remove(index), anchor + 1, rows[index]);
    }
}

proof fn scan_keeps_cells(rows: Seq<Seq<Action>>, n: nat)
    requires
        n <= rows.len(),
    ensures
        total_cells(scanned(rows, n).rows) == total_cells(rows),
    decreases n,
{
    if n > 0 {
        scan_keeps_cells(rows, (n - 1) as nat);
        raising_keeps_cells(scanned(rows, (n - 1) as nat).rows, n - 1, scanned(rows, n).anchor);
    }
}

/// Dead-column elimination never adds a cell.
pub proof fn pruning_adds_no_cell(rows: Seq<Seq<Action>>)
    ensures
        total_cells(pruned(rows)) <= total_cells(rows),
{
    pruning_only_shrinks(rows);
    shorter_rows_fewer_cells(pruned(rows), rows);
}

/// Filter hoisting neither adds nor drops a cell.
pub proof fn hoisting_keeps_cells(rows: Seq<Seq<Action>>)
    ensures
        total_cells(hoisted(rows)) == total_cells(rows),
{
    scan_keeps_cells(rows, rows.len());
}

/// The optimizer never adds a step or a cell.
pub proof fn optimizing_adds_nothing(rows: Seq<Seq<Action>>)
    ensures
        hoisted(pruned(rows)).len() == rows.len(),
        total_cells(hoisted(pruned(rows))) <= total_cells(rows),
{
    pruning_adds_no_cell(rows);
    pruning_only_shrinks(rows);
    hoisting_keeps_cells(pruned(rows));
    hoisting_rearranges(pruned(rows));
}

} // verus!

//! What dead-column elimination keeps. Each row is rewritten on its own, so
//! the pass is described by the positions of a row whose cells survive it.

use vstd::prelude::*;

use crate::action::Action;
use crate::col::{
    is_dead, named_before, read_in_time_is_not_dead, unnamed_is_not_dead, unread_hole_is_dead,
};
use crate::prune::{pruned, pruned_upto};
use crate::query::{column, width, without_column};

verus! {

/// The positions of a row of length `len` whose cells are still there after
/// the first `n` columns of `rows` have been visited, left to right.
pub open spec fn survivors(rows: Seq<Seq<Action>>, len: nat, n: nat) -> Seq<int>
    decreases n,
{
    if n == 0 {
        Seq::new(len, |p: int| p)
    } else {
        let before = survivors(rows, len, (n - 1) as nat);
        if is_dead(column(rows, n - 1)) && n - 1 < before.len() {
            before.remove(n - 1)
        } else {
            before
        }
    }
}

/// The positions of a row of length `len` whose cells survive the whole
/// pass over `rows`.
pub open spec fn kept(rows: Seq<Seq<Action>>, len: nat) -> Seq<int> {
    survivors(rows, len, width(rows))
}

/// Whether no column of `rows` left of position `limit` was judged dead.
pub open spec fn none_dead_before(rows: Seq<Seq<Action>>, limit: int) -> bool {
    forall|j: int| 0 <= j < limit && j < width(rows) ==> !is_dead(#[trigger] column(rows, j))
}

/// The surviving positions are positions of the row, in rising order.
pub proof fn survivors_rise(rows: Seq<Seq<Action>>, len: nat, n: nat)
    ensures
        survivors(rows, len, n).len() <= len,
        forall|p: int|
            0 <= p < survivors(rows, len, n).len() ==> 0 <= #[trigger] survivors(rows, len, n)[p] < len,
        forall|p: int, q: int|
            0 <= p < q < survivors(rows, len, n).len() ==> #[trigger] survivors(rows, len, n)[p]
                < #[trigger] survivors(rows, len, n)[q],
    decreases n,
{
    if n > 0 {
        survivors_rise(rows, len, (n - 1) as nat);
    }
}

proof fn rows_follow_survivors<'a>(rows: Seq<Seq<Action<'a>>>, n: nat, r: int)
    requires
        0 <= r < rows.len(),
    ensures
        pruned_upto(rows, n).len() == rows.len(),
        pruned_upto(rows, n)[r] == survivors(rows, rows[r].len(), n).map_values(|c: int| rows[r][c]),
    decreases n,
{
    let row = rows[r];
    if n == 0 {
        assert(rows[r] == survivors(rows, row.len(), 0).map_values(|c: int| row[c]));
    } else {
        rows_follow_survivors(rows, (n - 1) as nat, r);
        let before = survivors(rows, row.len(), (n - 1) as nat);
        if is_dead(column(rows, n - 1)) && n - 1 < before.len() {
            assert(before.map_values(|c: int| row[c]).remove(n - 1) == before.remove(n - 1).map_values(
                |c: int| row[c],
            ));
        }
    }
}

/// Each row of the pruned plan is the row as given, read at its surviving
/// positions. So the pass only removes cells, and the cells that stay keep
/// their order.
pub proof fn pruning_keeps_survivors<'a>(rows: Seq<Seq<Action<'a>>>, r: int)
    requires
        0 <= r < rows.len(),
    ensures
        pruned(rows).len() == rows.len(),
        pruned(rows)[r] == kept(rows, rows[r].len()).map_values(|c: int| rows[r][c]),
        pruned(rows)[r].len() <= rows[r].len(),
{
    rows_follow_survivors(rows, width(rows), r);
    survivors_rise(rows, rows[r].len(), width(rows));
}

/// The pass never adds a row, never lengthens one, and never widens the
/// plan.
pub proof fn pruning_only_shrinks(rows: Seq<Seq<Action>>)
    ensures
        pruned(rows).len() == rows.len(),
        forall|r: int| 0 <= r < rows.len() ==> (#[trigger] pruned(rows)[r]).len() <= rows[r].len(),
        width(pruned(rows)) <= width(rows),
{
    assert forall|r: int| 0 <= r < rows.len() implies (#[trigger] pruned(rows)[r]).len() <= rows[r].len() by {
        pruning_keeps_survivors(rows, r);
    }
    if rows.len() > 0 {
        pruning_keeps_survivors(rows, rows.len() - 1);
    }
}

proof fn survivors_only_leave(rows: Seq<Seq<Action>>, len: nat, m: nat, n: nat, c: int)
    requires
        m <= n,
        !survivors(rows, len, m).contains(c),
    ensures
        !survivors(rows, len, n).contains(c),
    decreases n,
{
    if m < n {
        survivors_only_leave(rows, len, m, (n - 1) as nat, c);
        let before = survivors(rows, len, (n - 1) as nat);
        let after = survivors(rows, len, n);
        if after.contains(c) {
            let p = choose|p: int| 0 <= p < after.len() && after[p] == c;
            if is_dead(column(rows, n - 1)) && n - 1 < before.len() {
                if p < n - 1 {
                    assert(before[p] == c);
                } else {
                    assert(before[p + 1] == c);
                }
            } else {
                assert(before[p] == c);
            }
        }
    }
}

proof fn survivors_stay_put(rows: Seq<Seq<Action>>, len: nat, n: nat, limit: int)
    requires
        n <= width(rows),
        none_dead_before(rows, limit),
    ensures
        limit <= len ==> limit <= survivors(rows, len, n).len(),
        n <= limit ==> survivors(rows, len, n).len() == len,
        forall|p: int|
            0 <= p < limit && p < survivors(rows, len, n).len() ==> #[trigger] survivors(rows, len, n)[p]
                == p,
        n <= limit ==> forall|p: int| 0 <= p < len ==> #[trigger] survivors(rows, len, n)[p] == p,
    decreases n,
{
    if n > 0 {
        survivors_stay_put(rows, len, (n - 1) as nat, limit);
        let before = survivors(rows, len, (n - 1) as nat);
        let after = survivors(rows, len, n);
        if n - 1 < limit {
            assert(!is_dead(column(rows, n - 1)));
            assert(after == before);
        } else {
            assert forall|p: int| 0 <= p < limit && p < after.len() implies #[trigger] after[p] == p by {
                assert(after[p] == before[p]);
            }
        }
    }
}

/// The first column that was judged dead is removed: no row keeps its cell
/// at that position.
pub proof fn first_dead_column_goes(rows: Seq<Seq<Action>>, i: int, len: nat)
    requires
        0 <= i < width(rows),
        is_dead(column(rows, i)),
        none_dead_before(rows, i),
    ensures
        !kept(rows, len).contains(i),
{
    survivors_stay_put(rows, len, i as nat, i);
    let before = survivors(rows, len, i as nat);
    let after = survivors(rows, len, (i + 1) as nat);
    if after.contains(i) {
        let p = choose|p: int| 0 <= p < after.len() && after[p] == i;
        if i < before.len() {
            if p < i {
                assert(before[p] == p);
            } else {
                assert(before[p + 1] == p + 1);
            }
        } else {
            assert(before[p] == p);
        }
    }
    survivors_only_leave(rows, len, (i + 1) as nat, width(rows), i);
}

/// A column that stands left of every column judged dead, and was not judged
/// dead itself, is preserved: every row that reaches it keeps its cell
/// there, at the same position.
pub proof fn columns_left_of_the_dead_stay<'a>(rows: Seq<Seq<Action<'a>>>, c: int, r: int)
    requires
        0 <= r < rows.len(),
        0 <= c < rows[r].len(),
        none_dead_before(rows, c + 1),
    ensures
        c < pruned(rows)[r].len(),
        pruned(rows)[r][c] == rows[r][c],
        kept(rows, rows[r].len())[c] == c,
{
    survivors_stay_put(rows, rows[r].len(), width(rows), c + 1);
    pruning_keeps_survivors(rows, r);
}

/// A column in which a `Name` is followed by an `Empty`, and which no
/// `Filter` or `Join` reads, is removed, provided that no column left of it
/// was judged dead: no row keeps its cell at that position.
pub proof fn unread_column_is_removed(
    rows: Seq<Seq<Action>>,
    i: int,
    name_at: int,
    hole_at: int,
    len: nat,
)
    requires
        0 <= i < width(rows),
        0 <= name_at < hole_at < rows.len(),
        column(rows, i)[name_at] is Name,
        column(rows, i)[hole_at] is Empty,
        forall|u: int| 0 <= u < rows.len() ==> !(#[trigger] column(rows, i)[u]).reads_column(),
        none_dead_before(rows, i),
    ensures
        is_dead(column(rows, i)),
        !kept(rows, len).contains(i),
{
    unread_hole_is_dead(column(rows, i), name_at, hole_at);
    first_dead_column_goes(rows, i, len);
}

/// A column without a `Name` is preserved, provided that no column left of
/// it was judged dead: every row that reaches it keeps its cell there.
pub proof fn unnamed_column_is_preserved<'a>(rows: Seq<Seq<Action<'a>>>, c: int, r: int)
    requires
        0 <= r < rows.len(),
        0 <= c < rows[r].len(),
        forall|n: int| 0 <= n < rows.len() ==> !(#[trigger] column(rows, c)[n] is Name),
        none_dead_before(rows, c),
    ensures
        c < pruned(rows)[r].len(),
        pruned(rows)[r][c] == rows[r][c],
{
    unnamed_is_not_dead(column(rows, c));
    columns_left_of_the_dead_stay(rows, c, r);
}

/// A column that a `Filter` or a `Join` reads before it shows its first
/// `Empty` below a `Name` is preserved, provided that no column left of it
/// was judged dead: every row that reaches it keeps its cell there.
pub proof fn read_column_is_preserved<'a>(rows: Seq<Seq<Action<'a>>>, c: int, r: int, read_at: int)
    requires
        0 <= r < rows.len(),
        0 <= c < rows[r].len(),
        0 <= read_at < rows.len(),
        column(rows, c)[read_at].reads_column(),
        forall|e: int|
            0 <= e < read_at ==> !(#[trigger] column(rows, c)[e] is Empty && named_before(
                column(rows, c),
                e,
            )),
        none_dead_before(rows, c),
    ensures
        c < pruned(rows)[r].len(),
        pruned(rows)[r][c] == rows[r][c],
{
    read_in_time_is_not_dead(column(rows, c), read_at);
    columns_left_of_the_dead_stay(rows, c, r);
}

/// Where no column was judged dead, the pass changes nothing.
pub proof fn nothing_dead_nothing_removed(rows: Seq<Seq<Action>>)
    requires
        none_dead_before(rows, width(rows) as int),
    ensures
        pruned(rows) == rows,
{
    pruning_only_shrinks(rows);
    assert forall|r: int| 0 <= r < rows.len() implies #[trigger] pruned(rows)[r] == rows[r] by {
        survivors_stay_put(rows, rows[r].len(), width(rows), width(rows) as int);
        pruning_keeps_survivors(rows, r);
    }
}

/// Where exactly one column was judged dead, the pass removes that column
/// and nothing else.
pub proof fn only_dead_column_goes(rows: Seq<Seq<Action>>, i: int)
    requires
        0 <= i < width(rows),
        forall|j: int| 0 <= j < width(rows) ==> (is_dead(#[trigger] column(rows, j)) <==> j == i),
    ensures
        pruned(rows) == without_column(rows, i),
{
    pruning_only_shrinks(rows);
    assert forall|r: int| 0 <= r < rows.len() implies #[trigger] pruned(rows)[r] == without_column(rows, i)[r] by {
        let len = rows[r].len();
        survivors_stay_put(rows, len, i as nat, i);
        alone_after(rows, len, i, width(rows));
        pruning_keeps_survivors(rows, r);
    }
}

proof fn alone_after(rows: Seq<Seq<Action>>, len: nat, i: int, n: nat)
    requires
        0 <= i < n <= width(rows),
        forall|j: int| 0 <= j < width(rows) ==> (is_dead(#[trigger] column(rows, j)) <==> j == i),
    ensures
        survivors(rows, len, n) == if i < len {
            Seq::new(len, |p: int| p).remove(i)
        } else {
            Seq::new(len, |p: int| p)
        },
    decreases n,
{
    if n == i + 1 {
        assert(none_dead_before(rows, i));
        survivors_stay_put(rows, len, i as nat, i);
        assert(survivors(rows, len, i as nat) == Seq::new(len, |p: int| p));
    } else {
        alone_after(rows, len, i, (n - 1) as nat);
        assert(!is_dead(column(rows, n - 1)));
    }
}

} // verus!

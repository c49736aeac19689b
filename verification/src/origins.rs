//! Where filter hoisting puts each step, and what it never does: it only
//! rearranges, it moves nothing across a step that holds a `Group`, and it
//! keeps the steps without a `Filter` in their order.

use vstd::prelude::*;

use crate::action::Action;
use crate::hoist::{hoisted, narrowed_is_nearest, scanned};
use crate::query::raised;
use crate::step::{has_filter, has_group, rightmost_filter, rightmost_filter_is_last};

verus! {

/// For each position of the plan after `n` turns of the scan, the position
/// that its row had in the plan as given.
pub open spec fn origins(rows: Seq<Seq<Action>>, n: nat) -> Seq<int>
    decreases n,
{
    if n == 0 {
        Seq::new(rows.len(), |p: int| p)
    } else {
        let before = origins(rows, (n - 1) as nat);
        if has_filter(scanned(rows, (n - 1) as nat).rows[n - 1]) {
            raised(before, n - 1, scanned(rows, n).anchor)
        } else {
            before
        }
    }
}

/// For each position of the hoisted plan, the position that its row had in
/// the plan as given.
pub open spec fn hoisted_from(rows: Seq<Seq<Action>>) -> Seq<int> {
    origins(rows, rows.len())
}

/// The anchor that stood when the scan had dealt with the step that the plan
/// as given held at position `i`: the wall behind which that step was put.
pub open spec fn anchor_at(rows: Seq<Seq<Action>>, i: int) -> int {
    scanned(rows, (i + 1) as nat).anchor
}

/// The position from which `raised` takes the item that it puts at
/// position `p`, when it moves something.
pub open spec fn source(p: int, index: int, anchor: int) -> int {
    if p <= anchor {
        p
    } else if p == anchor + 1 {
        index
    } else if p <= index {
        p - 1
    } else {
        p
    }
}

/// Item by item, what `raised` yields when it moves something: the item at
/// `index` goes to `anchor + 1`, the items it passes move one place down,
/// and every other item stays.
pub proof fn raised_items<E>(items: Seq<E>, index: int, anchor: int)
    requires
        0 <= anchor,
        anchor + 1 < index < items.len(),
    ensures
        raised(items, index, anchor).len() == items.len(),
        forall|p: int|
            0 <= p < items.len() ==> #[trigger] raised(items, index, anchor)[p] == items[source(
                p,
                index,
                anchor,
            )],
{
}

/// Each position holds the row that `from` names, and `from` names each row
/// once.
spec fn placed(rows: Seq<Seq<Action>>, now: Seq<Seq<Action>>, from: Seq<int>) -> bool {
    let len = rows.len() as int;
    &&& now.len() == len
    &&& from.len() == len
    &&& forall|p: int| 0 <= p < len ==> 0 <= #[trigger] from[p] < len
    &&& forall|p: int| 0 <= p < len ==> #[trigger] now[p] == rows[from[p]]
    &&& forall|p: int, q: int| 0 <= p < q < len ==> #[trigger] from[p] != #[trigger] from[q]
}

/// The rows from position `n` on have not moved, and the rows above them
/// have stayed above.
spec fn fresh_from(from: Seq<int>, n: int) -> bool {
    &&& forall|p: int| n <= p < from.len() ==> #[trigger] from[p] == p
    &&& forall|p: int| 0 <= p < n && p < from.len() ==> #[trigger] from[p] < n
}

/// The rows that hold a `Group` have not moved, and no row has crossed one.
spec fn walled(rows: Seq<Seq<Action>>, from: Seq<int>) -> bool {
    let len = rows.len() as int;
    &&& forall|g: int| 0 <= g < len && has_group(#[trigger] rows[g]) ==> from[g] == g
    &&& forall|g: int, p: int|
        0 <= g < len && 0 <= p < len && has_group(#[trigger] rows[g]) ==> (p < g <==> #[trigger] from[p]
            < g)
}

/// The rows without a `Filter` stand in the order they had.
spec fn ordered(rows: Seq<Seq<Action>>, from: Seq<int>) -> bool {
    forall|p: int, q: int|
        0 <= p < q < rows.len() && !has_filter(rows[#[trigger] from[p]]) && !has_filter(
            rows[#[trigger] from[q]],
        ) ==> from[p] < from[q]
}

/// Each row with a `Filter` that the scan has dealt with stands below the
/// anchor behind which it was put, or is that anchor and has not moved.
spec fn behind(rows: Seq<Seq<Action>>, from: Seq<int>, n: int) -> bool {
    forall|p: int|
        0 <= p < rows.len() && #[trigger] from[p] < n && has_filter(rows[from[p]]) ==> {
            ||| anchor_at(rows, from[p]) < p
            ||| (anchor_at(rows, from[p]) == p && from[p] == p)
        }
}

/// The anchor lies among the rows that were scanned, and no scanned row that
/// holds a `Group` lies below it.
spec fn anchored(rows: Seq<Seq<Action>>, anchor: int, n: int) -> bool {
    &&& 0 <= anchor
    &&& n == 0 ==> anchor == 0
    &&& n > 0 ==> anchor < n
    &&& forall|g: int| 0 <= g < n && g < rows.len() && has_group(#[trigger] rows[g]) ==> g <= anchor
}

/// What holds of the scan after `n` turns.
spec fn settled(rows: Seq<Seq<Action>>, n: nat) -> bool {
    let scan = scanned(rows, n);
    let from = origins(rows, n);
    &&& placed(rows, scan.rows, from)
    &&& fresh_from(from, n as int)
    &&& anchored(rows, scan.anchor, n as int)
    &&& walled(rows, from)
    &&& ordered(rows, from)
    &&& behind(rows, from, n as int)
}

/// `from` is `was` after the row at `i` was raised behind `anchor`.
spec fn moved(was: Seq<int>, from: Seq<int>, i: int, anchor: int) -> bool {
    &&& 0 <= anchor
    &&& anchor + 1 < i < was.len()
    &&& from.len() == was.len()
    &&& forall|p: int| 0 <= p < was.len() ==> #[trigger] from[p] == was[source(p, i, anchor)]
}

proof fn move_keeps_placed(
    rows: Seq<Seq<Action>>,
    now: Seq<Seq<Action>>,
    was: Seq<int>,
    from: Seq<int>,
    i: int,
    anchor: int,
)
    requires
        placed(rows, now, was),
        moved(was, from, i, anchor),
    ensures
        placed(rows, raised(now, i, anchor), from),
{
    let next = raised(now, i, anchor);
    let len = rows.len() as int;
    raised_items(now, i, anchor);
    assert forall|p: int| 0 <= p < len implies 0 <= #[trigger] from[p] < len by {
        assert(from[p] == was[source(p, i, anchor)]);
    }
    assert forall|p: int| 0 <= p < len implies #[trigger] next[p] == rows[from[p]] by {
        assert(from[p] == was[source(p, i, anchor)]);
        assert(next[p] == now[source(p, i, anchor)]);
    }
    assert forall|p: int, q: int| 0 <= p < q < len implies #[trigger] from[p] != #[trigger] from[q] by {
        let sp = source(p, i, anchor);
        let sq = source(q, i, anchor);
        assert(from[p] == was[sp]);
        assert(from[q] == was[sq]);
        if sp < sq {
            assert(was[sp] != was[sq]);
        } else {
            assert(was[sq] != was[sp]);
        }
    }
}

proof fn move_keeps_fresh(was: Seq<int>, from: Seq<int>, i: int, anchor: int)
    requires
        fresh_from(was, i),
        moved(was, from, i, anchor),
    ensures
        fresh_from(from, i + 1),
{
    assert forall|p: int| i + 1 <= p < from.len() implies #[trigger] from[p] == p by {
        assert(from[p] == was[source(p, i, anchor)]);
    }
    assert forall|p: int| 0 <= p < i + 1 && p < from.len() implies #[trigger] from[p] < i + 1 by {
        let sp = source(p, i, anchor);
        assert(from[p] == was[sp]);
        if sp == i {
            assert(was[i] == i);
        } else {
            assert(was[sp] < i);
        }
    }
}

/// No row that the move touches holds a `Group`.
spec fn group_free(rows: Seq<Seq<Action>>, was: Seq<int>, i: int, anchor: int) -> bool {
    forall|p: int| anchor < p <= i ==> !has_group(rows[#[trigger] was[p]]) && !has_group(rows[p])
}

proof fn move_touches_no_group(
    rows: Seq<Seq<Action>>,
    now: Seq<Seq<Action>>,
    was: Seq<int>,
    i: int,
    wall: int,
    anchor: int,
)
    requires
        0 <= i < rows.len(),
        placed(rows, now, was),
        fresh_from(was, i),
        walled(rows, was),
        anchored(rows, wall, i + 1),
        wall <= anchor < i,
    ensures
        group_free(rows, was, i, anchor),
{
    assert forall|p: int| anchor < p <= i implies !has_group(rows[#[trigger] was[p]]) && !has_group(
        rows[p],
    ) by {
        let g = was[p];
        if has_group(rows[p]) {
            assert(p <= wall);
        }
        if has_group(rows[g]) {
            assert(was[g] == g);
            if g < p {
                assert(was[g] != was[p]);
            }
            if p < g {
                assert(was[p] != was[g]);
            }
        }
    }
}

proof fn move_keeps_walled(rows: Seq<Seq<Action>>, was: Seq<int>, from: Seq<int>, i: int, anchor: int)
    requires
        was.len() == rows.len(),
        walled(rows, was),
        moved(was, from, i, anchor),
        group_free(rows, was, i, anchor),
    ensures
        walled(rows, from),
{
    let len = rows.len() as int;
    assert forall|g: int| 0 <= g < len && has_group(#[trigger] rows[g]) implies from[g] == g by {
        assert(from[g] == was[source(g, i, anchor)]);
        assert(was[g] == g);
        if anchor < g <= i {
            assert(!has_group(rows[was[g]]));
        }
    }
    assert forall|g: int, p: int|
        0 <= g < len && 0 <= p < len && has_group(#[trigger] rows[g]) implies (p < g <==> #[trigger] from[p]
        < g) by {
        let sp = source(p, i, anchor);
        assert(from[p] == was[sp]);
        assert(was[g] == g);
        assert(sp < g <==> was[sp] < g);
        if anchor < g <= i {
            assert(!has_group(rows[was[g]]));
        }
    }
}

proof fn move_keeps_ordered(rows: Seq<Seq<Action>>, was: Seq<int>, from: Seq<int>, i: int, anchor: int)
    requires
        was.len() == rows.len(),
        ordered(rows, was),
        moved(was, from, i, anchor),
        was[i] == i,
        has_filter(rows[i]),
    ensures
        ordered(rows, from),
{
    assert forall|p: int, q: int|
        0 <= p < q < rows.len() && !has_filter(rows[#[trigger] from[p]]) && !has_filter(
            rows[#[trigger] from[q]],
        ) implies from[p] < from[q] by {
        let sp = source(p, i, anchor);
        let sq = source(q, i, anchor);
        assert(from[p] == was[sp]);
        assert(from[q] == was[sq]);
        assert(sp < sq);
        assert(was[sp] < was[sq]);
    }
}

proof fn move_keeps_behind(rows: Seq<Seq<Action>>, was: Seq<int>, from: Seq<int>, i: int, anchor: int)
    requires
        was.len() == rows.len(),
        behind(rows, was, i),
        fresh_from(was, i),
        moved(was, from, i, anchor),
        group_free(rows, was, i, anchor),
        anchor_at(rows, i) == anchor,
        forall|g: int| 0 < g < i && anchor_at(rows, g) == g ==> has_group(#[trigger] rows[g]),
    ensures
        behind(rows, from, i + 1),
{
    assert forall|p: int|
        0 <= p < rows.len() && #[trigger] from[p] < i + 1 && has_filter(rows[from[p]]) implies {
        ||| anchor_at(rows, from[p]) < p
        ||| (anchor_at(rows, from[p]) == p && from[p] == p)
    } by {
        let sp = source(p, i, anchor);
        assert(from[p] == was[sp]);
        if sp != i {
            assert(was[sp] < i);
            if sp != p {
                assert(sp == p - 1 && anchor < sp < i);
                if anchor_at(rows, was[sp]) == sp && was[sp] == sp {
                    assert(has_group(rows[sp]));
                }
            }
        }
    }
}

/// A step below the first that is its own anchor holds a `Group`.
proof fn anchor_means_group(rows: Seq<Seq<Action>>, i: int)
    requires
        0 < i < rows.len(),
        settled(rows, i as nat),
        anchor_at(rows, i) == i,
    ensures
        has_group(rows[i]),
{
    let before = scanned(rows, i as nat);
    let row = before.rows[i];
    assert(origins(rows, i as nat)[i] == i);
    let wall = if has_group(row) {
        i
    } else {
        before.anchor
    };
    if has_filter(row) {
        rightmost_filter_is_last(row);
        let at = rightmost_filter(row)->0;
        narrowed_is_nearest(before.rows, wall, i, at - 1);
    }
}

proof fn scan_settles(rows: Seq<Seq<Action>>, n: nat)
    requires
        n <= rows.len(),
    ensures
        settled(rows, n),
    decreases n,
{
    if n > 0 {
        let i = (n - 1) as int;
        scan_settles(rows, i as nat);
        let before = scanned(rows, i as nat);
        let after = scanned(rows, n);
        let was = origins(rows, i as nat);
        let from = origins(rows, n);
        let row = before.rows[i];
        assert(was[i] == i);
        assert(row == rows[i]);
        let wall = if has_group(row) {
            i
        } else {
            before.anchor
        };
        assert(anchored(rows, wall, i + 1));
        if has_filter(row) {
            rightmost_filter_is_last(row);
            let at = rightmost_filter(row)->0;
            narrowed_is_nearest(before.rows, wall, i, at - 1);
            let anchor = after.anchor;
            assert(after.rows == raised(before.rows, i, anchor));
            assert(from == raised(was, i, anchor));
            assert(anchored(rows, anchor, i + 1));
            if anchor + 1 < i {
                raised_items(was, i, anchor);
                assert(moved(was, from, i, anchor));
                move_keeps_placed(rows, before.rows, was, from, i, anchor);
                move_keeps_fresh(was, from, i, anchor);
                move_touches_no_group(rows, before.rows, was, i, wall, anchor);
                move_keeps_walled(rows, was, from, i, anchor);
                move_keeps_ordered(rows, was, from, i, anchor);
                assert forall|g: int| 0 < g < i && anchor_at(rows, g) == g implies has_group(
                    #[trigger] rows[g],
                ) by {
                    scan_settles(rows, g as nat);
                    anchor_means_group(rows, g);
                }
                move_keeps_behind(rows, was, from, i, anchor);
            } else {
                assert(from == was);
                assert(after.rows == before.rows);
                assert(behind(rows, from, i + 1));
            }
        } else {
            assert(from == was);
            assert(after.rows == before.rows);
            assert(behind(rows, from, i + 1));
        }
    }
}

/// Hoisting only rearranges the steps: the hoisted plan holds, at each
/// position, one step of the plan as given, each of them exactly once.
pub proof fn hoisting_rearranges(rows: Seq<Seq<Action>>)
    ensures
        hoisted(rows).len() == rows.len(),
        hoisted_from(rows).len() == rows.len(),
        forall|p: int| 0 <= p < rows.len() ==> 0 <= #[trigger] hoisted_from(rows)[p] < rows.len(),
        forall|p: int| 0 <= p < rows.len() ==> #[trigger] hoisted(rows)[p] == rows[hoisted_from(rows)[p]],
        forall|p: int, q: int|
            0 <= p < q < rows.len() ==> #[trigger] hoisted_from(rows)[p] != #[trigger] hoisted_from(rows)[q],
        hoisted(rows).to_multiset() == rows.to_multiset(),
{
    scan_settles(rows, rows.len());
    scan_keeps_steps(rows, rows.len());
}

proof fn scan_keeps_steps(rows: Seq<Seq<Action>>, n: nat)
    requires
        n <= rows.len(),
    ensures
        scanned(rows, n).rows.to_multiset() == rows.to_multiset(),
    decreases n,
{
    if n > 0 {
        let i = (n - 1) as int;
        scan_keeps_steps(rows, i as nat);
        scan_settles(rows, i as nat);
        let before = scanned(rows, i as nat).rows;
        let anchor = scanned(rows, n).anchor;
        if has_filter(before[i]) && 0 <= anchor && anchor + 1 < i {
            broadcast use vstd::multiset::group_multiset_axioms;

            before.to_multiset_ensures();
            assert(before.to_multiset().count(before[i]) > 0);
            vstd::seq_lib::to_multiset_remove(before, i);
            vstd::seq_lib::to_multiset_insert(before.remove(i), anchor + 1, before[i]);
            assert(before.to_multiset().remove(before[i]).insert(before[i]) =~= before.to_multiset());
        }
    }
}

/// A step that holds a `Group` is a wall for every step: hoisting leaves it
/// where it is, and nothing that was above it ends below it or the other way
/// round.
pub proof fn groups_are_walls(rows: Seq<Seq<Action>>)
    ensures
        forall|g: int|
            0 <= g < rows.len() && has_group(#[trigger] rows[g]) ==> hoisted_from(rows)[g] == g && hoisted(
                rows,
            )[g] == rows[g],
        forall|g: int, p: int|
            0 <= g < rows.len() && 0 <= p < rows.len() && has_group(#[trigger] rows[g]) ==> (p < g
                <==> #[trigger] hoisted_from(rows)[p] < g),
{
    scan_settles(rows, rows.len());
}

/// The anchor never lies above a step that holds a `Group` and has been
/// scanned, nor below the step that was scanned last.
pub proof fn anchor_is_behind_groups(rows: Seq<Seq<Action>>, i: int)
    requires
        0 <= i < rows.len(),
    ensures
        0 <= anchor_at(rows, i) <= i,
        forall|g: int| 0 <= g <= i && has_group(#[trigger] rows[g]) ==> g <= anchor_at(rows, i),
{
    scan_settles(rows, (i + 1) as nat);
}

/// No filter crosses its wall. In the hoisted plan, a step that holds a
/// `Filter` stands below the anchor behind which it was put, unless it is
/// that anchor itself and never moved; and no step between that anchor and
/// the filter holds a `Group`.
pub proof fn filters_stay_behind_their_wall(rows: Seq<Seq<Action>>)
    ensures
        forall|p: int|
            0 <= p < rows.len() && has_filter(#[trigger] hoisted(rows)[p]) ==> {
                let wall = anchor_at(rows, hoisted_from(rows)[p]);
                &&& wall < p || (wall == p && hoisted_from(rows)[p] == p)
                &&& forall|q: int| wall < q < p ==> !has_group(#[trigger] hoisted(rows)[q])
            },
{
    let len = rows.len() as int;
    let from = hoisted_from(rows);
    scan_settles(rows, rows.len());
    assert forall|p: int| 0 <= p < len && has_filter(#[trigger] hoisted(rows)[p]) implies {
        let wall = anchor_at(rows, hoisted_from(rows)[p]);
        &&& wall < p || (wall == p && hoisted_from(rows)[p] == p)
        &&& forall|q: int| wall < q < p ==> !has_group(#[trigger] hoisted(rows)[q])
    } by {
        let i = from[p];
        let wall = anchor_at(rows, i);
        assert(hoisted(rows)[p] == rows[i]);
        anchor_is_behind_groups(rows, i);
        assert forall|q: int| wall < q < p implies !has_group(#[trigger] hoisted(rows)[q]) by {
            let g = from[q];
            assert(hoisted(rows)[q] == rows[g]);
            if has_group(rows[g]) {
                assert(from[g] == g);
                if g < q {
                    assert(from[g] != from[q]);
                }
                if q < g {
                    assert(from[q] != from[g]);
                }
                assert(p < g <==> from[p] < g);
            }
        }
    }
}

/// Hoisting keeps the steps that hold no `Filter` in the order they had.
pub proof fn other_steps_keep_their_order(rows: Seq<Seq<Action>>)
    ensures
        forall|p: int, q: int|
            0 <= p < q < rows.len() && !has_filter(#[trigger] hoisted(rows)[p]) && !has_filter(
                #[trigger] hoisted(rows)[q],
            ) ==> hoisted_from(rows)[p] < hoisted_from(rows)[q],
{
    let from = hoisted_from(rows);
    scan_settles(rows, rows.len());
    assert forall|p: int, q: int|
        0 <= p < q < rows.len() && !has_filter(#[trigger] hoisted(rows)[p]) && !has_filter(
            #[trigger] hoisted(rows)[q],
        ) implies from[p] < from[q] by {
        assert(hoisted(rows)[p] == rows[from[p]]);
        assert(hoisted(rows)[q] == rows[from[q]]);
    }
}

} // verus!

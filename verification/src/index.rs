//! The grid as an index of the particles: what it holds once it has been rebuilt.

use crate::grid::{Grid, CELL_MAX};
use crate::pairs::{
    adjacent, each_index_once, is_interior, lemma_slab_pairs_contains, meets_at, Pair,
};
use crate::schedule::{is_phase, lemma_task_reach, sweep_pairs, task_pairs};
use crate::sequences::lemma_filter_once;
use crate::stripes::{interior_end, Phase};
use crate::task::{all_fit, lemma_members_named, TaskView};
use vstd::prelude::*;

verus! {

/// The test "particle `i` lies in cell `(col, row)`".
pub open spec fn lies_in(cells: Seq<(usize, usize)>, col: int, row: int) -> spec_fn(usize) -> bool {
    |i: usize| cells[i as int].0 == col && cells[i as int].1 == row
}

/// The first `n` particle indices that lie in cell `(col, row)`, rising.
pub open spec fn occupants_below(cells: Seq<(usize, usize)>, n: nat, col: int, row: int) -> Seq<
    usize,
> {
    Seq::new(n, |i: int| i as usize).filter(lies_in(cells, col, row))
}

/// What a cell keeps of `all` that were sent to it: the first `CELL_MAX`.
pub open spec fn kept(all: Seq<usize>) -> Seq<usize> {
    if all.len() <= CELL_MAX {
        all
    } else {
        all.take(CELL_MAX as int)
    }
}

/// What cell `(col, row)` holds once the particles, listed by their cells, have been
/// entered in index order: the lowest `CELL_MAX` indices that lie in it.
pub open spec fn stored(cells: Seq<(usize, usize)>, col: int, row: int) -> Seq<usize> {
    kept(occupants_below(cells, cells.len(), col, row))
}

/// Whether every cell of `grid` holds what `stored` says.
pub open spec fn indexes(grid: &Grid<usize>, cells: Seq<(usize, usize)>) -> bool {
    forall|col: int, row: int|
        grid.has_cell(col, row) ==> #[trigger] grid.bucket(col, row) == stored(cells, col, row)
}

/// A rebuilt grid stores a particle nowhere but in the cell it lies in: every stored
/// index names a particle, and its cell is the one that holds it. So no index is stored
/// twice.
pub proof fn lemma_indexed_once(grid: &Grid<usize>, cells: Seq<(usize, usize)>)
    requires
        indexes(grid, cells),
        cells.len() <= usize::MAX,
    ensures
        each_index_once(grid),
        forall|col: int, row: int, i: usize|
            grid.has_cell(col, row) && #[trigger] grid.bucket(col, row).contains(i) ==> i
                < cells.len() && cells[i as int].0 == col && cells[i as int].1 == row,
{
    assert forall|col: int, row: int, i: usize|
        grid.has_cell(col, row) && #[trigger] grid.bucket(col, row).contains(i) implies i
        < cells.len() && cells[i as int].0 == col && cells[i as int].1 == row by {
        let all = Seq::new(cells.len(), |x: int| x as usize);
        let here = occupants_below(cells, cells.len(), col, row);
        assert(grid.bucket(col, row) == kept(here));
        let k = choose|k: int| 0 <= k < kept(here).len() && kept(here)[k] == i;
        assert(here[k] == i);
        all.lemma_filter_pred(lies_in(cells, col, row), k);
        assert(here.contains(i));
        all.lemma_filter_contains_rev(lies_in(cells, col, row), i);
        let m = choose|m: int| 0 <= m < all.len() && all[m] == i;
        assert(i == m);
    }
    assert forall|col: int, row: int| grid.has_cell(col, row) implies (#[trigger] grid.bucket(
        col,
        row,
    )).no_duplicates() by {
        let all = Seq::new(cells.len(), |x: int| x as usize);
        let here = occupants_below(cells, cells.len(), col, row);
        assert(all.no_duplicates());
        lemma_filter_once(all, lies_in(cells, col, row));
        assert(grid.bucket(col, row) == kept(here));
    }
}

/// Whether particle `i` was entered into its cell and not dropped for want of room.
pub open spec fn is_stored(cells: Seq<(usize, usize)>, i: int) -> bool {
    stored(cells, cells[i].0 as int, cells[i].1 as int).contains(i as usize)
}

/// Whether particle `i` finds its cell full: `CELL_MAX` or more particles with lower
/// indices lie in it.
pub open spec fn is_crowded_out(cells: Seq<(usize, usize)>, i: int) -> bool {
    occupants_below(cells, i as nat, cells[i].0 as int, cells[i].1 as int).len() >= CELL_MAX
}

/// The test "finds its cell full".
pub open spec fn crowded_out(cells: Seq<(usize, usize)>) -> spec_fn(usize) -> bool {
    |i: usize| is_crowded_out(cells, i as int)
}

/// How many of the first `n` particles find their cell full.
pub open spec fn dropped_below(cells: Seq<(usize, usize)>, n: nat) -> nat {
    Seq::new(n, |i: int| i as usize).filter(crowded_out(cells)).len()
}

/// A particle is stored exactly if it does not find its cell full.
pub proof fn lemma_stored_unless_crowded(cells: Seq<(usize, usize)>, i: int)
    requires
        0 <= i < cells.len(),
        cells.len() <= usize::MAX,
    ensures
        is_stored(cells, i) <==> !is_crowded_out(cells, i),
{
    let col = cells[i].0 as int;
    let row = cells[i].1 as int;
    let here = lies_in(cells, col, row);
    let all = Seq::new(cells.len(), |x: int| x as usize);
    let lower = Seq::new(i as nat, |x: int| x as usize);
    let higher = Seq::new((cells.len() - i - 1) as nat, |x: int| (i + 1 + x) as usize);
    assert(all == lower.push(i as usize) + higher);
    Seq::filter_distributes_over_add(lower.push(i as usize), higher, here);
    lower.lemma_filter_push(i as usize, here);
    let found = all.filter(here);
    let before = lower.filter(here);
    assert(found == before.push(i as usize) + higher.filter(here));
    assert(found[before.len() as int] == i as usize);
    assert(all.no_duplicates());
    lemma_filter_once(all, here);
    if is_stored(cells, i) {
        let k = choose|k: int| 0 <= k < kept(found).len() && kept(found)[k] == i as usize;
        assert(found[k] == i as usize);
        assert(k == before.len());
    }
    if !is_crowded_out(cells, i) {
        assert(kept(found)[before.len() as int] == i as usize);
    }
}

/// A sweep over a rebuilt grid works exactly the pairs that a search through all
/// pairs of particles would find by their cells: two stored particles, the lower index
/// first, whose cells are the same or touch, the first of them in an interior cell.
pub proof fn lemma_sweep_finds_neighbours(grid: &Grid<usize>, cells: Seq<(usize, usize)>, p: Pair)
    requires
        indexes(grid, cells),
        cells.len() <= usize::MAX,
        forall|i: int|
            0 <= i < cells.len() ==> grid.has_cell(
                (#[trigger] cells[i]).0 as int,
                cells[i].1 as int,
            ),
    ensures
        sweep_pairs(grid).contains(p) <==> {
            &&& p.0 < p.1 < cells.len()
            &&& is_interior(grid, cells[p.0 as int].0 as int, cells[p.0 as int].1 as int)
            &&& adjacent(
                cells[p.0 as int].0 as int,
                cells[p.0 as int].1 as int,
                cells[p.1 as int].0 as int,
                cells[p.1 as int].1 as int,
            )
            &&& is_stored(cells, p.0 as int)
            &&& is_stored(cells, p.1 as int)
        },
{
    let end = interior_end(grid.width() as int);
    lemma_indexed_once(grid, cells);
    lemma_slab_pairs_contains(grid, 1, end, p);
    if sweep_pairs(grid).contains(p) {
        let (col, row) = choose|col: int, row: int|
            1 <= col < end && 1 <= row < grid.height() - 1 && #[trigger] meets_at(
                grid,
                col,
                row,
                p,
            );
        assert(grid.has_cell(col, row) && grid.bucket(col, row).contains(p.0));
        let (c2, r2) = choose|c2: int, r2: int|
            adjacent(col, row, c2, r2) && (#[trigger] grid.bucket(c2, r2)).contains(p.1);
        assert(grid.has_cell(c2, r2) && grid.bucket(c2, r2).contains(p.1));
    }
    if p.0 < p.1 < cells.len() && is_interior(
        grid,
        cells[p.0 as int].0 as int,
        cells[p.0 as int].1 as int,
    ) && adjacent(
        cells[p.0 as int].0 as int,
        cells[p.0 as int].1 as int,
        cells[p.1 as int].0 as int,
        cells[p.1 as int].1 as int,
    ) && is_stored(cells, p.0 as int) && is_stored(cells, p.1 as int) {
        let col = cells[p.0 as int].0 as int;
        let row = cells[p.0 as int].1 as int;
        let c2 = cells[p.1 as int].0 as int;
        let r2 = cells[p.1 as int].1 as int;
        assert(grid.has_cell(col, row) && grid.has_cell(c2, r2));
        assert(grid.bucket(col, row).contains(p.0));
        assert(grid.bucket(c2, r2).contains(p.1));
        assert(meets_at(grid, col, row, p));
    }
}

/// The tasks that a rebuilt grid yields name particles that exist.
pub proof fn lemma_phase_fits(
    tasks: Seq<TaskView>,
    grid: &Grid<usize>,
    phase: Phase,
    cells: Seq<(usize, usize)>,
)
    requires
        is_phase(tasks, grid, phase),
        indexes(grid, cells),
        cells.len() <= usize::MAX,
    ensures
        all_fit(tasks, cells.len() as int),
{
    lemma_indexed_once(grid, cells);
    assert forall|k: int| 0 <= k < tasks.len() implies (#[trigger] tasks[k]).fits(
        cells.len() as int,
    ) by {
        assert forall|a: int| 0 <= a < tasks[k].members.len() implies #[trigger] tasks[k].members[a]
            < cells.len() by {
            let x = tasks[k].members[a];
            assert(tasks[k].members.contains(x));
            lemma_members_named(tasks[k], x);
            let m = choose|m: int|
                0 <= m < tasks[k].global().len() && ((#[trigger] tasks[k].global()[m]).0 == x
                    || tasks[k].global()[m].1 == x);
            let p = tasks[k].global()[m];
            assert(task_pairs(grid, phase, k).contains(p));
            lemma_task_reach(grid, phase, k, p);
        }
    }
}

/// Rebuilds `grid` from scratch: particle `i` is entered into `cells[i]`, in index
/// order. A cell that is full drops what comes later. The result tells how many
/// particles were dropped.
pub fn populate(grid: &mut Grid<usize>, cells: &Vec<(usize, usize)>) -> (dropped: usize)
    requires
        forall|i: int|
            0 <= i < cells@.len() ==> old(grid).has_cell(
                (#[trigger] cells@[i]).0 as int,
                cells@[i].1 as int,
            ),
    ensures
        final(grid).wf(),
        final(grid).width() == old(grid).width(),
        final(grid).height() == old(grid).height(),
        indexes(final(grid), cells@),
        dropped == dropped_below(cells@, cells@.len()),
{
    grid.clear();
    let n = cells.len();
    let mut dropped: usize = 0;
    let mut i: usize = 0;
    while i < n
        invariant
            i <= n,
            n == cells@.len(),
            grid.wf(),
            grid.width() == old(grid).width(),
            grid.height() == old(grid).height(),
            forall|k: int|
                0 <= k < cells@.len() ==> grid.has_cell(
                    (#[trigger] cells@[k]).0 as int,
                    cells@[k].1 as int,
                ),
            forall|col: int, row: int|
                grid.has_cell(col, row) ==> #[trigger] grid.bucket(col, row) == kept(
                    occupants_below(cells@, i as nat, col, row),
                ),
            dropped == dropped_below(cells@, i as nat),
            dropped <= i,
        decreases n - i,
    {
        let ind = cells[i];
        let ghost before = *grid;
        let full = grid.cell(ind).len() >= CELL_MAX;
        grid.push(ind, i);
        proof {
            let upto = Seq::new(i as nat, |x: int| x as usize);
            assert(Seq::new((i + 1) as nat, |x: int| x as usize) == upto.push(i));
            assert forall|col: int, row: int| grid.has_cell(col, row) implies #[trigger] grid.bucket(
                col,
                row,
            ) == kept(occupants_below(cells@, (i + 1) as nat, col, row)) by {
                upto.lemma_filter_push(i, lies_in(cells@, col, row));
                assert(before.bucket(col, row) == kept(
                    occupants_below(cells@, i as nat, col, row),
                ));
            }
            upto.lemma_filter_push(i, crowded_out(cells@));
            assert(before.bucket(ind.0 as int, ind.1 as int) == kept(
                occupants_below(cells@, i as nat, ind.0 as int, ind.1 as int),
            ));
            assert(full == is_crowded_out(cells@, i as int));
        }
        if full {
            dropped += 1;
        }
        i += 1;
    }
    dropped
}

} // verus!

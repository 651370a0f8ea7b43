//! Broad phase: the candidate pairs that the grid yields.
//!
//! A particle is paired with every higher-numbered particle stored in its own cell or
//! in one of the eight cells around it. Taking the lower index first means that each
//! unordered pair comes up from one side only.

use crate::grid::Grid;
use crate::sequences::{
    lemma_add_contains, lemma_add_once, lemma_filter_once, lemma_flatten_contains,
    lemma_flatten_once,
};
use vstd::prelude::*;

verus! {

/// Two particle indices, the lower one first.
pub type Pair = (usize, usize);

/// The test "is above `i`".
pub open spec fn above(i: usize) -> spec_fn(usize) -> bool {
    |j: usize| i < j
}

/// The pairing "`i` with ...".
pub open spec fn paired_with(i: usize) -> spec_fn(usize) -> Pair {
    |j: usize| (i, j)
}

/// The entries of the three by three block of cells centred at `(col, row)`: column by
/// column, and within a column row by row.
pub open spec fn neighbourhood(grid: &Grid<usize>, col: int, row: int) -> Seq<usize> {
    grid.bucket(col - 1, row - 1) + grid.bucket(col - 1, row) + grid.bucket(col - 1, row + 1)
        + grid.bucket(col, row - 1) + grid.bucket(col, row) + grid.bucket(col, row + 1)
        + grid.bucket(col + 1, row - 1) + grid.bucket(col + 1, row) + grid.bucket(
        col + 1,
        row + 1,
    )
}

/// The pairs of `i` with those of `others` that are above it, in the order of `others`.
pub open spec fn partners(i: usize, others: Seq<usize>) -> Seq<Pair> {
    others.filter(above(i)).map_values(paired_with(i))
}

/// For each of `here` in turn, its pairs with `around`.
pub open spec fn pairs_among(here: Seq<usize>, around: Seq<usize>) -> Seq<Pair> {
    Seq::new(here.len(), |a: int| partners(here[a], around)).flatten()
}

/// The pairs that the cell `(col, row)` yields as a centre.
pub open spec fn cell_pairs(grid: &Grid<usize>, col: int, row: int) -> Seq<Pair> {
    pairs_among(grid.bucket(col, row), neighbourhood(grid, col, row))
}

/// The number of interior rows (or columns) among `extent` of them.
pub open spec fn interior(extent: int) -> nat {
    if extent >= 2 {
        (extent - 2) as nat
    } else {
        0
    }
}

/// The pairs of the interior cells of column `col`, from row 1 upwards.
pub open spec fn column_pairs(grid: &Grid<usize>, col: int) -> Seq<Pair> {
    Seq::new(interior(grid.height() as int), |r: int| cell_pairs(grid, col, r + 1)).flatten()
}

/// The pairs of the columns `start .. end`, column by column.
pub open spec fn slab_pairs(grid: &Grid<usize>, start: int, end: int) -> Seq<Pair> {
    Seq::new(
        if end >= start {
            (end - start) as nat
        } else {
            0
        },
        |c: int| column_pairs(grid, start + c),
    ).flatten()
}

/// Whether `(col, row)` is an interior cell: one with all eight neighbours on the grid.
pub open spec fn is_interior(grid: &Grid<usize>, col: int, row: int) -> bool {
    1 <= col && col + 1 < grid.width() && 1 <= row && row + 1 < grid.height()
}

/// Whether `(c2, r2)` is `(c1, r1)` or one of the eight cells around it.
pub open spec fn adjacent(c1: int, r1: int, c2: int, r2: int) -> bool {
    c1 - 1 <= c2 <= c1 + 1 && r1 - 1 <= r2 <= r1 + 1
}

/// Whether the cell `(col, row)`, taken as a centre, yields the pair `p`: its lower
/// index is stored there, and its higher index there or in a cell around it.
pub open spec fn meets_at(grid: &Grid<usize>, col: int, row: int, p: Pair) -> bool {
    &&& p.0 < p.1
    &&& grid.bucket(col, row).contains(p.0)
    &&& exists|c2: int, r2: int|
        adjacent(col, row, c2, r2) && (#[trigger] grid.bucket(c2, r2)).contains(p.1)
}

/// Whether no particle index is stored twice in `grid`: neither in two cells, nor
/// twice in one.
pub open spec fn each_index_once(grid: &Grid<usize>) -> bool {
    &&& forall|c1: int, r1: int, c2: int, r2: int, i: usize|
        grid.has_cell(c1, r1) && grid.has_cell(c2, r2) && #[trigger] grid.bucket(c1, r1).contains(
            i,
        ) && #[trigger] grid.bucket(c2, r2).contains(i) ==> c1 == c2 && r1 == r2
    &&& forall|col: int, row: int|
        grid.has_cell(col, row) ==> (#[trigger] grid.bucket(col, row)).no_duplicates()
}

/// The pairs of `i` are `i` with each of the others above it.
pub proof fn lemma_partners_contains(i: usize, others: Seq<usize>, p: Pair)
    ensures
        partners(i, others).contains(p) <==> p.0 == i && i < p.1 && others.contains(p.1),
{
    let above_i = others.filter(above(i));
    let made = partners(i, others);
    if made.contains(p) {
        let k = choose|k: int| 0 <= k < made.len() && made[k] == p;
        assert(p == (i, above_i[k]));
        others.lemma_filter_pred(above(i), k);
        assert(above_i.contains(above_i[k]));
        others.lemma_filter_contains_rev(above(i), above_i[k]);
    }
    if p.0 == i && i < p.1 && others.contains(p.1) {
        let m = choose|m: int| 0 <= m < others.len() && others[m] == p.1;
        others.lemma_filter_contains(above(i), m);
        let k = choose|k: int| 0 <= k < above_i.len() && above_i[k] == p.1;
        assert(made[k] == p);
    }
}

/// What lies in the neighbourhood of a cell lies in the cell or in one around it.
pub proof fn lemma_neighbourhood_contains(grid: &Grid<usize>, col: int, row: int, j: usize)
    ensures
        neighbourhood(grid, col, row).contains(j) <==> exists|c2: int, r2: int|
            adjacent(col, row, c2, r2) && (#[trigger] grid.bucket(c2, r2)).contains(j),
{
    let b0 = grid.bucket(col - 1, row - 1);
    let b1 = grid.bucket(col - 1, row);
    let b2 = grid.bucket(col - 1, row + 1);
    let b3 = grid.bucket(col, row - 1);
    let b4 = grid.bucket(col, row);
    let b5 = grid.bucket(col, row + 1);
    let b6 = grid.bucket(col + 1, row - 1);
    let b7 = grid.bucket(col + 1, row);
    let b8 = grid.bucket(col + 1, row + 1);
    lemma_add_contains(b0, b1, j);
    lemma_add_contains(b0 + b1, b2, j);
    lemma_add_contains(b0 + b1 + b2, b3, j);
    lemma_add_contains(b0 + b1 + b2 + b3, b4, j);
    lemma_add_contains(b0 + b1 + b2 + b3 + b4, b5, j);
    lemma_add_contains(b0 + b1 + b2 + b3 + b4 + b5, b6, j);
    lemma_add_contains(b0 + b1 + b2 + b3 + b4 + b5 + b6, b7, j);
    lemma_add_contains(b0 + b1 + b2 + b3 + b4 + b5 + b6 + b7, b8, j);
    if neighbourhood(grid, col, row).contains(j) {
        if b0.contains(j) {
            assert(adjacent(col, row, col - 1, row - 1));
        } else if b1.contains(j) {
            assert(adjacent(col, row, col - 1, row));
        } else if b2.contains(j) {
            assert(adjacent(col, row, col - 1, row + 1));
        } else if b3.contains(j) {
            assert(adjacent(col, row, col, row - 1));
        } else if b4.contains(j) {
            assert(adjacent(col, row, col, row));
        } else if b5.contains(j) {
            assert(adjacent(col, row, col, row + 1));
        } else if b6.contains(j) {
            assert(adjacent(col, row, col + 1, row - 1));
        } else if b7.contains(j) {
            assert(adjacent(col, row, col + 1, row));
        } else {
            assert(b8.contains(j));
            assert(adjacent(col, row, col + 1, row + 1));
        }
    }
    if exists|c2: int, r2: int|
        adjacent(col, row, c2, r2) && (#[trigger] grid.bucket(c2, r2)).contains(j) {
        let (c2, r2) = choose|c2: int, r2: int|
            adjacent(col, row, c2, r2) && (#[trigger] grid.bucket(c2, r2)).contains(j);
        assert(c2 == col - 1 || c2 == col || c2 == col + 1);
        assert(r2 == row - 1 || r2 == row || r2 == row + 1);
    }
}

/// A centre cell yields exactly the pairs that meet at it.
pub proof fn lemma_cell_pairs_contains(grid: &Grid<usize>, col: int, row: int, p: Pair)
    ensures
        cell_pairs(grid, col, row).contains(p) <==> meets_at(grid, col, row, p),
{
    let here = grid.bucket(col, row);
    let around = neighbourhood(grid, col, row);
    let parts = Seq::new(here.len(), |a: int| partners(here[a], around));
    lemma_flatten_contains(parts, p);
    lemma_neighbourhood_contains(grid, col, row, p.1);
    if cell_pairs(grid, col, row).contains(p) {
        let a = choose|a: int| 0 <= a < parts.len() && (#[trigger] parts[a]).contains(p);
        lemma_partners_contains(here[a], around, p);
        assert(here.contains(here[a]));
    }
    if meets_at(grid, col, row, p) {
        let a = choose|a: int| 0 <= a < here.len() && here[a] == p.0;
        lemma_partners_contains(here[a], around, p);
        assert(parts[a].contains(p));
    }
}

/// A column yields exactly the pairs that meet at one of its interior cells.
pub proof fn lemma_column_pairs_contains(grid: &Grid<usize>, col: int, p: Pair)
    ensures
        column_pairs(grid, col).contains(p) <==> exists|row: int|
            1 <= row < grid.height() - 1 && #[trigger] meets_at(grid, col, row, p),
{
    let parts = Seq::new(interior(grid.height() as int), |r: int| cell_pairs(grid, col, r + 1));
    lemma_flatten_contains(parts, p);
    if column_pairs(grid, col).contains(p) {
        let r = choose|r: int| 0 <= r < parts.len() && (#[trigger] parts[r]).contains(p);
        lemma_cell_pairs_contains(grid, col, r + 1, p);
        assert(meets_at(grid, col, r + 1, p));
    }
    if exists|row: int| 1 <= row < grid.height() - 1 && #[trigger] meets_at(grid, col, row, p) {
        let row = choose|row: int|
            1 <= row < grid.height() - 1 && #[trigger] meets_at(grid, col, row, p);
        lemma_cell_pairs_contains(grid, col, row, p);
        assert(parts[row - 1].contains(p));
    }
}

/// The columns `start .. end` yield exactly the pairs that meet at one of their
/// interior cells.
pub proof fn lemma_slab_pairs_contains(grid: &Grid<usize>, start: int, end: int, p: Pair)
    ensures
        slab_pairs(grid, start, end).contains(p) <==> exists|col: int, row: int|
            start <= col < end && 1 <= row < grid.height() - 1 && #[trigger] meets_at(
                grid,
                col,
                row,
                p,
            ),
{
    let count = if end >= start {
        (end - start) as nat
    } else {
        0
    };
    let parts = Seq::new(count, |c: int| column_pairs(grid, start + c));
    lemma_flatten_contains(parts, p);
    if slab_pairs(grid, start, end).contains(p) {
        let c = choose|c: int| 0 <= c < parts.len() && (#[trigger] parts[c]).contains(p);
        lemma_column_pairs_contains(grid, start + c, p);
        let row = choose|row: int|
            1 <= row < grid.height() - 1 && #[trigger] meets_at(grid, start + c, row, p);
        assert(meets_at(grid, start + c, row, p));
    }
    if exists|col: int, row: int|
        start <= col < end && 1 <= row < grid.height() - 1 && #[trigger] meets_at(
            grid,
            col,
            row,
            p,
        ) {
        let (col, row) = choose|col: int, row: int|
            start <= col < end && 1 <= row < grid.height() - 1 && #[trigger] meets_at(
                grid,
                col,
                row,
                p,
            );
        lemma_column_pairs_contains(grid, col, p);
        assert(parts[col - start].contains(p));
    }
}

/// Two different cells of a grid that stores no index twice have nothing in common.
proof fn lemma_buckets_apart(grid: &Grid<usize>, c1: int, r1: int, c2: int, r2: int)
    requires
        each_index_once(grid),
        grid.has_cell(c1, r1),
        grid.has_cell(c2, r2),
        c1 != c2 || r1 != r2,
    ensures
        forall|x: usize| !(grid.bucket(c1, r1).contains(x) && grid.bucket(c2, r2).contains(x)),
{
}

/// Joining one more cell to cells that it has nothing in common with.
proof fn lemma_join_bucket(so_far: Seq<usize>, next: Seq<usize>)
    requires
        so_far.no_duplicates(),
        next.no_duplicates(),
        forall|x: usize| !(so_far.contains(x) && next.contains(x)),
    ensures
        (so_far + next).no_duplicates(),
        forall|x: usize| (so_far + next).contains(x) <==> so_far.contains(x) || next.contains(x),
{
    lemma_add_once(so_far, next);
    assert forall|x: usize| (so_far + next).contains(x) <==> so_far.contains(x) || next.contains(
        x,
    ) by {
        lemma_add_contains(so_far, next, x);
    }
}

/// Where no index is stored twice, the neighbourhood of an interior cell lists no
/// index twice.
pub proof fn lemma_neighbourhood_once(grid: &Grid<usize>, col: int, row: int)
    requires
        each_index_once(grid),
        is_interior(grid, col, row),
    ensures
        neighbourhood(grid, col, row).no_duplicates(),
{
    let b0 = grid.bucket(col - 1, row - 1);
    let b1 = grid.bucket(col - 1, row);
    let b2 = grid.bucket(col - 1, row + 1);
    let b3 = grid.bucket(col, row - 1);
    let b4 = grid.bucket(col, row);
    let b5 = grid.bucket(col, row + 1);
    let b6 = grid.bucket(col + 1, row - 1);
    let b7 = grid.bucket(col + 1, row);
    let b8 = grid.bucket(col + 1, row + 1);
    assert(grid.has_cell(col - 1, row - 1) && grid.has_cell(col - 1, row) && grid.has_cell(
        col - 1,
        row + 1,
    ));
    assert(grid.has_cell(col, row - 1) && grid.has_cell(col, row) && grid.has_cell(col, row + 1));
    assert(grid.has_cell(col + 1, row - 1) && grid.has_cell(col + 1, row) && grid.has_cell(
        col + 1,
        row + 1,
    ));
    lemma_buckets_apart(grid, col - 1, row - 1, col - 1, row);
    lemma_join_bucket(b0, b1);
    lemma_buckets_apart(grid, col - 1, row - 1, col - 1, row + 1);
    lemma_buckets_apart(grid, col - 1, row, col - 1, row + 1);
    lemma_join_bucket(b0 + b1, b2);
    lemma_buckets_apart(grid, col - 1, row - 1, col, row - 1);
    lemma_buckets_apart(grid, col - 1, row, col, row - 1);
    lemma_buckets_apart(grid, col - 1, row + 1, col, row - 1);
    lemma_join_bucket(b0 + b1 + b2, b3);
    lemma_buckets_apart(grid, col - 1, row - 1, col, row);
    lemma_buckets_apart(grid, col - 1, row, col, row);
    lemma_buckets_apart(grid, col - 1, row + 1, col, row);
    lemma_buckets_apart(grid, col, row - 1, col, row);
    lemma_join_bucket(b0 + b1 + b2 + b3, b4);
    lemma_buckets_apart(grid, col - 1, row - 1, col, row + 1);
    lemma_buckets_apart(grid, col - 1, row, col, row + 1);
    lemma_buckets_apart(grid, col - 1, row + 1, col, row + 1);
    lemma_buckets_apart(grid, col, row - 1, col, row + 1);
    lemma_buckets_apart(grid, col, row, col, row + 1);
    lemma_join_bucket(b0 + b1 + b2 + b3 + b4, b5);
    lemma_buckets_apart(grid, col - 1, row - 1, col + 1, row - 1);
    lemma_buckets_apart(grid, col - 1, row, col + 1, row - 1);
    lemma_buckets_apart(grid, col - 1, row + 1, col + 1, row - 1);
    lemma_buckets_apart(grid, col, row - 1, col + 1, row - 1);
    lemma_buckets_apart(grid, col, row, col + 1, row - 1);
    lemma_buckets_apart(grid, col, row + 1, col + 1, row - 1);
    lemma_join_bucket(b0 + b1 + b2 + b3 + b4 + b5, b6);
    lemma_buckets_apart(grid, col - 1, row - 1, col + 1, row);
    lemma_buckets_apart(grid, col - 1, row, col + 1, row);
    lemma_buckets_apart(grid, col - 1, row + 1, col + 1, row);
    lemma_buckets_apart(grid, col, row - 1, col + 1, row);
    lemma_buckets_apart(grid, col, row, col + 1, row);
    lemma_buckets_apart(grid, col, row + 1, col + 1, row);
    lemma_buckets_apart(grid, col + 1, row - 1, col + 1, row);
    lemma_join_bucket(b0 + b1 + b2 + b3 + b4 + b5 + b6, b7);
    lemma_buckets_apart(grid, col - 1, row - 1, col + 1, row + 1);
    lemma_buckets_apart(grid, col - 1, row, col + 1, row + 1);
    lemma_buckets_apart(grid, col - 1, row + 1, col + 1, row + 1);
    lemma_buckets_apart(grid, col, row - 1, col + 1, row + 1);
    lemma_buckets_apart(grid, col, row, col + 1, row + 1);
    lemma_buckets_apart(grid, col, row + 1, col + 1, row + 1);
    lemma_buckets_apart(grid, col + 1, row - 1, col + 1, row + 1);
    lemma_buckets_apart(grid, col + 1, row, col + 1, row + 1);
    lemma_join_bucket(b0 + b1 + b2 + b3 + b4 + b5 + b6 + b7, b8);
}

/// Among others that are listed once, `i` finds each partner once.
pub proof fn lemma_partners_once(i: usize, others: Seq<usize>)
    requires
        others.no_duplicates(),
    ensures
        partners(i, others).no_duplicates(),
{
    lemma_filter_once(others, above(i));
    assert(vstd::relations::injective(paired_with(i))) by {
        assert forall|x1: usize, x2: usize| #[trigger]
            paired_with(i)(x1) == #[trigger] paired_with(i)(x2) implies x1 == x2 by {}
    }
    others.filter(above(i)).lemma_no_duplicates_injective(paired_with(i));
}

/// Where no index is stored twice, an interior cell yields no pair twice.
pub proof fn lemma_cell_pairs_once(grid: &Grid<usize>, col: int, row: int)
    requires
        each_index_once(grid),
        is_interior(grid, col, row),
    ensures
        cell_pairs(grid, col, row).no_duplicates(),
{
    let here = grid.bucket(col, row);
    let around = neighbourhood(grid, col, row);
    let parts = Seq::new(here.len(), |a: int| partners(here[a], around));
    lemma_neighbourhood_once(grid, col, row);
    assert(grid.has_cell(col, row));
    assert forall|a: int| 0 <= a < parts.len() implies (#[trigger] parts[a]).no_duplicates() by {
        lemma_partners_once(here[a], around);
    }
    assert forall|a: int, b: int, p: Pair|
        0 <= a < parts.len() && 0 <= b < parts.len() && a != b implies !(#[trigger] parts[a].contains(
        p,
    ) && #[trigger] parts[b].contains(p)) by {
        lemma_partners_contains(here[a], around, p);
        lemma_partners_contains(here[b], around, p);
    }
    lemma_flatten_once(parts);
}

/// Where no index is stored twice, an interior column yields no pair twice.
pub proof fn lemma_column_pairs_once(grid: &Grid<usize>, col: int)
    requires
        each_index_once(grid),
        1 <= col,
        col + 1 < grid.width(),
    ensures
        column_pairs(grid, col).no_duplicates(),
{
    let parts = Seq::new(interior(grid.height() as int), |r: int| cell_pairs(grid, col, r + 1));
    assert forall|r: int| 0 <= r < parts.len() implies (#[trigger] parts[r]).no_duplicates() by {
        lemma_cell_pairs_once(grid, col, r + 1);
    }
    assert forall|r: int, t: int, p: Pair|
        0 <= r < parts.len() && 0 <= t < parts.len() && r != t implies !(#[trigger] parts[r].contains(
        p,
    ) && #[trigger] parts[t].contains(p)) by {
        lemma_cell_pairs_contains(grid, col, r + 1, p);
        lemma_cell_pairs_contains(grid, col, t + 1, p);
        if parts[r].contains(p) && parts[t].contains(p) {
            assert(grid.has_cell(col, r + 1) && grid.has_cell(col, t + 1));
            assert(grid.bucket(col, r + 1).contains(p.0) && grid.bucket(col, t + 1).contains(p.0));
        }
    }
    lemma_flatten_once(parts);
}

/// Where no index is stored twice, a run of interior columns yields no pair twice.
pub proof fn lemma_slab_pairs_once(grid: &Grid<usize>, start: int, end: int)
    requires
        each_index_once(grid),
        1 <= start,
        end + 1 <= grid.width(),
    ensures
        slab_pairs(grid, start, end).no_duplicates(),
{
    let count = if end >= start {
        (end - start) as nat
    } else {
        0
    };
    let parts = Seq::new(count, |c: int| column_pairs(grid, start + c));
    assert forall|c: int| 0 <= c < parts.len() implies (#[trigger] parts[c]).no_duplicates() by {
        lemma_column_pairs_once(grid, start + c);
    }
    assert forall|c: int, d: int, p: Pair|
        0 <= c < parts.len() && 0 <= d < parts.len() && c != d implies !(#[trigger] parts[c].contains(
        p,
    ) && #[trigger] parts[d].contains(p)) by {
        lemma_column_pairs_contains(grid, start + c, p);
        lemma_column_pairs_contains(grid, start + d, p);
        if parts[c].contains(p) && parts[d].contains(p) {
            let r = choose|row: int|
                1 <= row < grid.height() - 1 && #[trigger] meets_at(grid, start + c, row, p);
            let t = choose|row: int|
                1 <= row < grid.height() - 1 && #[trigger] meets_at(grid, start + d, row, p);
            assert(grid.has_cell(start + c, r) && grid.has_cell(start + d, t));
            assert(grid.bucket(start + c, r).contains(p.0) && grid.bucket(start + d, t).contains(
                p.0,
            ));
        }
    }
    lemma_flatten_once(parts);
}

/// Appends the entries of the cell at `ind` to `out`.
fn append_bucket(grid: &Grid<usize>, ind: (usize, usize), out: &mut Vec<usize>)
    requires
        grid.has_cell(ind.0 as int, ind.1 as int),
    ensures
        final(out)@ == old(out)@ + grid.bucket(ind.0 as int, ind.1 as int),
{
    let cell = grid.cell(ind);
    let n = cell.len();
    let mut k: usize = 0;
    while k < n
        invariant
            k <= n,
            n == cell@.len(),
            out@ == old(out)@ + cell@.take(k as int),
        decreases n - k,
    {
        out.push(cell.get(k));
        k += 1;
    }
}

/// The entries of the three by three block of cells centred at the interior cell
/// `(col, row)`.
pub fn neighbours(grid: &Grid<usize>, col: usize, row: usize) -> (around: Vec<usize>)
    requires
        is_interior(grid, col as int, row as int),
    ensures
        around@ == neighbourhood(grid, col as int, row as int),
{
    let mut around: Vec<usize> = Vec::new();
    append_bucket(grid, (col - 1, row - 1), &mut around);
    append_bucket(grid, (col - 1, row), &mut around);
    append_bucket(grid, (col - 1, row + 1), &mut around);
    append_bucket(grid, (col, row - 1), &mut around);
    append_bucket(grid, (col, row), &mut around);
    append_bucket(grid, (col, row + 1), &mut around);
    append_bucket(grid, (col + 1, row - 1), &mut around);
    append_bucket(grid, (col + 1, row), &mut around);
    append_bucket(grid, (col + 1, row + 1), &mut around);
    around
}

/// Appends to `out` the pairs of `i` with those of `around` that are above it.
fn append_partners(i: usize, around: &Vec<usize>, out: &mut Vec<Pair>)
    ensures
        final(out)@ == old(out)@ + partners(i, around@),
{
    let n = around.len();
    let mut b: usize = 0;
    while b < n
        invariant
            b <= n,
            n == around@.len(),
            out@ == old(out)@ + partners(i, around@.take(b as int)),
        decreases n - b,
    {
        let j = around[b];
        proof {
            assert(around@.take(b + 1) == around@.take(b as int).push(j));
            around@.take(b as int).lemma_filter_push(j, above(i));
        }
        if i < j {
            out.push((i, j));
        }
        b += 1;
    }
    proof {
        assert(around@.take(n as int) == around@);
    }
}

/// Appends to `out` the pairs that the interior cell `(col, row)` yields as a centre.
pub fn append_cell_pairs(grid: &Grid<usize>, col: usize, row: usize, out: &mut Vec<Pair>)
    requires
        is_interior(grid, col as int, row as int),
    ensures
        final(out)@ == old(out)@ + cell_pairs(grid, col as int, row as int),
{
    let here = grid.cell((col, row));
    let n = here.len();
    if n == 0 {
        proof {
            assert(Seq::new(0, |a: int| partners(here@[a], neighbourhood(grid, col as int, row as int)))
                == Seq::<Seq<Pair>>::empty());
        }
        return ;
    }
    let around = neighbours(grid, col, row);
    let mut a: usize = 0;
    while a < n
        invariant
            a <= n,
            n == here@.len(),
            here@ == grid.bucket(col as int, row as int),
            around@ == neighbourhood(grid, col as int, row as int),
            out@ == old(out)@ + Seq::new(a as nat, |x: int| partners(here@[x], around@)).flatten(),
        decreases n - a,
    {
        let i = here.get(a);
        proof {
            let done = Seq::new(a as nat, |x: int| partners(here@[x], around@));
            assert(Seq::new((a + 1) as nat, |x: int| partners(here@[x], around@)) == done.push(
                partners(i, around@),
            ));
            done.lemma_flatten_push(partners(i, around@));
        }
        append_partners(i, &around, out);
        a += 1;
    }
}

/// Appends to `out` the pairs of the interior cells of the interior column `col`.
pub fn append_column_pairs(grid: &Grid<usize>, col: usize, out: &mut Vec<Pair>)
    requires
        1 <= col,
        col + 1 < grid.width(),
    ensures
        final(out)@ == old(out)@ + column_pairs(grid, col as int),
{
    let height = grid.height();
    if height < 2 {
        proof {
            assert(Seq::new(0, |r: int| cell_pairs(grid, col as int, r + 1)) == Seq::<
                Seq<Pair>,
            >::empty());
        }
        return ;
    }
    let mut row: usize = 1;
    while row < height - 1
        invariant
            1 <= row <= height - 1,
            height == grid.height(),
            1 <= col,
            col + 1 < grid.width(),
            out@ == old(out)@ + Seq::new(
                (row - 1) as nat,
                |r: int| cell_pairs(grid, col as int, r + 1),
            ).flatten(),
        decreases height - row,
    {
        proof {
            let done = Seq::new((row - 1) as nat, |r: int| cell_pairs(grid, col as int, r + 1));
            assert(Seq::new(row as nat, |r: int| cell_pairs(grid, col as int, r + 1)) == done.push(
                cell_pairs(grid, col as int, row as int),
            ));
            done.lemma_flatten_push(cell_pairs(grid, col as int, row as int));
        }
        append_cell_pairs(grid, col, row, out);
        row += 1;
    }
}

/// The pairs of the interior columns `start .. end`, in the order in which one worker
/// meets them.
pub fn collect_slab_pairs(grid: &Grid<usize>, start: usize, end: usize) -> (pairs: Vec<Pair>)
    requires
        1 <= start,
        end + 1 <= grid.width(),
    ensures
        pairs@ == slab_pairs(grid, start as int, end as int),
{
    let mut pairs: Vec<Pair> = Vec::new();
    if end <= start {
        proof {
            assert(Seq::new(0, |c: int| column_pairs(grid, start + c)) == Seq::<Seq<Pair>>::empty());
        }
        return pairs;
    }
    let mut col: usize = start;
    while col < end
        invariant
            start <= col <= end,
            1 <= start,
            end + 1 <= grid.width(),
            pairs@ == Seq::new((col - start) as nat, |c: int| column_pairs(grid, start + c)).flatten(),
        decreases end - col,
    {
        proof {
            let done = Seq::new((col - start) as nat, |c: int| column_pairs(grid, start + c));
            assert(Seq::new((col + 1 - start) as nat, |c: int| column_pairs(grid, start + c))
                == done.push(column_pairs(grid, col as int)));
            done.lemma_flatten_push(column_pairs(grid, col as int));
        }
        append_column_pairs(grid, col, &mut pairs);
        col += 1;
    }
    pairs
}

} // verus!

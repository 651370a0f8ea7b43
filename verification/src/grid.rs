//! Uniform bucket grid over cell coordinates.

use vstd::prelude::*;
use vstd::std_specs::iter::IteratorSpec;

verus! {

/// The number of entries that one cell can hold.
pub const CELL_MAX: usize = 4;

/// A bounded list of the entries that fall into one grid cell.
#[derive(Copy, Debug)]
pub struct GridCell<T: Copy + Default> {
    len: usize,
    elements: [T; CELL_MAX],
}

impl<T: Copy + Default> Clone for GridCell<T> {
    fn clone(&self) -> (cell: Self)
        ensures
            cell == *self,
    {
        *self
    }
}

impl<T: Copy + Default> Default for GridCell<T> {
    fn default() -> (cell: Self)
        ensures
            cell@ == Seq::<T>::empty(),
    {
        GridCell::new()
    }
}

impl<T: Copy + Default> View for GridCell<T> {
    type V = Seq<T>;

    /// The live entries, oldest first.
    closed spec fn view(&self) -> Seq<T> {
        self.elements@.take(self.len as int)
    }
}

impl<T: Copy + Default> GridCell<T> {
    /// Well-formedness: the live length never exceeds the capacity.
    #[verifier::type_invariant]
    pub closed spec fn wf(self) -> bool {
        self.len <= CELL_MAX
    }

    /// An empty cell.
    pub fn new() -> (cell: Self)
        ensures
            cell@ == Seq::<T>::empty(),
    {
        let fill = T::default();
        GridCell { len: 0, elements: [fill; CELL_MAX] }
    }

    /// The number of live entries.
    pub fn len(&self) -> (n: usize)
        ensures
            n == self@.len(),
            n <= CELL_MAX,
    {
        proof {
            use_type_invariant(self);
        }
        self.len
    }

    /// Appends `elem`, unless the cell is full: then the cell stays as it is.
    pub fn push(&mut self, elem: T)
        ensures
            old(self)@.len() < CELL_MAX ==> final(self)@ == old(self)@.push(elem),
            old(self)@.len() >= CELL_MAX ==> final(self)@ == old(self)@,
            final(self).wf(),
        no_unwind
    {
        proof {
            use_type_invariant(&*self);
        }
        if self.len < CELL_MAX {
            self.elements[self.len] = elem;
            self.len += 1;
        }
    }

    /// Forgets every entry.
    pub fn clear(&mut self)
        ensures
            final(self)@ == Seq::<T>::empty(),
            final(self).wf(),
        no_unwind
    {
        self.len = 0;
    }

    /// The live entries as a slice, oldest first.
    pub fn as_slice(&self) -> (live: &[T])
        ensures
            live@ == self@,
    {
        proof {
            use_type_invariant(self);
        }
        vstd::slice::slice_subrange(self.elements.as_slice(), 0, self.len)
    }

    /// An iterator over the live entries, oldest first.
    pub fn iter(&self) -> (it: core::slice::Iter<'_, T>)
        ensures
            vstd::std_specs::slice::into_iter_elts(it) == self@,
            IteratorSpec::decrease(&it) is Some,
            IteratorSpec::initial_value_relation(&it, &it),
    {
        self.as_slice().iter()
    }

    /// Overwrites the live entry at position `k`.
    pub fn set(&mut self, k: usize, elem: T)
        requires
            k < old(self)@.len(),
        ensures
            final(self)@ == old(self)@.update(k as int, elem),
    {
        proof {
            use_type_invariant(&*self);
        }
        self.elements[k] = elem;
    }

    /// The entry at position `k`.
    pub fn get(&self, k: usize) -> (elem: T)
        requires
            k < self@.len(),
        ensures
            elem == self@[k as int],
    {
        proof {
            use_type_invariant(self);
        }
        self.elements[k]
    }
}

/// A rectangular array of cells, addressed by column and row.
#[derive(Debug)]
pub struct Grid<T: Copy + Default> {
    width: usize,
    height: usize,
    cells: Vec<GridCell<T>>,
}

impl<T: Copy + Default> Clone for Grid<T> {
    fn clone(&self) -> (grid: Self)
        ensures
            grid.wf(),
            grid.width() == self.width(),
            grid.height() == self.height(),
            forall|col: int, row: int|
                self.has_cell(col, row) ==> #[trigger] grid.bucket(col, row) == self.bucket(col, row),
    {
        proof {
            use_type_invariant(self);
        }
        let total = self.cells.len();
        let mut cells: Vec<GridCell<T>> = Vec::new();
        let mut k: usize = 0;
        while k < total
            invariant
                k <= total,
                total == self.cells@.len(),
                cells@.len() == k,
                forall|j: int| 0 <= j < k ==> #[trigger] cells@[j] == self.cells@[j],
            decreases total - k,
        {
            cells.push(self.cells[k]);
            k += 1;
        }
        let grid = Grid { width: self.width, height: self.height, cells };
        proof {
            assert forall|col: int, row: int| self.has_cell(col, row) implies #[trigger] grid.bucket(
                col,
                row,
            ) == self.bucket(col, row) by {
                lemma_flat_in_range(self.width as int, self.height as int, col, row);
            }
        }
        grid
    }
}

/// Two in-range coordinates share a flat position only if they are the same coordinate.
proof fn lemma_flat_injective(height: int, c1: int, r1: int, c2: int, r2: int)
    requires
        0 <= r1 < height,
        0 <= r2 < height,
        0 <= c1,
        0 <= c2,
        c1 * height + r1 == c2 * height + r2,
    ensures
        c1 == c2,
        r1 == r2,
{
    if c1 < c2 {
        assert((c1 + 1) * height <= c2 * height) by (nonlinear_arith)
            requires
                c1 + 1 <= c2,
                0 < height,
        ;
        assert((c1 + 1) * height == c1 * height + height) by (nonlinear_arith);
    } else if c2 < c1 {
        assert((c2 + 1) * height <= c1 * height) by (nonlinear_arith)
            requires
                c2 + 1 <= c1,
                0 < height,
        ;
        assert((c2 + 1) * height == c2 * height + height) by (nonlinear_arith);
    }
}

/// An in-range coordinate has an in-range flat position.
proof fn lemma_flat_in_range(width: int, height: int, c: int, r: int)
    requires
        0 <= c < width,
        0 <= r < height,
    ensures
        0 <= c * height + r < width * height,
        0 <= c * height,
{
    assert(c * height + height <= width * height) by (nonlinear_arith)
        requires
            c + 1 <= width,
            0 < height,
    ;
    assert(0 <= c * height) by (nonlinear_arith)
        requires
            0 <= c,
            0 < height,
    ;
}

/// Empties every cell of `cells` in place.
fn clear_cells<T: Copy + Default>(cells: &mut Vec<GridCell<T>>)
    ensures
        final(cells)@.len() == old(cells)@.len(),
        forall|j: int| 0 <= j < final(cells)@.len() ==> (#[trigger] final(cells)@[j]).wf(),
        forall|j: int|
            0 <= j < final(cells)@.len() ==> (#[trigger] final(cells)@[j])@ == Seq::<T>::empty(),
    no_unwind
{
    let total = cells.len();
    let mut k: usize = 0;
    while k < total
        invariant
            k <= total,
            cells@.len() == total,
            forall|j: int| 0 <= j < k ==> (#[trigger] cells@[j]).wf(),
            forall|j: int| 0 <= j < k ==> (#[trigger] cells@[j])@ == Seq::<T>::empty(),
        decreases total - k,
    {
        cells[k].clear();
        k += 1;
    }
}

/// Appends `value` to the cell at position `flat` of `cells`.
fn push_cell<T: Copy + Default>(cells: &mut Vec<GridCell<T>>, flat: usize, value: T)
    requires
        flat < old(cells)@.len(),
    ensures
        final(cells)@.len() == old(cells)@.len(),
        (#[trigger] final(cells)@[flat as int]).wf(),
        final(cells)@[flat as int]@ == if old(cells)@[flat as int]@.len() < CELL_MAX {
            old(cells)@[flat as int]@.push(value)
        } else {
            old(cells)@[flat as int]@
        },
        forall|j: int|
            0 <= j < final(cells)@.len() && j != flat ==> #[trigger] final(cells)@[j] == old(
                cells,
            )@[j],
    no_unwind
{
    cells[flat].push(value);
}

impl<T: Copy + Default> Grid<T> {
    /// Well-formedness: one cell per coordinate, each within its capacity.
    #[verifier::type_invariant]
    pub closed spec fn wf(self) -> bool {
        &&& self.width * self.height <= usize::MAX
        &&& self.cells@.len() == self.width * self.height
        &&& forall|k: int| 0 <= k < self.cells@.len() ==> (#[trigger] self.cells@[k]).wf()
    }

    /// The number of columns.
    pub closed spec fn spec_width(&self) -> usize {
        self.width
    }

    /// The number of rows.
    pub closed spec fn spec_height(&self) -> usize {
        self.height
    }

    /// Whether `(col, row)` names a cell of this grid.
    pub open spec fn has_cell(&self, col: int, row: int) -> bool {
        0 <= col < self.width() && 0 <= row < self.height()
    }

    /// The entries stored at `(col, row)`, oldest first.
    pub closed spec fn bucket(&self, col: int, row: int) -> Seq<T> {
        self.cells@[col * self.height + row]@
    }

    /// No cell holds more than `CELL_MAX` entries.
    pub proof fn lemma_bucket_bounded(self, col: int, row: int)
        requires
            self.wf(),
            self.has_cell(col, row),
        ensures
            self.bucket(col, row).len() <= CELL_MAX,
    {
        lemma_flat_in_range(self.width as int, self.height as int, col, row);
        assert(self.cells@[col * self.height + row].wf());
    }

    /// The number of columns.
    #[verifier::when_used_as_spec(spec_width)]
    pub fn width(&self) -> (w: usize)
        ensures
            w == self.width(),
    {
        self.width
    }

    /// The number of rows.
    #[verifier::when_used_as_spec(spec_height)]
    pub fn height(&self) -> (h: usize)
        ensures
            h == self.height(),
    {
        self.height
    }

    /// A grid of `width` by `height` empty cells.
    pub fn new(width: usize, height: usize) -> (grid: Self)
        requires
            width * height <= usize::MAX,
        ensures
            grid.wf(),
            grid.width() == width,
            grid.height() == height,
            forall|col: int, row: int|
                grid.has_cell(col, row) ==> #[trigger] grid.bucket(col, row) == Seq::<T>::empty(),
    {
        let total: usize = width * height;
        let mut cells: Vec<GridCell<T>> = Vec::new();
        let mut k: usize = 0;
        while k < total
            invariant
                k <= total,
                cells@.len() == k,
                forall|j: int| 0 <= j < k ==> (#[trigger] cells@[j]).wf(),
                forall|j: int| 0 <= j < k ==> (#[trigger] cells@[j])@ == Seq::<T>::empty(),
            decreases total - k,
        {
            let cell = GridCell::<T>::new();
            proof {
                use_type_invariant(&cell);
            }
            cells.push(cell);
            k += 1;
        }
        let grid = Grid { width, height, cells };
        proof {
            assert forall|col: int, row: int| grid.has_cell(col, row) implies #[trigger] grid.bucket(
                col,
                row,
            ) == Seq::<T>::empty() by {
                lemma_flat_in_range(width as int, height as int, col, row);
            }
        }
        grid
    }

    /// Whether `ind` names a cell of this grid.
    pub fn in_bounds(&self, ind: (usize, usize)) -> (b: bool)
        ensures
            b == self.has_cell(ind.0 as int, ind.1 as int),
    {
        ind.0 < self.width && ind.1 < self.height
    }

    /// The cell at `ind`.
    pub fn cell(&self, ind: (usize, usize)) -> (cell: &GridCell<T>)
        requires
            self.has_cell(ind.0 as int, ind.1 as int),
        ensures
            cell@ == self.bucket(ind.0 as int, ind.1 as int),
            cell@.len() <= CELL_MAX,
    {
        proof {
            use_type_invariant(self);
            lemma_flat_in_range(self.width as int, self.height as int, ind.0 as int, ind.1 as int);
        }
        let cell = &self.cells[ind.0 * self.height + ind.1];
        proof {
            use_type_invariant(cell);
        }
        cell
    }

    /// Empties every cell.
    pub fn clear(&mut self)
        ensures
            final(self).wf(),
            final(self).width() == old(self).width(),
            final(self).height() == old(self).height(),
            forall|col: int, row: int|
                final(self).has_cell(col, row) ==> #[trigger] final(self).bucket(col, row)
                    == Seq::<T>::empty(),
    {
        proof {
            use_type_invariant(&*self);
        }
        clear_cells(&mut self.cells);
        proof {
            assert forall|col: int, row: int| self.has_cell(col, row) implies #[trigger] self.bucket(
                col,
                row,
            ) == Seq::<T>::empty() by {
                lemma_flat_in_range(self.width as int, self.height as int, col, row);
            }
        }
    }

    /// Appends `value` to the cell at `ind`; a full cell drops it.
    pub fn push(&mut self, ind: (usize, usize), value: T)
        requires
            old(self).has_cell(ind.0 as int, ind.1 as int),
        ensures
            final(self).wf(),
            final(self).width() == old(self).width(),
            final(self).height() == old(self).height(),
            final(self).bucket(ind.0 as int, ind.1 as int) == if old(self).bucket(
                ind.0 as int,
                ind.1 as int,
            ).len() < CELL_MAX {
                old(self).bucket(ind.0 as int, ind.1 as int).push(value)
            } else {
                old(self).bucket(ind.0 as int, ind.1 as int)
            },
            forall|col: int, row: int|
                final(self).has_cell(col, row) && (col, row) != (ind.0 as int, ind.1 as int)
                    ==> #[trigger] final(self).bucket(col, row) == old(self).bucket(col, row),
    {
        proof {
            use_type_invariant(&*self);
            lemma_flat_in_range(self.width as int, self.height as int, ind.0 as int, ind.1 as int);
        }
        let flat: usize = ind.0 * self.height + ind.1;
        push_cell(&mut self.cells, flat, value);
        proof {
            assert forall|col: int, row: int|
                self.has_cell(col, row) && (col, row) != (ind.0 as int, ind.1 as int) implies #[trigger] self.bucket(
                col,
                row,
            ) == old(self).bucket(col, row) by {
                lemma_flat_in_range(self.width as int, self.height as int, col, row);
                if col * self.height + row == flat {
                    lemma_flat_injective(
                        self.height as int,
                        col,
                        row,
                        ind.0 as int,
                        ind.1 as int,
                    );
                }
            }
        }
    }
}

} // verus!

//! Column stripes: the static partition that lets workers share one particle buffer.
//!
//! The interior columns `1 .. width - 1` are cut into slabs of two columns. The slabs
//! are dealt into two phases so that the slabs of one phase never reach into each
//! other's neighbourhood: between any two of them lies a column that neither works on.

use core::ops::Range;
use vstd::prelude::*;

verus! {

/// One of the two rounds in which the slabs are worked.
#[derive(Clone, Copy, Debug, PartialEq, Eq, Structural)]
pub enum Phase {
    /// Slabs that start at columns 1, 5, 9, ...
    Even,
    /// Slabs that start at columns 3, 7, 11, ...
    Odd,
}

impl Phase {
    /// The column at which the first slab of this phase starts.
    pub open spec fn spec_first(self) -> int {
        match self {
            Phase::Even => 1,
            Phase::Odd => 3,
        }
    }

    /// The column at which the first slab of this phase starts.
    pub fn first(self) -> (col: usize)
        ensures
            col == self.spec_first(),
    {
        match self {
            Phase::Even => 1,
            Phase::Odd => 3,
        }
    }
}

/// The exclusive upper end of the interior columns of a grid `width` columns wide.
pub open spec fn interior_end(width: int) -> int {
    if width >= 1 {
        width - 1
    } else {
        0
    }
}

/// How many slabs `phase` has on a grid `width` columns wide.
pub open spec fn slab_count(width: int, phase: Phase) -> int {
    if interior_end(width) <= phase.spec_first() {
        0
    } else {
        (interior_end(width) - phase.spec_first() + 3) / 4
    }
}

/// The first column of slab number `k` of `phase`.
pub open spec fn slab_start(phase: Phase, k: int) -> int {
    phase.spec_first() + 4 * k
}

/// The column just behind slab number `k` of `phase`: two columns on, or the end of
/// the interior where that comes first.
pub open spec fn slab_end(width: int, phase: Phase, k: int) -> int {
    if slab_start(phase, k) + 2 <= interior_end(width) {
        slab_start(phase, k) + 2
    } else {
        interior_end(width)
    }
}

/// Whether `group` lists the slabs of `phase`, in rising order.
pub open spec fn is_group(group: Seq<Range<usize>>, width: int, phase: Phase) -> bool {
    &&& group.len() == slab_count(width, phase)
    &&& forall|k: int|
        0 <= k < group.len() ==> (#[trigger] group[k]).start == slab_start(phase, k) && group[k].end
            == slab_end(width, phase, k)
}

/// The phase that works column `col`.
pub open spec fn owner_phase(col: int) -> Phase {
    if col % 4 == 1 || col % 4 == 2 {
        Phase::Even
    } else {
        Phase::Odd
    }
}

/// The number, within its phase, of the slab that works column `col`.
pub open spec fn owner_index(col: int) -> int {
    (col - owner_phase(col).spec_first()) / 4
}

/// Every slab lies within the interior columns and is one or two columns wide.
pub proof fn lemma_slab_shape(width: int, phase: Phase, k: int)
    requires
        0 <= k < slab_count(width, phase),
    ensures
        1 <= slab_start(phase, k) < slab_end(width, phase, k) <= interior_end(width),
        slab_end(width, phase, k) <= slab_start(phase, k) + 2,
        interior_end(width) == width - 1,
{
}

/// The slabs of one phase keep their distance: the columns that one of them works
/// on or reads, from the column before its first to the column behind its last, are
/// none of those that a later one works on or reads.
pub proof fn lemma_slabs_apart(width: int, phase: Phase, j: int, k: int)
    requires
        0 <= j < k,
    ensures
        slab_end(width, phase, j) < slab_start(phase, k) - 1,
{
}

/// A slab that holds column `col` is the owner of `col`.
proof fn lemma_owner_unique(width: int, col: int, phase: Phase, k: int)
    requires
        0 <= k,
        slab_start(phase, k) <= col < slab_end(width, phase, k),
    ensures
        phase == owner_phase(col),
        k == owner_index(col),
{
    let off = col - phase.spec_first();
    assert(off == 4 * k || off == 4 * k + 1);
    assert(col % 4 == (phase.spec_first() + off) % 4);
    if off == 4 * k {
        assert((phase.spec_first() + 4 * k) % 4 == phase.spec_first() % 4) by (nonlinear_arith)
            requires
                0 <= k,
                phase.spec_first() >= 0,
        ;
        assert((4 * k) / 4 == k);
    } else {
        assert((phase.spec_first() + 1 + 4 * k) % 4 == (phase.spec_first() + 1) % 4)
            by (nonlinear_arith)
            requires
                0 <= k,
                phase.spec_first() >= 0,
        ;
        assert((4 * k + 1) / 4 == k);
    }
}

/// Every interior column is worked by exactly one slab of exactly one phase.
pub proof fn lemma_column_owner(width: int, col: int)
    requires
        1 <= col < interior_end(width),
    ensures
        0 <= owner_index(col) < slab_count(width, owner_phase(col)),
        slab_start(owner_phase(col), owner_index(col)) <= col < slab_end(
            width,
            owner_phase(col),
            owner_index(col),
        ),
        forall|phase: Phase, k: int|
            0 <= k < slab_count(width, phase) && slab_start(phase, k) <= col
                < #[trigger] slab_end(width, phase, k) ==> phase == owner_phase(col) && k
                == owner_index(col),
{
    let q = col / 4;
    let r = col % 4;
    assert(col == 4 * q + r && 0 <= r < 4);
    let phase = owner_phase(col);
    let k = owner_index(col);
    if r == 1 {
        assert(k == q);
    } else if r == 2 {
        assert(k == q);
    } else if r == 3 {
        assert(k == q);
    } else {
        assert(q >= 1);
        assert(k == q - 1);
    }
    assert(slab_start(phase, k) <= col <= slab_start(phase, k) + 1);
    assert(0 <= k < slab_count(width, phase));
    assert forall|p: Phase, j: int|
        0 <= j < slab_count(width, p) && slab_start(p, j) <= col < #[trigger] slab_end(
            width,
            p,
            j,
        ) implies p == owner_phase(col) && j == owner_index(col) by {
        lemma_owner_unique(width, col, p, j);
    }
}

/// What one more column does to the slabs of a phase. The new interior column is
/// `width - 1`. A phase that does not own it keeps its slabs. The phase that owns it
/// either gets a new last slab that holds just this column, or has its last slab,
/// which held one column, grow to two. No other slab changes.
pub proof fn lemma_one_more_column(width: int, phase: Phase)
    requires
        width >= 2,
    ensures
        forall|k: int|
            0 <= k < slab_count(width, phase) - 1 ==> #[trigger] slab_end(width + 1, phase, k)
                == slab_end(width, phase, k),
        owner_phase(width - 1) != phase ==> {
            &&& slab_count(width + 1, phase) == slab_count(width, phase)
            &&& slab_count(width, phase) > 0 ==> slab_end(
                width + 1,
                phase,
                slab_count(width, phase) - 1,
            ) == slab_end(width, phase, slab_count(width, phase) - 1)
        },
        owner_phase(width - 1) == phase && slab_start(phase, owner_index(width - 1)) == width - 1
            ==> {
            &&& slab_count(width, phase) == owner_index(width - 1)
            &&& slab_count(width + 1, phase) == slab_count(width, phase) + 1
            &&& slab_count(width, phase) > 0 ==> slab_end(
                width + 1,
                phase,
                slab_count(width, phase) - 1,
            ) == slab_end(width, phase, slab_count(width, phase) - 1)
            &&& slab_end(width + 1, phase, slab_count(width, phase)) == width
        },
        owner_phase(width - 1) == phase && slab_start(phase, owner_index(width - 1)) != width - 1
            ==> {
            &&& slab_count(width, phase) == owner_index(width - 1) + 1
            &&& slab_count(width + 1, phase) == slab_count(width, phase)
            &&& slab_start(phase, owner_index(width - 1)) == width - 2
            &&& slab_end(width, phase, owner_index(width - 1)) == width - 1
            &&& slab_end(width + 1, phase, owner_index(width - 1)) == width
        },
{
    let col = width - 1;
    let first = phase.spec_first();
    lemma_column_owner(width + 1, col);
    if col >= first {
        let n = (col - first) / 4;
        let r = (col - first) % 4;
        assert(col == first + 4 * n + r && 0 <= r < 4 && 0 <= n);
        if r == 0 {
            assert(slab_count(width, phase) == n);
            assert(slab_count(width + 1, phase) == n + 1);
        } else {
            assert(slab_count(width, phase) == n + 1);
            assert(slab_count(width + 1, phase) == n + 1);
        }
    }
}

/// The slabs of `phase` on a grid `width` columns wide, in rising order.
pub fn slabs(width: usize, phase: Phase) -> (group: Vec<Range<usize>>)
    ensures
        is_group(group@, width as int, phase),
{
    let limit: usize = if width >= 1 {
        width - 1
    } else {
        0
    };
    let first = phase.first();
    let mut group: Vec<Range<usize>> = Vec::new();
    if limit <= first {
        return group;
    }
    let mut start: usize = first;
    loop
        invariant_except_break
            start < limit,
            start == slab_start(phase, group@.len() as int),
            group@.len() < slab_count(width as int, phase),
        invariant
            limit == interior_end(width as int),
            first == phase.spec_first(),
            first < limit,
            forall|k: int|
                0 <= k < group@.len() ==> (#[trigger] group@[k]).start == slab_start(phase, k)
                    && group@[k].end == slab_end(width as int, phase, k),
        ensures
            group@.len() == slab_count(width as int, phase),
        decreases limit - start,
    {
        let end: usize = if limit - start >= 2 {
            start + 2
        } else {
            limit
        };
        group.push(start..end);
        if limit - start <= 4 {
            break ;
        }
        start = start + 4;
    }
    group
}

} // verus!

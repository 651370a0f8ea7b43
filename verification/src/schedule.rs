//! The order of work for collision correction, and why workers do not collide.
//!
//! Collision correction moves both particles of a pair. To let several workers correct
//! pairs at once without locks, each worker gets one slab of columns and works the
//! pairs that the cells of its slab yield as centres. Such a pair may reach one column
//! past either edge of the slab. The slabs of one phase keep their distance, so as long
//! as no particle is stored twice, no two workers of one phase ever touch the same
//! particle, and working them side by side changes nothing.

use crate::grid::Grid;
use crate::pairs::{
    adjacent, collect_slab_pairs, column_pairs, each_index_once, lemma_slab_pairs_contains,
    lemma_slab_pairs_once, meets_at, slab_pairs, Pair,
};
use crate::particle::Particle;
use crate::stripes::{
    interior_end, lemma_one_more_column, lemma_slab_shape, lemma_slabs_apart, owner_index,
    owner_phase, slab_count, slab_end, slab_start, slabs, Phase,
};
use crate::task::{
    all_fit, apart, in_turn, lemma_apart_is_in_turn, lemma_members_named, lemma_work_joined,
    work_pairs, worked_apart, Correction, Task, TaskView,
};
use core::ops::Range;
use rayon::iter::{IntoParallelRefIterator, ParallelIterator};
use vstd::prelude::*;

verus! {

/// The order of work for one round of collision correction.
///
/// The slabs of `even` may be worked side by side, one worker each; then, when all of
/// them are done, those of `odd`. Within a slab the pairs are worked in order.
#[derive(Debug)]
pub struct Schedule {
    /// The tasks of the phase that is worked first, one per slab.
    pub even: Vec<Task>,
    /// The tasks of the phase that is worked second, one per slab.
    pub odd: Vec<Task>,
}

/// What `tasks` hold.
pub open spec fn views(tasks: Seq<Task>) -> Seq<TaskView> {
    tasks.map_values(|t: Task| t@)
}

impl Schedule {
    /// All pairs in the order in which a single worker would work the schedule: the
    /// slabs of the even phase one after the other, then those of the odd phase.
    pub open spec fn order(&self) -> Seq<Pair> {
        in_turn(views(self.even@)) + in_turn(views(self.odd@))
    }
}

/// The pairs that the worker of slab number `k` of `phase` works, in order.
pub open spec fn task_pairs(grid: &Grid<usize>, phase: Phase, k: int) -> Seq<Pair> {
    slab_pairs(grid, slab_start(phase, k), slab_end(grid.width() as int, phase, k))
}

/// Whether `tasks` are, slab by slab, the tasks of the slabs of `phase`.
pub open spec fn is_phase(tasks: Seq<TaskView>, grid: &Grid<usize>, phase: Phase) -> bool {
    &&& tasks.len() == slab_count(grid.width() as int, phase)
    &&& forall|k: int|
        0 <= k < tasks.len() ==> (#[trigger] tasks[k]).wf() && tasks[k].global() == task_pairs(
            grid,
            phase,
            k,
        )
}

/// Both particles of a pair that a worker works are stored within reach of its slab:
/// the lower one in a column of the slab, the higher one no further than one column
/// off.
pub proof fn lemma_task_reach(grid: &Grid<usize>, phase: Phase, k: int, p: Pair)
    requires
        0 <= k < slab_count(grid.width() as int, phase),
        task_pairs(grid, phase, k).contains(p),
    ensures
        p.0 < p.1,
        exists|col: int, row: int|
            grid.has_cell(col, row) && slab_start(phase, k) <= col < slab_end(
                grid.width() as int,
                phase,
                k,
            ) && #[trigger] grid.bucket(col, row).contains(p.0),
        exists|col: int, row: int|
            grid.has_cell(col, row) && slab_start(phase, k) - 1 <= col <= slab_end(
                grid.width() as int,
                phase,
                k,
            ) && #[trigger] grid.bucket(col, row).contains(p.1),
{
    let start = slab_start(phase, k);
    let end = slab_end(grid.width() as int, phase, k);
    lemma_slab_shape(grid.width() as int, phase, k);
    lemma_slab_pairs_contains(grid, start, end, p);
    let (col, row) = choose|col: int, row: int|
        start <= col < end && 1 <= row < grid.height() - 1 && #[trigger] meets_at(
            grid,
            col,
            row,
            p,
        );
    assert(grid.has_cell(col, row) && grid.bucket(col, row).contains(p.0));
    let (c2, r2) = choose|c2: int, r2: int|
        adjacent(col, row, c2, r2) && (#[trigger] grid.bucket(c2, r2)).contains(p.1);
    assert(grid.has_cell(c2, r2) && grid.bucket(c2, r2).contains(p.1));
}

/// Two workers of one phase never touch the same particle: where no index is stored
/// twice, a pair of one slab and a pair of another slab of the same phase have no
/// particle in common.
pub proof fn lemma_tasks_disjoint(grid: &Grid<usize>, phase: Phase, j: int, k: int, p: Pair, q: Pair)
    requires
        each_index_once(grid),
        0 <= j < slab_count(grid.width() as int, phase),
        0 <= k < slab_count(grid.width() as int, phase),
        j != k,
        task_pairs(grid, phase, j).contains(p),
        task_pairs(grid, phase, k).contains(q),
    ensures
        p.0 != q.0,
        p.0 != q.1,
        p.1 != q.0,
        p.1 != q.1,
{
    let width = grid.width() as int;
    lemma_task_reach(grid, phase, j, p);
    lemma_task_reach(grid, phase, k, q);
    if j < k {
        lemma_slabs_apart(width, phase, j, k);
    } else {
        lemma_slabs_apart(width, phase, k, j);
    }
    let (pc0, pr0) = choose|col: int, row: int|
        grid.has_cell(col, row) && slab_start(phase, j) <= col < slab_end(width, phase, j)
            && #[trigger] grid.bucket(col, row).contains(p.0);
    let (pc1, pr1) = choose|col: int, row: int|
        grid.has_cell(col, row) && slab_start(phase, j) - 1 <= col <= slab_end(width, phase, j)
            && #[trigger] grid.bucket(col, row).contains(p.1);
    let (qc0, qr0) = choose|col: int, row: int|
        grid.has_cell(col, row) && slab_start(phase, k) <= col < slab_end(width, phase, k)
            && #[trigger] grid.bucket(col, row).contains(q.0);
    let (qc1, qr1) = choose|col: int, row: int|
        grid.has_cell(col, row) && slab_start(phase, k) - 1 <= col <= slab_end(width, phase, k)
            && #[trigger] grid.bucket(col, row).contains(q.1);
    if p.0 == q.0 {
        assert(grid.bucket(pc0, pr0).contains(p.0) && grid.bucket(qc0, qr0).contains(p.0));
    }
    if p.0 == q.1 {
        assert(grid.bucket(pc0, pr0).contains(p.0) && grid.bucket(qc1, qr1).contains(p.0));
    }
    if p.1 == q.0 {
        assert(grid.bucket(pc1, pr1).contains(p.1) && grid.bucket(qc0, qr0).contains(p.1));
    }
    if p.1 == q.1 {
        assert(grid.bucket(pc1, pr1).contains(p.1) && grid.bucket(qc1, qr1).contains(p.1));
    }
}

/// The pairs of the slabs of `phase`, slab by slab, on a grid taken to be `width`
/// columns wide.
pub open spec fn phase_tasks(grid: &Grid<usize>, width: int, phase: Phase) -> Seq<Seq<Pair>> {
    Seq::new(
        slab_count(width, phase) as nat,
        |k: int| slab_pairs(grid, slab_start(phase, k), slab_end(width, phase, k)),
    )
}

/// All pairs in the order in which a single worker would work the schedule: the slabs
/// of the even phase one after the other, then those of the odd phase.
pub open spec fn striped_pairs(grid: &Grid<usize>) -> Seq<Pair> {
    phase_tasks(grid, grid.width() as int, Phase::Even).flatten() + phase_tasks(
        grid,
        grid.width() as int,
        Phase::Odd,
    ).flatten()
}

/// All pairs in the order of one plain sweep over the interior columns, left to right.
pub open spec fn sweep_pairs(grid: &Grid<usize>) -> Seq<Pair> {
    slab_pairs(grid, 1, interior_end(grid.width() as int))
}

/// One more column at the end of a run of columns adds that column's pairs.
proof fn lemma_slab_pairs_extend(grid: &Grid<usize>, start: int, end: int)
    requires
        start <= end,
    ensures
        slab_pairs(grid, start, end + 1) == slab_pairs(grid, start, end) + column_pairs(grid, end),
{
    let shorter = Seq::new((end - start) as nat, |c: int| column_pairs(grid, start + c));
    let longer = Seq::new((end + 1 - start) as nat, |c: int| column_pairs(grid, start + c));
    assert(longer == shorter.push(column_pairs(grid, end)));
    shorter.lemma_flatten_push(column_pairs(grid, end));
}

/// What one more column does to the pairs of a phase: where the phase owns the new
/// column, its pairs come last; otherwise nothing changes.
proof fn lemma_phase_grows(grid: &Grid<usize>, width: int, phase: Phase)
    requires
        width >= 2,
    ensures
        phase_tasks(grid, width + 1, phase).flatten() == if owner_phase(width - 1) == phase {
            phase_tasks(grid, width, phase).flatten() + column_pairs(grid, width - 1)
        } else {
            phase_tasks(grid, width, phase).flatten()
        },
{
    let col = width - 1;
    let before = phase_tasks(grid, width, phase);
    let after = phase_tasks(grid, width + 1, phase);
    let count = slab_count(width, phase);
    lemma_one_more_column(width, phase);
    assert forall|k: int| 0 <= k < count - 1 implies #[trigger] after[k] == before[k] by {
        assert(slab_end(width + 1, phase, k) == slab_end(width, phase, k));
    }
    if owner_phase(col) != phase {
        assert(after =~= before);
    } else if slab_start(phase, owner_index(col)) == col {
        let last = slab_pairs(grid, col, col + 1);
        assert(after =~= before.push(last));
        before.lemma_flatten_push(last);
        assert(slab_pairs(grid, col, col) == Seq::<Pair>::empty()) by {
            assert(Seq::new(0, |c: int| column_pairs(grid, col + c)) == Seq::<Seq<Pair>>::empty());
        }
        lemma_slab_pairs_extend(grid, col, col);
    } else {
        lemma_slab_pairs_extend(grid, col - 1, col);
        let head = before.drop_last();
        assert(before =~= head.push(before.last()));
        assert(after =~= head.push(before.last() + column_pairs(grid, col)));
        head.lemma_flatten_push(before.last());
        head.lemma_flatten_push(before.last() + column_pairs(grid, col));
    }
}

/// Striping changes the order of the pairs, not the pairs: up to any width, the two
/// phases together work what one sweep works.
proof fn lemma_striped_upto(grid: &Grid<usize>, width: int)
    ensures
        (phase_tasks(grid, width, Phase::Even).flatten() + phase_tasks(
            grid,
            width,
            Phase::Odd,
        ).flatten()).to_multiset() == slab_pairs(grid, 1, interior_end(width)).to_multiset(),
    decreases width,
{
    let even = phase_tasks(grid, width, Phase::Even).flatten();
    let odd = phase_tasks(grid, width, Phase::Odd).flatten();
    let sweep = slab_pairs(grid, 1, interior_end(width));
    if width <= 2 {
        assert(phase_tasks(grid, width, Phase::Even) == Seq::<Seq<Pair>>::empty());
        assert(phase_tasks(grid, width, Phase::Odd) == Seq::<Seq<Pair>>::empty());
        assert(Seq::new(0, |c: int| column_pairs(grid, 1 + c)) == Seq::<Seq<Pair>>::empty());
        assert(even + odd == sweep);
    } else {
        let col = width - 2;
        let even_before = phase_tasks(grid, width - 1, Phase::Even).flatten();
        let odd_before = phase_tasks(grid, width - 1, Phase::Odd).flatten();
        let sweep_before = slab_pairs(grid, 1, col);
        let added = column_pairs(grid, col);
        lemma_striped_upto(grid, width - 1);
        lemma_phase_grows(grid, width - 1, Phase::Even);
        lemma_phase_grows(grid, width - 1, Phase::Odd);
        lemma_slab_pairs_extend(grid, 1, col);
        vstd::seq_lib::lemma_multiset_commutative(even_before, odd_before);
        vstd::seq_lib::lemma_multiset_commutative(sweep_before, added);
        vstd::seq_lib::lemma_multiset_commutative(even, odd);
        if owner_phase(col) == Phase::Even {
            vstd::seq_lib::lemma_multiset_commutative(even_before, added);
        } else {
            vstd::seq_lib::lemma_multiset_commutative(odd_before, added);
        }
        assert((even + odd).to_multiset() =~= sweep.to_multiset());
    }
}

/// Striping changes the order in which the pairs are worked, not the pairs: the two
/// phases together work each pair as often as one plain sweep over the grid does.
pub proof fn lemma_striped_permutes_sweep(grid: &Grid<usize>)
    ensures
        striped_pairs(grid).to_multiset() == sweep_pairs(grid).to_multiset(),
{
    lemma_striped_upto(grid, grid.width() as int);
}

/// Where no index is stored twice, no pair is worked twice: neither by one sweep, nor
/// by the two phases together.
pub proof fn lemma_each_pair_once(grid: &Grid<usize>)
    requires
        each_index_once(grid),
    ensures
        sweep_pairs(grid).no_duplicates(),
        striped_pairs(grid).no_duplicates(),
{
    if grid.width() == 0 {
        assert(Seq::new(0, |c: int| column_pairs(grid, 1 + c)) == Seq::<Seq<Pair>>::empty());
    } else {
        lemma_slab_pairs_once(grid, 1, interior_end(grid.width() as int));
    }
    lemma_striped_permutes_sweep(grid);
    sweep_pairs(grid).lemma_multiset_has_no_duplicates();
    striped_pairs(grid).lemma_multiset_has_no_duplicates_conv();
}

/// The tasks of one phase share no member, where no index is stored twice.
pub proof fn lemma_phase_apart(tasks: Seq<TaskView>, grid: &Grid<usize>, phase: Phase)
    requires
        each_index_once(grid),
        is_phase(tasks, grid, phase),
    ensures
        apart(tasks),
{
    assert forall|j: int, k: int, x: usize|
        0 <= j < tasks.len() && 0 <= k < tasks.len() && j != k implies !(
    #[trigger] tasks[j].members.contains(x) && #[trigger] tasks[k].members.contains(x)) by {
        if tasks[j].members.contains(x) && tasks[k].members.contains(x) {
            lemma_members_named(tasks[j], x);
            lemma_members_named(tasks[k], x);
            let p = choose|m: int|
                0 <= m < tasks[j].global().len() && ((#[trigger] tasks[j].global()[m]).0 == x
                    || tasks[j].global()[m].1 == x);
            let q = choose|m: int|
                0 <= m < tasks[k].global().len() && ((#[trigger] tasks[k].global()[m]).0 == x
                    || tasks[k].global()[m].1 == x);
            assert(task_pairs(grid, phase, j).contains(tasks[j].global()[p]));
            assert(task_pairs(grid, phase, k).contains(tasks[k].global()[q]));
            lemma_tasks_disjoint(grid, phase, j, k, tasks[j].global()[p], tasks[k].global()[q]);
        }
    }
}

/// The workers of one phase may work side by side. Where no index is stored twice,
/// taking copies for every task of the phase from the buffer as it stands, correcting
/// each task's copies on their own, and writing all copies back gives the buffer that
/// correcting the pairs of the phase in place, one after the other, would give:
/// whatever the correction of a pair does.
pub proof fn lemma_phase_side_by_side(
    tasks: Seq<TaskView>,
    grid: &Grid<usize>,
    phase: Phase,
    buffer: Seq<Particle>,
    rule: Correction,
)
    requires
        each_index_once(grid),
        is_phase(tasks, grid, phase),
        all_fit(tasks, buffer.len() as int),
    ensures
        worked_apart(buffer, tasks, rule) == work_pairs(
            buffer,
            phase_tasks(grid, grid.width() as int, phase).flatten(),
            rule,
        ),
        worked_apart(buffer, tasks, rule).len() == buffer.len(),
{
    lemma_phase_apart(tasks, grid, phase);
    lemma_apart_is_in_turn(buffer, tasks, rule);
    assert(tasks.map_values(|t: TaskView| t.global()) == phase_tasks(
        grid,
        grid.width() as int,
        phase,
    ));
}

/// A whole round of collision correction may be worked by phases: the tasks of the
/// even phase side by side, then, from what they leave, the tasks of the odd phase
/// side by side. Where no index is stored twice, that gives the buffer that a single
/// worker would leave who corrects all pairs in place in striped order: whatever the
/// correction of a pair does.
pub proof fn lemma_round_side_by_side(
    even: Seq<TaskView>,
    odd: Seq<TaskView>,
    grid: &Grid<usize>,
    buffer: Seq<Particle>,
    rule: Correction,
)
    requires
        each_index_once(grid),
        is_phase(even, grid, Phase::Even),
        is_phase(odd, grid, Phase::Odd),
        all_fit(even, buffer.len() as int),
        all_fit(odd, buffer.len() as int),
    ensures
        worked_apart(worked_apart(buffer, even, rule), odd, rule) == work_pairs(
            buffer,
            striped_pairs(grid),
            rule,
        ),
{
    lemma_phase_side_by_side(even, grid, Phase::Even, buffer, rule);
    let between = worked_apart(buffer, even, rule);
    lemma_phase_side_by_side(odd, grid, Phase::Odd, between, rule);
    lemma_work_joined(
        buffer,
        phase_tasks(grid, grid.width() as int, Phase::Even).flatten(),
        phase_tasks(grid, grid.width() as int, Phase::Odd).flatten(),
        rule,
    );
}

/// A schedule that holds the tasks of both phases works, as a whole, what one sweep
/// works: each pair as often, in another order.
pub proof fn lemma_schedule_permutes_sweep(schedule: &Schedule, grid: &Grid<usize>)
    requires
        is_phase(views(schedule.even@), grid, Phase::Even),
        is_phase(views(schedule.odd@), grid, Phase::Odd),
    ensures
        schedule.order() == striped_pairs(grid),
        schedule.order().to_multiset() == sweep_pairs(grid).to_multiset(),
{
    assert(views(schedule.even@).map_values(|t: TaskView| t.global()) == phase_tasks(
        grid,
        grid.width() as int,
        Phase::Even,
    ));
    assert(views(schedule.odd@).map_values(|t: TaskView| t.global()) == phase_tasks(
        grid,
        grid.width() as int,
        Phase::Odd,
    ));
    lemma_striped_permutes_sweep(grid);
}

/// The pairs of one plain sweep over the interior columns, left to right: what a
/// single worker without stripes would work.
pub fn sweep(grid: &Grid<usize>) -> (pairs: Vec<Pair>)
    ensures
        pairs@ == sweep_pairs(grid),
{
    let width = grid.width();
    if width < 2 {
        proof {
            assert(Seq::new(0, |c: int| column_pairs(grid, 1 + c)) == Seq::<Seq<Pair>>::empty());
        }
        return Vec::new();
    }
    collect_slab_pairs(grid, 1, width - 1)
}

/// The task of the interior columns `slab`.
pub fn slab_task(grid: &Grid<usize>, slab: &Range<usize>) -> (task: Task)
    requires
        1 <= slab.start,
        slab.end + 1 <= grid.width(),
    ensures
        task@.wf(),
        task@.global() == slab_pairs(grid, slab.start as int, slab.end as int),
{
    let pairs = collect_slab_pairs(grid, slab.start, slab.end);
    proof {
        assert forall|m: int| 0 <= m < pairs@.len() implies (#[trigger] pairs@[m]).0
            != pairs@[m].1 by {
            assert(pairs@.contains(pairs@[m]));
            lemma_slab_pairs_contains(grid, slab.start as int, slab.end as int, pairs@[m]);
        }
    }
    Task::from_pairs(pairs.as_slice())
}

/// The tasks of the slabs of `group`, made several at a time.
///
/// This is `par_iter`, `map` and `collect` of the crate `rayon`, with `slab_task` as
/// the function to map. Taken on trust: that `rayon` calls the function once on each
/// slab of `group`, and that the vector it collects holds the results in the order
/// of the slabs. What each result is follows from the contract of `slab_task`.
#[verifier::external_body]
fn slab_tasks(grid: &Grid<usize>, group: &Vec<Range<usize>>) -> (tasks: Vec<Task>)
    requires
        forall|k: int|
            0 <= k < group@.len() ==> 1 <= (#[trigger] group@[k]).start && group@[k].end + 1
                <= grid.width(),
    ensures
        tasks@.len() == group@.len(),
        forall|k: int|
            0 <= k < tasks@.len() ==> (#[trigger] tasks@[k])@.wf() && tasks@[k]@.global()
                == slab_pairs(grid, group@[k].start as int, group@[k].end as int),
{
    group.par_iter().map(|slab| slab_task(grid, slab)).collect()
}

/// The tasks of the slabs of `phase`, one per slab.
pub fn collect_phase(grid: &Grid<usize>, phase: Phase) -> (tasks: Vec<Task>)
    ensures
        is_phase(views(tasks@), grid, phase),
{
    let group = slabs(grid.width(), phase);
    proof {
        assert forall|k: int| 0 <= k < group@.len() implies 1 <= (#[trigger] group@[k]).start
            && group@[k].end + 1 <= grid.width() by {
            lemma_slab_shape(grid.width() as int, phase, k);
        }
    }
    slab_tasks(grid, &group)
}

} // verus!

//! The simulation: particle buffer, link table, grid and region, and the bookkeeping
//! of one tick.
//!
//! A tick corrects collisions, resolves links, then integrates and confines every
//! particle. The arithmetic of those steps is the caller's. What is decided here is
//! which particles meet, in what order the pairs are worked, which of them may be
//! worked at the same time, and which links still count.

use crate::grid::Grid;
use crate::index::{dropped_below, indexes, lemma_indexed_once, lemma_phase_fits, populate};
use crate::link::{all_live, live_links, ordered, prune, Connection, Link};
use crate::pairs::{each_index_once, is_interior};
use crate::particle::{Particle, Raw, Scalar, Vector};
use crate::schedule::{
    collect_phase, is_phase, lemma_each_pair_once, lemma_schedule_permutes_sweep, sweep_pairs,
    views, Schedule,
};
use crate::stripes::Phase;
use crate::task::all_fit;
use vstd::prelude::*;

verus! {

/// The most particles that the controls let a user ask for.
pub const MAX: u32 = 200000;

/// The region that confines the particles, by its bottom-left and top-right corners.
#[derive(Clone, Copy, Debug, PartialEq, Eq, Structural)]
pub enum Constraint {
    /// A closed rectangle.
    Box(Vector, Vector),
    /// A rectangle without a lid.
    Cup(Vector, Vector),
}

impl Constraint {
    /// The bottom-left and top-right corners.
    pub open spec fn spec_bounds(&self) -> (Vector, Vector) {
        match *self {
            Constraint::Box(bl, tr) => (bl, tr),
            Constraint::Cup(bl, tr) => (bl, tr),
        }
    }

    /// The bottom-left and top-right corners.
    #[verifier::when_used_as_spec(spec_bounds)]
    pub fn bounds(&self) -> (corners: (Vector, Vector))
        ensures
            corners == self.bounds(),
    {
        match *self {
            Constraint::Box(bl, tr) => (bl, tr),
            Constraint::Cup(bl, tr) => (bl, tr),
        }
    }

    /// Whether the region has an inside: the first corner lies to the left of the
    /// second and below it.
    pub open spec fn spec_has_inside(&self) -> bool {
        self.bounds().0.x.lt(self.bounds().1.x) && self.bounds().0.y.lt(self.bounds().1.y)
    }

    /// Whether the region has an inside.
    #[verifier::when_used_as_spec(spec_has_inside)]
    pub fn has_inside(&self) -> (b: bool)
        ensures
            b == self.has_inside(),
    {
        let (bl, tr) = self.bounds();
        bl.x.lt(tr.x) && bl.y.lt(tr.y)
    }
}

/// Why a simulation cannot be set up.
#[derive(Clone, Copy, Debug, PartialEq, Eq, Structural)]
pub enum SetupError {
    /// The corners of the region are not the bottom-left and the top-right one of a
    /// rectangle with an inside.
    EmptyRegion,
    /// The grid would have more cells than can be counted.
    GridTooLarge,
}

/// What one tick has to work through before it integrates.
#[derive(Debug)]
pub struct Plan {
    /// How many particles found their cell full and were left out of the grid: their
    /// collisions are missed in this tick.
    pub dropped: usize,
    /// The collision pairs.
    pub collisions: Schedule,
    /// The live links in table order, each with its lower end first.
    pub links: Vec<Connection>,
}

/// The rods of a ring of `number` particles of which the first has the index `first`:
/// each particle to the next, and the last back to the first.
pub open spec fn ring_links(first: int, number: int, length: Scalar) -> Seq<Connection> {
    Seq::new(
        number as nat,
        |i: int| ((first + i) as usize, (first + (i + 1) % number) as usize, Link::Rigid(length)),
    )
}

/// Grains of sand at rest, one at each of `at`.
pub open spec fn grains(at: Seq<Vector>) -> Seq<Particle> {
    Seq::new(at.len(), |k: int| Particle::sand().place(at[k]))
}

/// The change "put the lower end first".
pub open spec fn in_order() -> spec_fn(Connection) -> Connection {
    |c: Connection| ordered(c)
}

/// The whole state of the solver.
#[derive(Debug)]
pub struct Simulation {
    /// The region that the particles are kept in.
    pub constraint: Constraint,
    /// The particles. A particle is known by its place in this buffer.
    pub particles: Vec<Particle>,
    /// The links, in the order in which they are resolved.
    pub connections: Vec<Connection>,
    /// The side of a grid cell.
    pub cell_size: Scalar,
    /// The grid, as the last rebuilding left it.
    pub grid: Grid<usize>,
}

impl Clone for Simulation {
    fn clone(&self) -> (sim: Self)
        ensures
            sim.constraint == self.constraint,
            sim.particles@ == self.particles@,
            sim.connections@ == self.connections@,
            sim.cell_size == self.cell_size,
            sim.grid.wf(),
            sim.grid.width() == self.grid.width(),
            sim.grid.height() == self.grid.height(),
            forall|col: int, row: int|
                self.grid.has_cell(col, row) ==> #[trigger] sim.grid.bucket(col, row)
                    == self.grid.bucket(col, row),
    {
        Simulation {
            constraint: self.constraint,
            particles: vstd::slice::slice_to_vec(self.particles.as_slice()),
            connections: vstd::slice::slice_to_vec(self.connections.as_slice()),
            cell_size: self.cell_size,
            grid: self.grid.clone(),
        }
    }
}

impl Simulation {
    /// A simulation over a region that is `columns` whole cells wide and `rows` whole
    /// cells high. The grid gets three more cells each way: one for the part of a cell
    /// that may be left over, and a margin of one on either side, so that every cell a
    /// particle can lie in has all eight neighbours.
    ///
    /// A region without an inside is refused, and so is a grid with more cells than
    /// can be counted.
    pub fn new(
        constraint: Constraint,
        cell_size: Scalar,
        columns: usize,
        rows: usize,
        particles: &[Particle],
        connections: &[Connection],
    ) -> (made: Result<Self, SetupError>)
        ensures
            made == Err::<Self, SetupError>(SetupError::EmptyRegion) <==> !constraint.has_inside(),
            made == Err::<Self, SetupError>(SetupError::GridTooLarge) <==> constraint.has_inside()
                && (columns + 3) * (rows + 3) > usize::MAX,
            made is Ok <==> constraint.has_inside() && (columns + 3) * (rows + 3) <= usize::MAX,
            made matches Ok(sim) ==> {
                &&& sim.constraint == constraint
                &&& sim.cell_size == cell_size
                &&& sim.particles@ == particles@
                &&& sim.connections@ == connections@
                &&& sim.grid.wf()
                &&& sim.grid.width() == columns + 3
                &&& sim.grid.height() == rows + 3
                &&& forall|col: int, row: int|
                    sim.grid.has_cell(col, row) ==> #[trigger] sim.grid.bucket(col, row)
                        == Seq::<usize>::empty()
            },
    {
        if !constraint.has_inside() {
            return Err(SetupError::EmptyRegion);
        }
        let width = match columns.checked_add(3) {
            Some(w) => w,
            None => {
                proof {
                    assert((columns + 3) * (rows + 3) > usize::MAX) by (nonlinear_arith)
                        requires
                            columns + 3 > usize::MAX,
                            rows + 3 >= 1,
                    ;
                }
                return Err(SetupError::GridTooLarge);
            },
        };
        let height = match rows.checked_add(3) {
            Some(h) => h,
            None => {
                proof {
                    assert((columns + 3) * (rows + 3) > usize::MAX) by (nonlinear_arith)
                        requires
                            rows + 3 > usize::MAX,
                            columns + 3 >= 1,
                    ;
                }
                return Err(SetupError::GridTooLarge);
            },
        };
        if width.checked_mul(height).is_none() {
            return Err(SetupError::GridTooLarge);
        }
        Ok(
            Simulation {
                constraint,
                particles: vstd::slice::slice_to_vec(particles),
                connections: vstd::slice::slice_to_vec(connections),
                cell_size,
                grid: Grid::new(width, height),
            },
        )
    }

    /// The number of live particles.
    pub fn particle_count(&self) -> (n: usize)
        ensures
            n == self.particles@.len(),
    {
        self.particles.len()
    }

    /// What a renderer gets to see: every live particle, in the order of the buffer.
    pub fn snapshot(&self) -> (seen: Vec<Raw>)
        ensures
            seen@.len() == self.particles@.len(),
            forall|k: int|
                0 <= k < seen@.len() ==> #[trigger] seen@[k] == Raw::from_particle(
                    &self.particles@[k],
                ),
    {
        let n = self.particles.len();
        let mut seen: Vec<Raw> = Vec::with_capacity(n);
        let mut k: usize = 0;
        while k < n
            invariant
                k <= n,
                n == self.particles@.len(),
                seen@.len() == k,
                forall|j: int|
                    0 <= j < k ==> #[trigger] seen@[j] == Raw::from_particle(&self.particles@[j]),
            decreases n - k,
        {
            seen.push(Raw::from_particle(&self.particles[k]));
            k += 1;
        }
        seen
    }

    /// The cell of a particle that lies `across` whole cells to the right of the
    /// region's left edge and `up` whole cells above its lower edge: one further each
    /// way, for the margin. `None` if that is off the grid.
    ///
    /// A particle inside the region lies at most `columns` cells across and `rows`
    /// cells up, with the counts given to `new`. Its cell is an interior one: all
    /// eight cells around it are on the grid.
    pub fn get_cell(&self, across: usize, up: usize) -> (cell: Option<(usize, usize)>)
        ensures
            cell == if self.grid.has_cell(across + 1, up + 1) {
                Some(((across + 1) as usize, (up + 1) as usize))
            } else {
                None
            },
            across + 3 <= self.grid.width() && up + 3 <= self.grid.height() ==> cell is Some
                && is_interior(&self.grid, across + 1, up + 1),
    {
        if across < self.grid.width() && up < self.grid.height() && across + 1
            < self.grid.width() && up + 1 < self.grid.height() {
            Some((across + 1, up + 1))
        } else {
            None
        }
    }

    /// Rebuilds the grid from scratch: particle `i` is entered into `cells[i]`, in
    /// index order. A cell that is full drops what comes later.
    pub fn populate_grid(&mut self, cells: &Vec<(usize, usize)>) -> (dropped: usize)
        requires
            forall|i: int|
                0 <= i < cells@.len() ==> old(self).grid.has_cell(
                    (#[trigger] cells@[i]).0 as int,
                    cells@[i].1 as int,
                ),
        ensures
            final(self).grid.wf(),
            final(self).grid.width() == old(self).grid.width(),
            final(self).grid.height() == old(self).grid.height(),
            indexes(&final(self).grid, cells@),
            dropped == dropped_below(cells@, cells@.len()),
            final(self).constraint == old(self).constraint,
            final(self).particles == old(self).particles,
            final(self).connections == old(self).connections,
            final(self).cell_size == old(self).cell_size,
    {
        populate(&mut self.grid, cells)
    }

    /// The collision pairs that the grid yields, laid out for the two phases.
    pub fn resolve_collisions(&self) -> (schedule: Schedule)
        ensures
            is_phase(views(schedule.even@), &self.grid, Phase::Even),
            is_phase(views(schedule.odd@), &self.grid, Phase::Odd),
            schedule.order().to_multiset() == sweep_pairs(&self.grid).to_multiset(),
    {
        let even = collect_phase(&self.grid, Phase::Even);
        let odd = collect_phase(&self.grid, Phase::Odd);
        let schedule = Schedule { even, odd };
        proof {
            lemma_schedule_permutes_sweep(&schedule, &self.grid);
        }
        schedule
    }

    /// Drops the links that point past the end of the particle buffer, and lists the
    /// others in table order, each with its lower end first.
    pub fn resolve_connections(&mut self) -> (links: Vec<Connection>)
        ensures
            final(self).connections@ == live_links(
                old(self).connections@,
                old(self).particles@.len() as int,
            ),
            all_live(final(self).connections@, final(self).particles@.len() as int),
            links@ == final(self).connections@.map_values(in_order()),
            final(self).constraint == old(self).constraint,
            final(self).particles == old(self).particles,
            final(self).cell_size == old(self).cell_size,
            final(self).grid == old(self).grid,
    {
        let count = self.particles.len();
        prune(&mut self.connections, count);
        let n = self.connections.len();
        let mut links: Vec<Connection> = Vec::new();
        let mut k: usize = 0;
        while k < n
            invariant
                k <= n,
                n == self.connections@.len(),
                links@ == self.connections@.take(k as int).map_values(in_order()),
            decreases n - k,
        {
            links.push(ordered(self.connections[k]));
            proof {
                assert(self.connections@.take(k + 1) == self.connections@.take(k as int).push(
                    self.connections@[k as int],
                ));
            }
            k += 1;
        }
        proof {
            assert(self.connections@.take(n as int) == self.connections@);
        }
        links
    }

    /// Plans one tick for particles that lie in `cells`, one entry per particle: the
    /// grid is rebuilt, the collision pairs laid out, and the links pruned and listed.
    pub fn solve(&mut self, cells: &Vec<(usize, usize)>) -> (plan: Plan)
        requires
            cells@.len() == old(self).particles@.len(),
            forall|i: int|
                0 <= i < cells@.len() ==> old(self).grid.has_cell(
                    (#[trigger] cells@[i]).0 as int,
                    cells@[i].1 as int,
                ),
        ensures
            final(self).grid.wf(),
            final(self).grid.width() == old(self).grid.width(),
            final(self).grid.height() == old(self).grid.height(),
            indexes(&final(self).grid, cells@),
            plan.dropped == dropped_below(cells@, cells@.len()),
            each_index_once(&final(self).grid),
            is_phase(views(plan.collisions.even@), &final(self).grid, Phase::Even),
            is_phase(views(plan.collisions.odd@), &final(self).grid, Phase::Odd),
            all_fit(views(plan.collisions.even@), final(self).particles@.len() as int),
            all_fit(views(plan.collisions.odd@), final(self).particles@.len() as int),
            plan.collisions.order().to_multiset() == sweep_pairs(&final(self).grid).to_multiset(),
            plan.collisions.order().no_duplicates(),
            final(self).connections@ == live_links(
                old(self).connections@,
                old(self).particles@.len() as int,
            ),
            all_live(final(self).connections@, final(self).particles@.len() as int),
            plan.links@ == final(self).connections@.map_values(in_order()),
            final(self).constraint == old(self).constraint,
            final(self).particles == old(self).particles,
            final(self).cell_size == old(self).cell_size,
    {
        let count = cells.len();
        let dropped = self.populate_grid(cells);
        let collisions = self.resolve_collisions();
        proof {
            assert(cells@.len() == count);
            lemma_phase_fits(views(collisions.even@), &self.grid, Phase::Even, cells@);
            lemma_phase_fits(views(collisions.odd@), &self.grid, Phase::Odd, cells@);
            lemma_indexed_once(&self.grid, cells@);
            lemma_each_pair_once(&self.grid);
            lemma_schedule_permutes_sweep(&collisions, &self.grid);
        }
        let links = self.resolve_connections();
        Plan { dropped, collisions, links }
    }

    /// Sets the number of particles to `number`. Fewer: the tail is cut off, and no
    /// particle is made. More: grains of sand are set down at `spawn[0]`, `spawn[1]`,
    /// ... until there are `number`.
    pub fn change_number(&mut self, number: usize, spawn: &[Vector])
        requires
            number > old(self).particles@.len() ==> spawn@.len() >= number - old(
                self,
            ).particles@.len(),
        ensures
            final(self).particles@.len() == number,
            number <= old(self).particles@.len() ==> final(self).particles@ == old(
                self,
            ).particles@.take(number as int),
            number > old(self).particles@.len() ==> final(self).particles@ == old(self).particles@
                + grains(spawn@.take(number - old(self).particles@.len())),
            final(self).constraint == old(self).constraint,
            final(self).connections == old(self).connections,
            final(self).cell_size == old(self).cell_size,
            final(self).grid == old(self).grid,
    {
        let have = self.particles.len();
        if number <= have {
            self.particles.truncate(number);
        } else {
            let mut k: usize = 0;
            while k < number - have
                invariant
                    k <= number - have,
                    have < number,
                    have == old(self).particles@.len(),
                    spawn@.len() >= number - have,
                    self.particles@ == old(self).particles@ + grains(spawn@.take(k as int)),
                    self.constraint == old(self).constraint,
                    self.connections == old(self).connections,
                    self.cell_size == old(self).cell_size,
                    self.grid == old(self).grid,
                decreases number - have - k,
            {
                self.add_particle(Particle::sand().place(spawn[k]));
                proof {
                    assert(grains(spawn@.take(k + 1)) == grains(spawn@.take(k as int)).push(
                        Particle::sand().place(spawn@[k as int]),
                    ));
                }
                k += 1;
            }
        }
    }

    /// Adds a closed chain of grains, one at each of `vertices`, with a rod of `length`
    /// from each to the next and from the last to the first.
    pub fn add_ring(&mut self, length: Scalar, vertices: &[Vector])
        requires
            old(self).particles@.len() + vertices@.len() <= usize::MAX,
        ensures
            final(self).particles@ == old(self).particles@ + grains(vertices@),
            final(self).connections@ == old(self).connections@ + ring_links(
                old(self).particles@.len() as int,
                vertices@.len() as int,
                length,
            ),
            final(self).constraint == old(self).constraint,
            final(self).cell_size == old(self).cell_size,
            final(self).grid == old(self).grid,
    {
        let number = vertices.len();
        let ind = self.particles.len();
        let mut i: usize = 0;
        while i < number
            invariant
                i <= number,
                number == vertices@.len(),
                ind == old(self).particles@.len(),
                ind + number <= usize::MAX,
                self.particles@ == old(self).particles@ + grains(vertices@.take(i as int)),
                self.connections@ == old(self).connections@ + ring_links(
                    ind as int,
                    number as int,
                    length,
                ).take(i as int),
                self.constraint == old(self).constraint,
                self.cell_size == old(self).cell_size,
                self.grid == old(self).grid,
            decreases number - i,
        {
            self.add_particle(Particle::sand().place(vertices[i]));
            self.add_rib(ind + i, ind + ((i + 1) % number), length);
            proof {
                assert(grains(vertices@.take(i + 1)) == grains(vertices@.take(i as int)).push(
                    Particle::sand().place(vertices@[i as int]),
                ));
                let ring = ring_links(ind as int, number as int, length);
                assert(ring.take(i + 1) == ring.take(i as int).push(ring[i as int]));
            }
            i += 1;
        }
        proof {
            assert(vertices@.take(number as int) == vertices@);
            let ring = ring_links(ind as int, number as int, length);
            assert(ring.take(number as int) == ring);
        }
    }

    /// Adds a ring of three.
    pub fn add_triangle(&mut self, length: Scalar, vertices: &[Vector; 3])
        requires
            old(self).particles@.len() + 3 <= usize::MAX,
        ensures
            final(self).particles@ == old(self).particles@ + grains(vertices@),
            final(self).connections@ == old(self).connections@ + ring_links(
                old(self).particles@.len() as int,
                3,
                length,
            ),
            final(self).constraint == old(self).constraint,
            final(self).cell_size == old(self).cell_size,
            final(self).grid == old(self).grid,
    {
        self.add_ring(length, vertices.as_slice());
    }

    /// Adds a ring of four, braced by a rod of length `diagonal` across each pair of
    /// opposite corners.
    pub fn add_square(&mut self, length: Scalar, diagonal: Scalar, vertices: &[Vector; 4])
        requires
            old(self).particles@.len() + 4 <= usize::MAX,
        ensures
            final(self).particles@ == old(self).particles@ + grains(vertices@),
            final(self).connections@ == (old(self).connections@ + ring_links(
                old(self).particles@.len() as int,
                4,
                length,
            )).push(
                (
                    old(self).particles@.len() as usize,
                    (old(self).particles@.len() + 2) as usize,
                    Link::Rigid(diagonal),
                ),
            ).push(
                (
                    (old(self).particles@.len() + 1) as usize,
                    (old(self).particles@.len() + 3) as usize,
                    Link::Rigid(diagonal),
                ),
            ),
            final(self).constraint == old(self).constraint,
            final(self).cell_size == old(self).cell_size,
            final(self).grid == old(self).grid,
    {
        let ind = self.particles.len();
        self.add_ring(length, vertices.as_slice());
        self.add_rib(ind, ind + 2, diagonal);
        self.add_rib(ind + 1, ind + 3, diagonal);
    }

    /// Adds `particle` at the end of the buffer.
    pub fn add_particle(&mut self, particle: Particle)
        ensures
            final(self).particles@ == old(self).particles@.push(particle),
            final(self).constraint == old(self).constraint,
            final(self).connections == old(self).connections,
            final(self).cell_size == old(self).cell_size,
            final(self).grid == old(self).grid,
    {
        self.particles.push(particle);
    }

    /// Adds a rod of `length` between the particles `i` and `j`.
    pub fn add_rib(&mut self, i: usize, j: usize, length: Scalar)
        ensures
            final(self).connections@ == old(self).connections@.push((i, j, Link::Rigid(length))),
            final(self).constraint == old(self).constraint,
            final(self).particles == old(self).particles,
            final(self).cell_size == old(self).cell_size,
            final(self).grid == old(self).grid,
    {
        self.connections.push((i, j, Link::Rigid(length)));
    }

    /// Adds a spring of magnitude `force` between the particles `i` and `j`.
    pub fn add_spring(&mut self, i: usize, j: usize, force: Scalar)
        ensures
            final(self).connections@ == old(self).connections@.push((i, j, Link::Force(force))),
            final(self).constraint == old(self).constraint,
            final(self).particles == old(self).particles,
            final(self).cell_size == old(self).cell_size,
            final(self).grid == old(self).grid,
    {
        self.connections.push((i, j, Link::Force(force)));
    }
}

} // verus!

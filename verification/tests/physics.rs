use glam::{vec2, Vec2};
use verlet_integration::pairs::Pair;
use verlet_integration::particle::{Particle, Scalar, Vector};
use verlet_integration::schedule::{sweep, Schedule};
use verlet_integration::solver::{Constraint, Simulation};
use verlet_integration::task::Task;

fn scalar(value: f32) -> Scalar {
    Scalar::from_bits(value.to_bits())
}

fn number(s: Scalar) -> f32 {
    f32::from_bits(s.bits)
}

fn vector(v: Vec2) -> Vector {
    Vector::new(scalar(v.x), scalar(v.y))
}

fn point(v: Vector) -> Vec2 {
    vec2(number(v.x), number(v.y))
}

fn grain(x: f32, y: f32) -> Particle {
    Particle::sand().place(vector(vec2(x, y)))
}

/// The region of the scenario with its grid extent worked out in single precision.
fn simulation(particles: &[Particle]) -> Simulation {
    let (bl, tr) = (vec2(-10.0, -10.0), vec2(10.0, 10.0));
    let cell_size = 0.2f32;
    let columns = ((tr.x - bl.x) / cell_size) as usize;
    let rows = ((tr.y - bl.y) / cell_size) as usize;
    Simulation::new(
        Constraint::Box(vector(bl), vector(tr)),
        scalar(cell_size),
        columns,
        rows,
        particles,
        &[],
    )
    .unwrap()
}

fn cells(sim: &Simulation) -> Vec<(usize, usize)> {
    let bl = point(sim.constraint.bounds().0);
    let cell_size = number(sim.cell_size);
    sim.particles
        .iter()
        .map(|p| {
            let pos = point(p.pos);
            let across = ((pos.x - bl.x) / cell_size).max(0.0) as usize;
            let up = ((pos.y - bl.y) / cell_size).max(0.0) as usize;
            sim.get_cell(across, up).unwrap()
        })
        .collect()
}

/// Pushes two overlapping particles apart, the heavier one less.
fn correct(particles: &mut [Particle], (i, j): Pair) {
    let (first, second) = (particles[i], particles[j]);
    let v = point(first.pos) - point(second.pos);
    let reach = number(first.radius) + number(second.radius);
    if v.length() < reach {
        let overlap = reach - v.length();
        let share_first = number(second.mass) / (number(first.mass) + number(second.mass));
        let share_second = number(first.mass) / (number(first.mass) + number(second.mass));
        let push = v.normalize_or_zero() * overlap;
        particles[i].set_position(vector(point(first.pos) + push * share_first), true);
        particles[j].set_position(vector(point(second.pos) - push * share_second), true);
    }
}

fn global(task: &Task) -> Vec<Pair> {
    task.pairs().iter().map(|&(a, b)| (task.members()[a], task.members()[b])).collect()
}

fn in_order(schedule: &Schedule) -> Vec<Pair> {
    schedule.even.iter().chain(schedule.odd.iter()).flat_map(global).collect()
}

/// Works the tasks of one phase as workers of their own would: each on copies taken
/// before the phase, written back at its end.
fn work_phase(particles: &mut Vec<Particle>, tasks: &[Task]) {
    let worked: Vec<Vec<Particle>> = tasks
        .iter()
        .map(|task| {
            let mut mine = task.copy_out(particles);
            for &pair in task.pairs() {
                correct(&mut mine, pair);
            }
            mine
        })
        .collect();
    for (task, mine) in tasks.iter().zip(worked.iter()).rev() {
        task.write_back(mine, particles);
    }
}

#[test]
fn two_overlapping_grains_end_up_touching() {
    let particles = [grain(-0.075, 0.0), grain(0.075, 0.0)];
    let mut sim = simulation(&particles);
    assert_eq!(sim.grid.width(), 103);
    assert_eq!(sim.grid.height(), 103);
    let at = cells(&sim);
    let plan = sim.solve(&at);
    assert_eq!(in_order(&plan.collisions), vec![(0, 1)]);
    assert!(plan.links.is_empty());

    let mut moved = sim.particles.clone();
    for pair in in_order(&plan.collisions) {
        correct(&mut moved, pair);
    }
    let a = point(moved[0].pos);
    let b = point(moved[1].pos);
    assert!(((b - a).length() - 0.2).abs() < 1e-6);
    assert!((a.x - (-0.1)).abs() < 1e-6);
    assert!((b.x - 0.1).abs() < 1e-6);
    assert!(((a - point(particles[0].pos)).length() - 0.025).abs() < 1e-6);
    assert!(((b - point(particles[1].pos)).length() - 0.025).abs() < 1e-6);
    assert!((a - point(particles[0].pos)).x < 0.0);
    assert!((b - point(particles[1].pos)).x > 0.0);
    assert_eq!(a.y, 0.0);
    assert_eq!(b.y, 0.0);
    // A positional nudge: history and gathered acceleration stay.
    assert_eq!(moved[0].pos_old, particles[0].pos_old);
    assert_eq!(moved[1].pos_old, particles[1].pos_old);
    assert_eq!(moved[0].acc, particles[0].acc);
}

#[test]
fn grains_across_a_cell_border_are_found_once() {
    // 0.15 apart, in neighbouring columns that belong to different slabs.
    let particles = [grain(0.59, 0.31), grain(0.74, 0.31)];
    let mut sim = simulation(&particles);
    let at = cells(&sim);
    assert_ne!(at[0].0, at[1].0);
    let plan = sim.solve(&at);
    assert_eq!(in_order(&plan.collisions), vec![(0, 1)]);
}

#[test]
fn grains_two_cells_apart_are_not_paired() {
    let particles = [grain(0.1, 0.1), grain(0.55, 0.1), grain(0.1, 0.55)];
    let mut sim = simulation(&particles);
    let at = cells(&sim);
    let plan = sim.solve(&at);
    assert!(in_order(&plan.collisions).is_empty());
}

/// A small generator, so that the layout is the same on every run.
fn next(state: &mut u32) -> f32 {
    *state = state.wrapping_mul(1664525).wrapping_add(1013904223);
    (*state >> 8) as f32 / (1u32 << 24) as f32
}

/// Fifty grains: twenty-five overlapping couples, the couples well apart.
fn couples() -> Vec<Particle> {
    let mut state = 7u32;
    let mut particles = Vec::new();
    for k in 0..25 {
        let centre = vec2(
            -8.0 + 4.0 * (k % 5) as f32 + next(&mut state),
            -8.0 + 4.0 * (k / 5) as f32 + next(&mut state),
        );
        let angle = next(&mut state) * std::f32::consts::TAU;
        let half = vec2(angle.cos(), angle.sin()) * (0.03 + 0.06 * next(&mut state));
        particles.push(Particle::sand().place(vector(centre + half)));
        particles.push(Particle::metal().place(vector(centre - half)));
    }
    particles
}

#[test]
fn striped_and_plain_order_agree_with_a_search_through_all_pairs() {
    let particles = couples();
    assert_eq!(particles.len(), 50);
    let mut sim = simulation(&particles);
    let at = cells(&sim);
    let plan = sim.solve(&at);
    let plain = sweep(&sim.grid);

    // The same pairs, whatever the order.
    let mut striped_sorted = in_order(&plan.collisions);
    let mut plain_sorted = plain.clone();
    striped_sorted.sort();
    plain_sorted.sort();
    assert_eq!(striped_sorted, plain_sorted);

    // By brute force: every two grains whose cells are the same or touch.
    let mut searched: Vec<Pair> = Vec::new();
    for i in 0..50 {
        for j in i + 1..50 {
            let near = |a: usize, b: usize| a.abs_diff(b) <= 1;
            if near(at[i].0, at[j].0) && near(at[i].1, at[j].1) {
                searched.push((i, j));
            }
        }
    }
    assert_eq!(plain_sorted, searched);
    assert_eq!(searched.len(), 25);

    // The same final positions, whichever way the pairs are worked.
    let mut by_stripes = sim.particles.clone();
    for pair in in_order(&plan.collisions) {
        correct(&mut by_stripes, pair);
    }
    let mut by_sweep = sim.particles.clone();
    for pair in plain {
        correct(&mut by_sweep, pair);
    }
    let mut by_search = sim.particles.clone();
    for i in 0..50 {
        for j in i + 1..50 {
            correct(&mut by_search, (i, j));
        }
    }
    for k in 0..50 {
        let a = point(by_stripes[k].pos);
        let b = point(by_sweep[k].pos);
        let c = point(by_search[k].pos);
        assert!((a - b).length() < 1e-6);
        assert!((a - c).length() < 1e-6);
        assert_ne!(by_stripes[k].pos, particles[k].pos);
    }
    for k in 0..25 {
        let a = point(by_stripes[2 * k].pos);
        let b = point(by_stripes[2 * k + 1].pos);
        assert!(((a - b).length() - 0.2).abs() < 1e-5);
    }
}

#[test]
fn workers_of_one_phase_share_no_particle() {
    let mut state = 99u32;
    let mut particles = Vec::new();
    for _ in 0..400 {
        particles.push(grain(-9.0 + 18.0 * next(&mut state), -1.0 + 2.0 * next(&mut state)));
    }
    let mut sim = simulation(&particles);
    let at = cells(&sim);
    let plan = sim.solve(&at);
    let mut total = 0;
    for phase in [&plan.collisions.even, &plan.collisions.odd] {
        let mut owner = vec![usize::MAX; particles.len()];
        for (slab, task) in phase.iter().enumerate() {
            assert!(task.fits(particles.len()));
            for (i, j) in global(task) {
                assert!(i < j && j < particles.len());
                for index in [i, j] {
                    assert!(owner[index] == usize::MAX || owner[index] == slab);
                    owner[index] = slab;
                }
                total += 1;
            }
        }
    }
    assert!(total > 100);
}

#[test]
fn side_by_side_gives_what_one_after_the_other_gives() {
    // Dense enough for chains of overlaps, where the order of the work shows.
    let mut state = 5u32;
    let mut particles = Vec::new();
    for _ in 0..300 {
        particles.push(grain(-3.0 + 6.0 * next(&mut state), -1.0 + 2.0 * next(&mut state)));
    }
    let mut sim = simulation(&particles);
    let at = cells(&sim);
    let plan = sim.solve(&at);

    let mut in_turn = sim.particles.clone();
    for pair in in_order(&plan.collisions) {
        correct(&mut in_turn, pair);
    }
    let mut apart = sim.particles.clone();
    work_phase(&mut apart, &plan.collisions.even);
    work_phase(&mut apart, &plan.collisions.odd);

    assert_eq!(apart, in_turn);
    let moved = (0..300).filter(|&k| apart[k].pos != particles[k].pos).count();
    assert!(moved > 100);
}

use verlet_integration::pairs::Pair;
use verlet_integration::particle::Particle;
use verlet_integration::task::Task;

fn tagged(texture: u32) -> Particle {
    let mut p = Particle::null();
    p.texture = texture;
    p
}

fn buffer(n: u32) -> Vec<Particle> {
    (0..n).map(|k| tagged(1000 + k)).collect()
}

fn global(task: &Task) -> Vec<Pair> {
    task.pairs().iter().map(|&(a, b)| (task.members()[a], task.members()[b])).collect()
}

/// A stand-in for the correction of a pair: it leaves a trace that depends on both
/// particles and on the order of the work.
fn mark(first: &mut Particle, second: &mut Particle) {
    let (a, b) = (first.texture, second.texture);
    first.texture = a.wrapping_mul(31).wrapping_add(b).wrapping_add(1);
    second.texture = b.wrapping_mul(17).wrapping_add(a).wrapping_add(2);
}

fn in_place(particles: &mut [Particle], pairs: &[Pair]) {
    for &(i, j) in pairs {
        let (mut first, mut second) = (particles[i], particles[j]);
        mark(&mut first, &mut second);
        particles[i] = first;
        particles[j] = second;
    }
}

fn on_copies(task: &Task, particles: &[Particle]) -> Vec<Particle> {
    let mut mine = task.copy_out(particles);
    in_place(&mut mine, task.pairs());
    mine
}

#[test]
fn members_come_in_the_order_of_their_first_mention() {
    let task = Task::from_pairs(&[(7, 9), (3, 7), (9, 12), (3, 12), (1, 2)]);
    assert_eq!(task.members(), &[7, 9, 3, 12, 1, 2]);
    assert_eq!(task.pairs(), &[(0, 1), (2, 0), (1, 3), (2, 3), (4, 5)]);
    assert_eq!(global(&task), vec![(7, 9), (3, 7), (9, 12), (3, 12), (1, 2)]);
}

#[test]
fn a_task_without_pairs_has_no_members() {
    let task = Task::from_pairs(&[]);
    assert!(task.members().is_empty());
    assert!(task.pairs().is_empty());
    assert!(task.fits(0));
    let particles = buffer(3);
    assert!(task.copy_out(&particles).is_empty());
    let mut after = particles.clone();
    task.write_back(&[], &mut after);
    assert_eq!(after, particles);
}

#[test]
fn a_repeated_pair_is_kept_as_often() {
    let task = Task::from_pairs(&[(4, 5), (4, 5), (5, 4)]);
    assert_eq!(task.members(), &[4, 5]);
    assert_eq!(task.pairs(), &[(0, 1), (0, 1), (1, 0)]);
}

#[test]
fn fits_asks_for_every_member() {
    let task = Task::from_pairs(&[(2, 8), (0, 5)]);
    assert!(!task.fits(0));
    assert!(!task.fits(8));
    assert!(task.fits(9));
    assert!(task.fits(usize::MAX));
    let low_first = Task::from_pairs(&[(0, 1), (1, 0)]);
    assert!(!low_first.fits(1));
    assert!(low_first.fits(2));
    let one_zero = Task::from_pairs(&[(usize::MAX, 0)]);
    assert!(!one_zero.fits(usize::MAX));
}

#[test]
fn copy_out_copies_the_members() {
    let particles = buffer(10);
    let task = Task::from_pairs(&[(7, 9), (3, 7)]);
    assert_eq!(task.copy_out(&particles), vec![tagged(1007), tagged(1009), tagged(1003)]);
}

#[test]
fn write_back_reaches_the_members_and_nothing_else() {
    let mut particles = buffer(10);
    let task = Task::from_pairs(&[(7, 9), (3, 7)]);
    task.write_back(&[tagged(1), tagged(2), tagged(3)], &mut particles);
    for (k, p) in particles.iter().enumerate() {
        let expected = match k {
            7 => 1,
            9 => 2,
            3 => 3,
            _ => 1000 + k as u32,
        };
        assert_eq!(p.texture, expected);
    }
}

#[test]
fn writing_back_what_was_copied_out_changes_nothing() {
    let particles = buffer(10);
    let task = Task::from_pairs(&[(1, 2), (2, 3), (8, 1)]);
    let mine = task.copy_out(&particles);
    let mut after = particles.clone();
    task.write_back(&mine, &mut after);
    assert_eq!(after, particles);
}

#[test]
fn working_on_copies_is_working_in_place() {
    let pairs = [(7, 9), (3, 7), (9, 12), (3, 12), (7, 9), (1, 2)];
    let task = Task::from_pairs(&pairs);
    let particles = buffer(14);
    let mut direct = particles.clone();
    in_place(&mut direct, &pairs);
    let mut through = particles.clone();
    task.write_back(&on_copies(&task, &particles), &mut through);
    assert_eq!(through, direct);
    assert_ne!(through, particles);
    assert_eq!(through[0], particles[0]);
    assert_eq!(through[13], particles[13]);
}

#[test]
fn tasks_that_share_nothing_may_be_worked_side_by_side() {
    let lists: [Vec<Pair>; 3] = [
        vec![(0, 1), (1, 2), (0, 2)],
        vec![(5, 6), (6, 7), (5, 7), (5, 6)],
        vec![(10, 11)],
    ];
    let tasks: Vec<Task> = lists.iter().map(|list| Task::from_pairs(list)).collect();
    let particles = buffer(12);

    let mut one_after_the_other = particles.clone();
    for list in &lists {
        in_place(&mut one_after_the_other, list);
    }

    // Every worker starts from the buffer as it stood.
    let worked: Vec<Vec<Particle>> = tasks.iter().map(|t| on_copies(t, &particles)).collect();
    let mut side_by_side = particles.clone();
    for k in [2, 0, 1] {
        tasks[k].write_back(&worked[k], &mut side_by_side);
    }
    assert_eq!(side_by_side, one_after_the_other);
}

use verlet_integration::grid::Grid;
use verlet_integration::pairs::{
    append_cell_pairs, append_column_pairs, collect_slab_pairs, neighbours, Pair,
};
use verlet_integration::schedule::{collect_phase, sweep};
use verlet_integration::stripes::Phase;
use verlet_integration::task::Task;

fn global(tasks: &[Task]) -> Vec<Vec<Pair>> {
    tasks
        .iter()
        .map(|t| t.pairs().iter().map(|&(a, b)| (t.members()[a], t.members()[b])).collect())
        .collect()
}

fn sample() -> Grid<usize> {
    let mut grid: Grid<usize> = Grid::new(5, 5);
    grid.push((1, 1), 0);
    grid.push((2, 2), 1);
    grid.push((1, 1), 2);
    grid.push((3, 3), 3);
    grid.push((1, 2), 4);
    grid
}

#[test]
fn neighbourhood_goes_column_by_column() {
    let grid = sample();
    assert_eq!(neighbours(&grid, 2, 2), vec![0, 2, 4, 1, 3]);
    assert_eq!(neighbours(&grid, 1, 1), vec![0, 2, 4, 1]);
    assert_eq!(neighbours(&grid, 3, 1), vec![1]);
    assert_eq!(neighbours(&grid, 3, 3), vec![1, 3]);
}

#[test]
fn a_cell_pairs_each_entry_with_the_higher_ones_around() {
    let grid = sample();
    let mut out: Vec<Pair> = Vec::new();
    append_cell_pairs(&grid, 1, 1, &mut out);
    assert_eq!(out, vec![(0, 2), (0, 4), (0, 1), (2, 4)]);
    append_cell_pairs(&grid, 2, 2, &mut out);
    assert_eq!(out, vec![(0, 2), (0, 4), (0, 1), (2, 4), (1, 2), (1, 4), (1, 3)]);
}

#[test]
fn a_cell_with_only_lower_neighbours_yields_nothing() {
    let grid = sample();
    let mut out: Vec<Pair> = vec![(8, 9)];
    append_cell_pairs(&grid, 1, 2, &mut out);
    append_cell_pairs(&grid, 3, 3, &mut out);
    append_cell_pairs(&grid, 2, 1, &mut out);
    assert_eq!(out, vec![(8, 9)]);
}

#[test]
fn a_column_goes_through_its_interior_rows() {
    let grid = sample();
    let mut out: Vec<Pair> = Vec::new();
    append_column_pairs(&grid, 1, &mut out);
    assert_eq!(out, vec![(0, 2), (0, 4), (0, 1), (2, 4)]);
    let mut out: Vec<Pair> = Vec::new();
    append_column_pairs(&grid, 2, &mut out);
    assert_eq!(out, vec![(1, 2), (1, 4), (1, 3)]);
    let mut out: Vec<Pair> = Vec::new();
    append_column_pairs(&grid, 3, &mut out);
    assert!(out.is_empty());
}

#[test]
fn a_slab_goes_through_its_columns() {
    let grid = sample();
    assert_eq!(
        collect_slab_pairs(&grid, 1, 3),
        vec![(0, 2), (0, 4), (0, 1), (2, 4), (1, 2), (1, 4), (1, 3)]
    );
    assert_eq!(collect_slab_pairs(&grid, 2, 3), vec![(1, 2), (1, 4), (1, 3)]);
    assert!(collect_slab_pairs(&grid, 3, 4).is_empty());
    assert!(collect_slab_pairs(&grid, 2, 2).is_empty());
    assert!(collect_slab_pairs(&grid, 3, 2).is_empty());
}

#[test]
fn sweep_covers_the_interior() {
    let grid = sample();
    assert_eq!(
        sweep(&grid),
        vec![(0, 2), (0, 4), (0, 1), (2, 4), (1, 2), (1, 4), (1, 3)]
    );
}

#[test]
fn sweep_of_a_grid_without_interior_is_empty() {
    for (width, height) in [(0, 0), (1, 5), (2, 5), (5, 2), (5, 1), (0, 7)] {
        let grid: Grid<usize> = Grid::new(width, height);
        assert!(sweep(&grid).is_empty());
        assert!(collect_phase(&grid, Phase::Even).iter().all(|task| task.pairs().is_empty()));
        assert!(collect_phase(&grid, Phase::Odd).iter().all(|task| task.pairs().is_empty()));
    }
}

#[test]
fn phases_split_the_sweep_by_slab() {
    let grid = sample();
    let even = global(&collect_phase(&grid, Phase::Even));
    let odd = global(&collect_phase(&grid, Phase::Odd));
    assert_eq!(
        even,
        vec![vec![(0, 2), (0, 4), (0, 1), (2, 4), (1, 2), (1, 4), (1, 3)]]
    );
    assert_eq!(odd, vec![Vec::<Pair>::new()]);
}

#[test]
fn entries_on_the_margin_are_partners_but_not_centres() {
    let mut grid: Grid<usize> = Grid::new(4, 4);
    grid.push((0, 0), 5);
    grid.push((1, 1), 2);
    grid.push((3, 3), 9);
    grid.push((2, 2), 7);
    assert_eq!(sweep(&grid), vec![(2, 5), (2, 7), (7, 9)]);
}

#[test]
fn a_dropped_entry_is_not_paired() {
    let mut grid: Grid<usize> = Grid::new(3, 3);
    for i in 0..6 {
        grid.push((1, 1), i);
    }
    assert_eq!(
        sweep(&grid),
        vec![(0, 1), (0, 2), (0, 3), (1, 2), (1, 3), (2, 3)]
    );
}

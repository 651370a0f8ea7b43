use verlet_integration::grid::{Grid, GridCell, CELL_MAX};

#[test]
fn cell_starts_empty() {
    let cell: GridCell<usize> = GridCell::new();
    assert_eq!(cell.len(), 0);
    assert!(cell.as_slice().is_empty());
}

#[test]
fn cell_keeps_insertion_order() {
    let mut cell: GridCell<usize> = GridCell::new();
    cell.push(7);
    cell.push(3);
    cell.push(9);
    assert_eq!(cell.len(), 3);
    assert_eq!(cell.as_slice(), &[7, 3, 9]);
    assert_eq!(cell.iter().copied().collect::<Vec<usize>>(), vec![7, 3, 9]);
    assert_eq!(cell.get(1), 3);
}

#[test]
fn full_cell_drops_the_overflow() {
    let mut cell: GridCell<usize> = GridCell::new();
    for k in 0..CELL_MAX + 3 {
        cell.push(k);
    }
    assert_eq!(cell.len(), CELL_MAX);
    assert_eq!(cell.as_slice(), &[0, 1, 2, 3]);
}

#[test]
fn grid_push_reaches_one_cell_only() {
    let mut grid: Grid<usize> = Grid::new(4, 3);
    grid.push((2, 1), 11);
    grid.push((2, 1), 12);
    grid.push((3, 2), 13);
    for col in 0..4 {
        for row in 0..3 {
            let expected: Vec<usize> = match (col, row) {
                (2, 1) => vec![11, 12],
                (3, 2) => vec![13],
                _ => vec![],
            };
            assert_eq!(grid.cell((col, row)).as_slice(), expected.as_slice());
        }
    }
    grid.clear();
    for col in 0..4 {
        for row in 0..3 {
            assert_eq!(grid.cell((col, row)).len(), 0);
        }
    }
}

#[test]
fn cell_set_overwrites_one_entry() {
    let mut cell: GridCell<usize> = GridCell::default();
    cell.push(1);
    cell.push(2);
    cell.push(3);
    cell.set(1, 20);
    assert_eq!(cell.as_slice(), &[1, 20, 3]);
    assert_eq!(cell.len(), 3);
}

#[test]
fn cell_clear_makes_room_again() {
    let mut cell: GridCell<usize> = GridCell::new();
    for k in 0..CELL_MAX {
        cell.push(k);
    }
    cell.clear();
    assert_eq!(cell.len(), 0);
    cell.push(9);
    assert_eq!(cell.as_slice(), &[9]);
    let copy = cell.clone();
    assert_eq!(copy.as_slice(), &[9]);
}

#[test]
fn grid_knows_its_cells() {
    let grid: Grid<usize> = Grid::new(4, 3);
    assert_eq!(grid.width(), 4);
    assert_eq!(grid.height(), 3);
    assert!(grid.in_bounds((0, 0)));
    assert!(grid.in_bounds((3, 2)));
    assert!(!grid.in_bounds((4, 0)));
    assert!(!grid.in_bounds((0, 3)));
    assert!(!grid.in_bounds((usize::MAX, usize::MAX)));
}

#[test]
fn grid_without_cells() {
    let mut grid: Grid<usize> = Grid::new(0, 5);
    assert!(!grid.in_bounds((0, 0)));
    grid.clear();
    let grid: Grid<usize> = Grid::new(5, 0);
    assert!(!grid.in_bounds((0, 0)));
}

#[test]
fn a_full_cell_of_the_grid_drops_the_overflow() {
    let mut grid: Grid<usize> = Grid::new(2, 2);
    for k in 0..7 {
        grid.push((1, 0), k);
    }
    assert_eq!(grid.cell((1, 0)).as_slice(), &[0, 1, 2, 3]);
    assert_eq!(grid.cell((0, 1)).len(), 0);
    assert_eq!(grid.cell((1, 1)).len(), 0);
    assert_eq!(grid.cell((0, 0)).len(), 0);
}

#[test]
fn a_cloned_grid_holds_the_same_and_is_its_own() {
    let mut grid: Grid<usize> = Grid::new(3, 2);
    grid.push((2, 1), 5);
    grid.push((0, 0), 6);
    let mut copy = grid.clone();
    assert_eq!(copy.width(), 3);
    assert_eq!(copy.height(), 2);
    assert_eq!(copy.cell((2, 1)).as_slice(), &[5]);
    assert_eq!(copy.cell((0, 0)).as_slice(), &[6]);
    copy.push((2, 1), 7);
    assert_eq!(copy.cell((2, 1)).as_slice(), &[5, 7]);
    assert_eq!(grid.cell((2, 1)).as_slice(), &[5]);
}

#[test]
fn a_grid_holds_any_small_value() {
    let mut grid: Grid<(u8, bool)> = Grid::new(2, 2);
    grid.push((1, 1), (7, true));
    grid.push((1, 1), (8, false));
    assert_eq!(grid.cell((1, 1)).as_slice(), &[(7, true), (8, false)]);
}

use tetris::grid::Grid;

#[test]
fn new_grid_is_blank_with_given_dimensions() {
    let g = Grid::new(3, 5);
    assert_eq!(g.rows(), 3);
    assert_eq!(g.columns(), 5);
    assert_eq!(g.dimensions(), (3, 5));
    for i in 0..3 {
        for j in 0..5 {
            assert!(!g.get(i, j));
        }
    }
}

#[test]
fn set_changes_exactly_one_cell() {
    let mut g = Grid::new(4, 4);
    g.set(2, 1, true);
    for i in 0..4 {
        for j in 0..4 {
            assert_eq!(g.get(i, j), i == 2 && j == 1);
        }
    }
    g.set(2, 1, false);
    assert!(!g.get(2, 1));
}

#[test]
fn duplicate_is_independent() {
    let mut g = Grid::new(2, 2);
    g.set(0, 0, true);
    let copy = g.duplicate();
    g.set(1, 1, true);
    assert!(copy.get(0, 0));
    assert!(!copy.get(1, 1));
    assert!(g.get(1, 1));
}

#[test]
fn same_cells_compares_contents() {
    let mut a = Grid::new(2, 3);
    let mut b = Grid::new(2, 3);
    assert!(a.same_cells(&b));
    a.set(1, 2, true);
    assert!(!a.same_cells(&b));
    b.set(1, 2, true);
    assert!(a.same_cells(&b));
    let c = Grid::new(3, 2);
    assert!(!a.same_cells(&c));
}

#[test]
fn clear_resets_every_cell_in_place() {
    let mut g = Grid::new(3, 3);
    for i in 0..3 {
        g.set(i, i, true);
    }
    g.clear();
    assert_eq!(g.dimensions(), (3, 3));
    for i in 0..3 {
        for j in 0..3 {
            assert!(!g.get(i, j));
        }
    }
}

use tetris::grid::Grid;
use tetris::shape::Shape;
use tetris::shape::ShapesFactory;

/// The cells of a shape as a vector of rows (row 0 is the bottom row).
fn shape_rows(s: &Shape) -> Vec<Vec<bool>> {
    let g = s.cells();
    let mut rows = Vec::new();
    for i in 0..g.rows() {
        let mut row = Vec::new();
        for j in 0..g.columns() {
            row.push(g.get(i, j));
        }
        rows.push(row);
    }
    rows
}

fn grid_from_rows(rows: &[&[bool]]) -> Grid {
    let mut g = Grid::new(rows.len(), rows[0].len());
    for (i, row) in rows.iter().enumerate() {
        for (j, v) in row.iter().enumerate() {
            g.set(i, j, *v);
        }
    }
    g
}

#[test]
fn rotate_shape1() {
    let factory = ShapesFactory::new();
    for sel in 0..7 {
        let mut s = factory.create_shape(sel);
        let s_orig = s.clone();
        s.rotate();

        assert_eq!(s_orig.height(), s.width());
        assert_eq!(s_orig.width(), s.height());

        s.rotate();
        s.rotate();
        s.rotate();
        assert_eq!(s_orig, s);
    }
}

#[test]
fn rotate_shape2() {
    let factory = ShapesFactory::new();
    for sel in 0..7 {
        let mut s = factory.create_shape(sel);
        let s_orig = s.clone();
        s.rotate();
        s.rotate();
        s.rotate();
        s.rotate();
        assert_eq!(s_orig, s);
    }
}

#[test]
fn catalog_has_the_seven_tetrominoes() {
    let t = true;
    let f = false;
    let factory = ShapesFactory::new();
    let expected: Vec<Vec<Vec<bool>>> = vec![
        // square
        vec![vec![t, t], vec![t, t]],
        // stick
        vec![vec![t], vec![t], vec![t], vec![t]],
        // J
        vec![vec![t, t, t], vec![t, f, f]],
        // L
        vec![vec![t, t, t], vec![f, f, t]],
        // S
        vec![vec![t, t, f], vec![f, t, t]],
        // Z
        vec![vec![f, t, t], vec![t, t, f]],
        // T
        vec![vec![t, t, t], vec![f, t, f]],
    ];
    for sel in 0..7 {
        let s = factory.create_shape(sel);
        assert_eq!(shape_rows(&s), expected[sel]);
    }
}

#[test]
fn rotation_formula_exact() {
    let t = true;
    let f = false;
    let factory = ShapesFactory::new();
    // J piece: [[t, t, t], [t, f, f]] -> rotated cell (r, c) = original (c, W - 1 - r).
    let mut s = factory.create_shape(2);
    s.rotate();
    assert_eq!(shape_rows(&s), vec![vec![t, f], vec![t, f], vec![t, t]]);
    s.rotate();
    assert_eq!(shape_rows(&s), vec![vec![f, f, t], vec![t, t, t]]);
}

#[test]
fn rotation_preserves_cell_count() {
    let factory = ShapesFactory::new();
    for sel in 0..7 {
        let mut s = factory.create_shape(sel);
        let count = |s: &Shape| {
            shape_rows(s).iter().flatten().filter(|v| **v).count()
        };
        let before = count(&s);
        for _ in 0..4 {
            s.rotate();
            assert_eq!(count(&s), before);
        }
    }
}

#[test]
fn mutating_a_created_shape_leaves_the_template() {
    let factory = ShapesFactory::new();
    let mut s = factory.create_shape(1);
    s.rotate();
    let again = factory.create_shape(1);
    assert_eq!(again.height(), 4);
    assert_eq!(again.width(), 1);
    assert!(s != again);
}

#[test]
fn shape_equality_compares_cells() {
    let t = true;
    let f = false;
    let a = Shape::new(grid_from_rows(&[&[t, f], &[f, t]]));
    let b = Shape::new(grid_from_rows(&[&[t, f], &[f, t]]));
    let c = Shape::new(grid_from_rows(&[&[t, f], &[t, t]]));
    assert_eq!(a, b);
    assert!(a != c);
}

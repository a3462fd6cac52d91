//! Boolean cell grids, stored in the `matrix` crate's dense matrix type.
//!
//! A grid is viewed as a sequence of rows, each row a sequence of cell
//! occupancies; row 0 is the bottom row of the playing field. The matrix
//! type is kept in an opaque struct (its `Element` trait bound cannot be
//! declared to the verifier), so the cells and the column count are named
//! by uninterpreted functions, and a small set of trusted wrappers relates
//! the crate's operations to those names. Everything else in this crate
//! works through the wrappers.

use vstd::prelude::*;

use matrix::format::conventional::Conventional;

verus! {

/// A fixed-size grid of boolean cells; row 0 is the bottom row.
#[verifier::external_body]
#[derive(Debug)]
pub struct Grid {
    cells: Conventional<bool>,
}

/// The cells of a grid, row by row: element `i` is row `i`, and its
/// element `j` is the cell in column `j`.
pub uninterp spec fn grid_seq(g: Grid) -> Seq<Seq<bool>>;

/// The number of columns of a grid (the matrix's `columns` field).
/// `grid_seq` alone cannot tell apart two zero-row grids of different widths.
pub uninterp spec fn grid_width(g: Grid) -> nat;

impl View for Grid {
    type V = Seq<Seq<bool>>;

    open spec fn view(&self) -> Seq<Seq<bool>> {
        grid_seq(*self)
    }
}

/// Every row of `g` has length `w`.
pub open spec fn rows_uniform(g: Seq<Seq<bool>>, w: nat) -> bool {
    forall|i: int| 0 <= i < g.len() ==> (#[trigger] g[i]).len() == w
}

/// An all-false grid of `h` rows and `w` columns.
pub open spec fn blank_grid(h: nat, w: nat) -> Seq<Seq<bool>> {
    Seq::new(h, |i: int| Seq::new(w, |j: int| false))
}

/// Relies on `matrix::format::conventional::Conventional::new`: a
/// rows-by-columns matrix filled with `bool`'s zero element, which the
/// `matrix` crate defines as `false`. The product must fit in `usize`,
/// since `new` allocates that many cells.
#[verifier::external_body]
fn mx_new(rows: usize, columns: usize) -> (g: Grid)
    requires
        rows * columns <= usize::MAX,
    ensures
        grid_seq(g) == blank_grid(rows as nat, columns as nat),
        grid_width(g) == columns as nat,
{
    Grid { cells: Conventional::new((rows, columns)) }
}

/// Relies on the public `rows` field of `Conventional`: the number of rows.
#[verifier::external_body]
fn mx_rows(g: &Grid) -> (r: usize)
    ensures
        r as nat == grid_seq(*g).len(),
{
    g.cells.rows
}

/// Relies on the public `columns` field of `Conventional`: the number of columns.
#[verifier::external_body]
fn mx_columns(g: &Grid) -> (r: usize)
    ensures
        r as nat == grid_width(*g),
{
    g.cells.columns
}

/// Relies on `Index<(usize, usize)>` for `Conventional`: the cell in row `i`,
/// column `j`. In-range indices are required, since the crate stores cells
/// column-major in one vector and checks only the flattened offset.
#[verifier::external_body]
fn mx_get(g: &Grid, i: usize, j: usize) -> (r: bool)
    requires
        i < grid_seq(*g).len(),
        j < grid_width(*g),
    ensures
        r == grid_seq(*g)[i as int][j as int],
{
    g.cells[(i, j)]
}

/// Relies on `IndexMut<(usize, usize)>` for `Conventional`: writing the cell
/// in row `i`, column `j` and leaving every other cell and both dimensions
/// as they were.
#[verifier::external_body]
fn mx_set(g: &mut Grid, i: usize, j: usize, v: bool)
    requires
        i < grid_seq(*old(g)).len(),
        j < grid_width(*old(g)),
    ensures
        grid_seq(*final(g)) == grid_seq(*old(g)).update(
            i as int,
            grid_seq(*old(g))[i as int].update(j as int, v),
        ),
        grid_width(*final(g)) == grid_width(*old(g)),
{
    g.cells[(i, j)] = v;
}

/// Relies on the derived `Clone` for `Conventional`: a copy with the same
/// dimensions and the same cells.
#[verifier::external_body]
fn mx_clone(g: &Grid) -> (r: Grid)
    ensures
        grid_seq(r) == grid_seq(*g),
        grid_width(r) == grid_width(*g),
{
    Grid { cells: g.cells.clone() }
}

/// Relies on the derived `PartialEq` for `Conventional`, which compares the
/// two dimension fields and the cell vector: two matrices are equal exactly
/// when they hold the same cells, row count included, and the same width.
#[verifier::external_body]
fn mx_eq(a: &Grid, b: &Grid) -> (r: bool)
    ensures
        r == (grid_seq(*a) == grid_seq(*b) && grid_width(*a) == grid_width(*b)),
{
    a.cells == b.cells
}

impl Grid {
    /// The number of columns, as a mathematical value.
    pub open spec fn spec_width(&self) -> nat {
        grid_width(*self)
    }

    /// Rows are uniform: the view is a proper rectangle of cells.
    pub open spec fn wf(&self) -> bool {
        rows_uniform(self@, self.spec_width())
    }

    /// A grid of the given dimensions with every cell false.
    pub fn new(rows: usize, columns: usize) -> (g: Grid)
        requires
            rows * columns <= usize::MAX,
        ensures
            g@ == blank_grid(rows as nat, columns as nat),
            g.spec_width() == columns as nat,
            g.wf(),
    {
        let g = mx_new(rows, columns);
        g
    }

    /// The number of rows.
    pub fn rows(&self) -> (r: usize)
        ensures
            r as nat == self@.len(),
    {
        mx_rows(self)
    }

    /// The number of columns.
    pub fn columns(&self) -> (r: usize)
        ensures
            r as nat == self.spec_width(),
    {
        mx_columns(self)
    }

    /// The dimensions, as (rows, columns).
    pub fn dimensions(&self) -> (r: (usize, usize))
        ensures
            r.0 as nat == self@.len(),
            r.1 as nat == self.spec_width(),
    {
        (mx_rows(self), mx_columns(self))
    }

    /// The cell in row `i`, column `j`; valid only for in-range indices.
    pub fn get(&self, i: usize, j: usize) -> (r: bool)
        requires
            i < self@.len(),
            j < self.spec_width(),
        ensures
            r == self@[i as int][j as int],
    {
        mx_get(self, i, j)
    }

    /// Write the cell in row `i`, column `j`; valid only for in-range indices.
    pub fn set(&mut self, i: usize, j: usize, v: bool)
        requires
            i < old(self)@.len(),
            j < old(self).spec_width(),
        ensures
            final(self)@ == old(self)@.update(
                i as int,
                old(self)@[i as int].update(j as int, v),
            ),
            final(self).spec_width() == old(self).spec_width(),
    {
        mx_set(self, i, j, v)
    }

    /// A copy with the same dimensions and cells.
    pub fn duplicate(&self) -> (r: Grid)
        ensures
            r@ == self@,
            r.spec_width() == self.spec_width(),
    {
        mx_clone(self)
    }

    /// Whether two grids hold the same cells and have the same width.
    pub fn same_cells(&self, other: &Grid) -> (r: bool)
        ensures
            r == (self@ == other@ && self.spec_width() == other.spec_width()),
    {
        mx_eq(self, other)
    }

    /// Reset every cell to false in place, keeping the dimensions.
    pub fn clear(&mut self)
        requires
            old(self).wf(),
        ensures
            final(self)@ == blank_grid(old(self)@.len(), old(self).spec_width()),
            final(self).spec_width() == old(self).spec_width(),
            final(self).wf(),
    {
        let h = mx_rows(self);
        let w = mx_columns(self);
        let ghost h0 = self@.len();
        let ghost w0 = self.spec_width();
        for i in 0..h
            invariant
                h as nat == h0,
                w as nat == w0,
                self@.len() == h0,
                self.spec_width() == w0,
                rows_uniform(self@, w0),
                forall|r: int|
                    0 <= r < i ==> #[trigger] self@[r] =~= Seq::new(w0, |j: int| false),
        {
            for j in 0..w
                invariant
                    h as nat == h0,
                    w as nat == w0,
                    i < h,
                    self@.len() == h0,
                    self.spec_width() == w0,
                    rows_uniform(self@, w0),
                    forall|r: int|
                        0 <= r < i ==> #[trigger] self@[r] =~= Seq::new(w0, |j: int| false),
                    forall|c: int| 0 <= c < j ==> !(#[trigger] self@[i as int][c]),
            {
                mx_set(self, i, j, false);
            }
            assert(self@[i as int] =~= Seq::new(w0, |j: int| false));
        }
        assert(self@ =~~= blank_grid(h0, w0));
    }
}

} // verus!

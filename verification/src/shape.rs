//! Pieces: small rigid shapes on their own minimal bounding grids.
//!
//! A piece is a grid of occupancies together with a clockwise 90° rotation.
//! Every piece fits a 4-by-4 bounding box: the catalog's seven tetrominoes
//! do, and rotation only swaps the two dimensions.

use vstd::prelude::*;

use crate::grid::Grid;
use crate::grid::rows_uniform;

verus! {

/// The row length of `g` (0 for a grid with no rows).
pub open spec fn grid_cols(g: Seq<Seq<bool>>) -> nat {
    if g.len() == 0 {
        0
    } else {
        g[0].len()
    }
}

/// Clockwise 90° rotation: for a grid of height H and width W, the result
/// has height W and width H, and its cell (r, c) is cell (c, W - 1 - r)
/// of the original.
pub open spec fn rotated(g: Seq<Seq<bool>>) -> Seq<Seq<bool>> {
    let h = g.len();
    let w = grid_cols(g);
    Seq::new(w, |r: int| Seq::new(h, |c: int| g[c][w - 1 - r]))
}

/// 180° rotation: cell (r, c) of the result is cell (H - 1 - r, W - 1 - c)
/// of the original.
pub open spec fn half_turned(g: Seq<Seq<bool>>) -> Seq<Seq<bool>> {
    let h = g.len();
    let w = grid_cols(g);
    Seq::new(h, |r: int| Seq::new(w, |c: int| g[h - 1 - r][w - 1 - c]))
}

/// A piece: a rectangular grid of occupied cells, rotatable in place.
#[derive(Debug)]
pub struct Shape {
    g: Grid,
}

impl View for Shape {
    type V = Seq<Seq<bool>>;

    closed spec fn view(&self) -> Seq<Seq<bool>> {
        self.g@
    }
}

impl Shape {
    /// The piece's width, as a mathematical value.
    pub closed spec fn spec_width(&self) -> nat {
        self.g.spec_width()
    }

    /// A valid piece: a proper rectangle of cells, between 1x1 and 4x4.
    pub open spec fn wf(&self) -> bool {
        &&& rows_uniform(self@, self.spec_width())
        &&& 1 <= self@.len() <= 4
        &&& 1 <= self.spec_width() <= 4
    }

    /// Wrap a grid as a piece. The grid must be a rectangle of cells no
    /// larger than the 4-by-4 piece bounding box.
    pub fn new(g: Grid) -> (s: Shape)
        requires
            rows_uniform(g@, g.spec_width()),
            1 <= g@.len() <= 4,
            1 <= g.spec_width() <= 4,
        ensures
            s@ == g@,
            s.spec_width() == g.spec_width(),
            s.wf(),
    {
        Shape { g }
    }

    /// The width of this piece.
    pub fn width(&self) -> (r: usize)
        ensures
            r as nat == self.spec_width(),
    {
        self.g.columns()
    }

    /// The height of this piece.
    pub fn height(&self) -> (r: usize)
        ensures
            r as nat == self@.len(),
    {
        self.g.rows()
    }

    /// Read-only view of the occupancy grid, for collision checks.
    pub fn cells(&self) -> (r: &Grid)
        ensures
            r@ == self@,
            r.spec_width() == self.spec_width(),
    {
        &self.g
    }

    /// Rotate the piece clockwise by 90°, replacing its backing grid.
    pub fn rotate(&mut self)
        requires
            old(self).wf(),
        ensures
            final(self)@ == rotated(old(self)@),
            final(self)@.len() == old(self).spec_width(),
            final(self).spec_width() == old(self)@.len(),
            final(self).wf(),
    {
        let h = self.g.rows();
        let w = self.g.columns();
        assert(w as int * h as int <= 16) by (nonlinear_arith)
            requires
                w <= 4,
                h <= 4,
        ;
        let mut ng = Grid::new(w, h);
        for r in 0..w
            invariant
                h as nat == self@.len(),
                w as nat == self.spec_width(),
                self.wf(),
                ng@.len() == w as nat,
                ng.spec_width() == h as nat,
                rows_uniform(ng@, h as nat),
                forall|rr: int, cc: int|
                    0 <= rr < r && 0 <= cc < h ==> #[trigger] ng@[rr][cc] == self@[cc][w - 1 - rr],
        {
            for c in 0..h
                invariant
                    h as nat == self@.len(),
                    w as nat == self.spec_width(),
                    r < w,
                    self.wf(),
                    ng@.len() == w as nat,
                    ng.spec_width() == h as nat,
                    rows_uniform(ng@, h as nat),
                    forall|rr: int, cc: int|
                        0 <= rr < r && 0 <= cc < h ==> #[trigger] ng@[rr][cc] == self@[cc][w - 1 - rr],
                    forall|cc: int|
                        0 <= cc < c ==> #[trigger] ng@[r as int][cc] == self@[cc][w - 1 - r],
            {
                let v = self.g.get(c, w - 1 - r);
                ng.set(r, c, v);
            }
        }
        proof {
            assert(grid_cols(self@) == self.spec_width());
            assert(ng@ =~~= rotated(self@));
        }
        self.g = ng;
    }
}

impl Clone for Shape {
    /// A fresh copy: same cells, same dimensions, independent storage.
    fn clone(&self) -> (r: Shape)
        ensures
            r@ == self@,
            r.spec_width() == self.spec_width(),
    {
        Shape { g: self.g.duplicate() }
    }
}

impl PartialEq for Shape {
    fn eq(&self, other: &Shape) -> (r: bool) {
        self.g.same_cells(&other.g)
    }
}

impl vstd::std_specs::cmp::PartialEqSpecImpl for Shape {
    open spec fn obeys_eq_spec() -> bool {
        true
    }

    open spec fn eq_spec(&self, other: &Shape) -> bool {
        self@ == other@ && self.spec_width() == other.spec_width()
    }
}

/// The number of occupied cells in a row.
pub open spec fn row_count(s: Seq<bool>) -> nat
    decreases s.len(),
{
    if s.len() == 0 {
        0
    } else {
        row_count(s.drop_last()) + if s.last() {
            1nat
        } else {
            0nat
        }
    }
}

/// The number of occupied cells in a grid.
pub open spec fn cell_count(g: Seq<Seq<bool>>) -> nat
    decreases g.len(),
{
    if g.len() == 0 {
        0
    } else {
        cell_count(g.drop_last()) + row_count(g.last())
    }
}

/// The occupied cells among the first `k` of a row.
spec fn row_count_upto(s: Seq<bool>, k: int) -> nat
    decreases k,
{
    if k <= 0 {
        0
    } else {
        row_count_upto(s, k - 1) + if s[k - 1] {
            1nat
        } else {
            0nat
        }
    }
}

/// The occupied cells among the first `k` of column `j` of a grid.
spec fn col_count_upto(g: Seq<Seq<bool>>, j: int, k: int) -> nat
    decreases k,
{
    if k <= 0 {
        0
    } else {
        col_count_upto(g, j, k - 1) + if g[k - 1][j] {
            1nat
        } else {
            0nat
        }
    }
}

/// The sum of the first-`k` counts of the first `b` columns of a grid.
spec fn cols_sum(g: Seq<Seq<bool>>, b: int, k: int) -> nat
    decreases b,
{
    if b <= 0 {
        0
    } else {
        cols_sum(g, b - 1, k) + col_count_upto(g, b - 1, k)
    }
}

/// The sum of the row counts of the first `k` rows of a grid.
spec fn rows_sum(g: Seq<Seq<bool>>, k: int) -> nat
    decreases k,
{
    if k <= 0 {
        0
    } else {
        rows_sum(g, k - 1) + row_count(g[k - 1])
    }
}

/// Prefix counts only look at the prefix.
proof fn lemma_row_count_upto_prefix(s: Seq<bool>, t: Seq<bool>, k: int)
    requires
        forall|i: int| 0 <= i < k ==> s[i] == t[i],
    ensures
        row_count_upto(s, k) == row_count_upto(t, k),
    decreases k,
{
    if k > 0 {
        lemma_row_count_upto_prefix(s, t, k - 1);
    }
}

/// A row's count is its prefix count over the whole row.
proof fn lemma_row_count_is_upto(s: Seq<bool>)
    ensures
        row_count(s) == row_count_upto(s, s.len() as int),
    decreases s.len(),
{
    if s.len() > 0 {
        lemma_row_count_is_upto(s.drop_last());
        lemma_row_count_upto_prefix(s.drop_last(), s, s.len() - 1);
    }
}

/// Column prefix counts only look at the row prefix.
proof fn lemma_col_count_upto_prefix(g: Seq<Seq<bool>>, t: Seq<Seq<bool>>, j: int, k: int)
    requires
        forall|i: int| 0 <= i < k ==> s_eq(g, t, i),
    ensures
        col_count_upto(g, j, k) == col_count_upto(t, j, k),
    decreases k,
{
    if k > 0 {
        lemma_col_count_upto_prefix(g, t, j, k - 1);
        assert(s_eq(g, t, k - 1));
    }
}

/// Rows `i` of two grids agree.
spec fn s_eq(g: Seq<Seq<bool>>, t: Seq<Seq<bool>>, i: int) -> bool {
    g[i] == t[i]
}

/// Column sums only look at the row prefix.
proof fn lemma_cols_sum_prefix(g: Seq<Seq<bool>>, t: Seq<Seq<bool>>, b: int, k: int)
    requires
        forall|i: int| 0 <= i < k ==> s_eq(g, t, i),
    ensures
        cols_sum(g, b, k) == cols_sum(t, b, k),
    decreases b,
{
    if b > 0 {
        lemma_cols_sum_prefix(g, t, b - 1, k);
        lemma_col_count_upto_prefix(g, t, b - 1, k);
    }
}

/// A column sum over zero rows is zero.
proof fn lemma_cols_sum_zero(g: Seq<Seq<bool>>, b: int)
    ensures
        cols_sum(g, b, 0) == 0,
    decreases b,
{
    if b > 0 {
        lemma_cols_sum_zero(g, b - 1);
    }
}

/// Adding row `k - 1` adds that row's prefix count to every column sum.
proof fn lemma_cols_sum_step(g: Seq<Seq<bool>>, b: int, k: int)
    requires
        k >= 1,
    ensures
        cols_sum(g, b, k) == cols_sum(g, b, k - 1) + row_count_upto(g[k - 1], b),
    decreases b,
{
    if b > 0 {
        lemma_cols_sum_step(g, b - 1, k);
    }
}

/// Counting a rectangle by rows or by columns gives the same total.
proof fn lemma_cell_count_is_cols_sum(g: Seq<Seq<bool>>, w: nat)
    requires
        rows_uniform(g, w),
    ensures
        cell_count(g) == cols_sum(g, w as int, g.len() as int),
    decreases g.len(),
{
    if g.len() == 0 {
        lemma_cols_sum_zero(g, w as int);
    } else {
        let d = g.drop_last();
        assert(rows_uniform(d, w));
        lemma_cell_count_is_cols_sum(d, w);
        assert(forall|i: int| 0 <= i < d.len() ==> s_eq(d, g, i));
        lemma_cols_sum_prefix(d, g, w as int, d.len() as int);
        lemma_cols_sum_step(g, w as int, g.len() as int);
        lemma_row_count_is_upto(g.last());
    }
}

/// A grid's count is the sum of its rows' counts.
proof fn lemma_cell_count_is_rows_sum(g: Seq<Seq<bool>>)
    ensures
        cell_count(g) == rows_sum(g, g.len() as int),
    decreases g.len(),
{
    if g.len() > 0 {
        let d = g.drop_last();
        lemma_cell_count_is_rows_sum(d);
        lemma_rows_sum_prefix(d, g, d.len() as int);
    }
}

/// Row sums only look at the prefix of rows.
proof fn lemma_rows_sum_prefix(g: Seq<Seq<bool>>, t: Seq<Seq<bool>>, k: int)
    requires
        forall|i: int| 0 <= i < k ==> s_eq(g, t, i),
    ensures
        rows_sum(g, k) == rows_sum(t, k),
    decreases k,
{
    if k > 0 {
        lemma_rows_sum_prefix(g, t, k - 1);
        assert(s_eq(g, t, k - 1));
    }
}

/// Row `r` of the rotation counts column `w - 1 - r` of the original.
proof fn lemma_rot_row_count_upto(g: Seq<Seq<bool>>, w: nat, r: int, k: int)
    requires
        rows_uniform(g, w),
        g.len() >= 1,
        w >= 1,
        0 <= r < w,
        0 <= k <= g.len(),
    ensures
        row_count_upto(rotated(g)[r], k) == col_count_upto(g, w - 1 - r, k),
    decreases k,
{
    if k > 0 {
        lemma_rot_row_count_upto(g, w, r, k - 1);
        assert(grid_cols(g) == w);
        assert(rotated(g)[r][k - 1] == g[k - 1][w - 1 - r]);
    }
}

/// The first `k` rows of the rotation count the last `k` columns of the
/// original.
proof fn lemma_rot_rows_sum(g: Seq<Seq<bool>>, w: nat, k: int)
    requires
        rows_uniform(g, w),
        g.len() >= 1,
        w >= 1,
        0 <= k <= w,
    ensures
        rows_sum(rotated(g), k) + cols_sum(g, w - k, g.len() as int) == cols_sum(
            g,
            w as int,
            g.len() as int,
        ),
    decreases k,
{
    if k > 0 {
        lemma_rot_rows_sum(g, w, k - 1);
        lemma_rot_row_count_upto(g, w, k - 1, g.len() as int);
        assert(grid_cols(g) == w);
        assert(rotated(g)[k - 1].len() == g.len());
        lemma_row_count_is_upto(rotated(g)[k - 1]);
        assert(cols_sum(g, w - k + 1, g.len() as int) == cols_sum(g, w - k, g.len() as int)
            + col_count_upto(g, w - k, g.len() as int));
    }
}

/// Rotating a piece four times restores it exactly.
pub proof fn lemma_rotate_full_cycle(p: Shape)
    requires
        p.wf(),
    ensures
        rotated(rotated(rotated(rotated(p@)))) == p@,
{
    let g = p@;
    let w = p.spec_width();
    lemma_double_rotation(g, w);
    lemma_half_turn_facts(g, w);
    lemma_double_rotation(half_turned(g), w);
    lemma_double_half_turn(g, w);
}

/// Rotating a piece twice equals turning it 180°; width and height swap
/// after an odd number of rotations and are restored after an even number
/// (shown here for one, two, three and four rotations).
pub proof fn lemma_rotate_twice_is_half_turn(p: Shape)
    requires
        p.wf(),
    ensures
        rotated(rotated(p@)) == half_turned(p@),
        rotated(p@).len() == p.spec_width(),
        grid_cols(rotated(p@)) == p@.len(),
        rotated(rotated(p@)).len() == p@.len(),
        grid_cols(rotated(rotated(p@))) == p.spec_width(),
        rotated(rotated(rotated(p@))).len() == p.spec_width(),
        grid_cols(rotated(rotated(rotated(p@)))) == p@.len(),
        rotated(rotated(rotated(rotated(p@)))).len() == p@.len(),
        grid_cols(rotated(rotated(rotated(rotated(p@))))) == p.spec_width(),
{
    let g = p@;
    let w = p.spec_width();
    lemma_double_rotation(g, w);
    lemma_half_turn_facts(g, w);
    lemma_rotated_dims(half_turned(g), w);
    lemma_double_rotation(half_turned(g), w);
    lemma_half_turn_facts(half_turned(g), w);
    lemma_double_half_turn(g, w);
}

/// The dimensions and row lengths of a single rotation.
proof fn lemma_rotated_dims(g: Seq<Seq<bool>>, w: nat)
    requires
        rows_uniform(g, w),
        g.len() >= 1,
        w >= 1,
    ensures
        rotated(g).len() == w,
        rows_uniform(rotated(g), g.len()),
        grid_cols(rotated(g)) == g.len(),
{
    assert(grid_cols(g) == w);
    assert forall|i: int| 0 <= i < rotated(g).len() implies (#[trigger] rotated(g)[i]).len()
        == g.len() by {}
}

/// Rotating a piece preserves the number of occupied cells.
pub proof fn lemma_rotation_preserves_count(p: Shape)
    requires
        p.wf(),
    ensures
        cell_count(rotated(p@)) == cell_count(p@),
{
    let g = p@;
    let w = p.spec_width();
    assert(grid_cols(g) == w);
    assert(rotated(g).len() == w);
    lemma_cell_count_is_rows_sum(rotated(g));
    lemma_rot_rows_sum(g, w, w as int);
    lemma_cols_sum_zero(g, 0);
    lemma_cell_count_is_cols_sum(g, w);
}

/// A 180° turn has the original dimensions and uniform rows.
proof fn lemma_half_turn_facts(g: Seq<Seq<bool>>, w: nat)
    requires
        rows_uniform(g, w),
        g.len() >= 1,
        w >= 1,
    ensures
        half_turned(g).len() == g.len(),
        rows_uniform(half_turned(g), w),
        grid_cols(half_turned(g)) == w,
{
    assert(grid_cols(g) == w);
    assert forall|i: int| 0 <= i < half_turned(g).len() implies (#[trigger] half_turned(g)[
        i
    ]).len() == w by {}
}

/// Two rotations amount to a 180° turn.
proof fn lemma_double_rotation(g: Seq<Seq<bool>>, w: nat)
    requires
        rows_uniform(g, w),
        g.len() >= 1,
        w >= 1,
    ensures
        rotated(rotated(g)) == half_turned(g),
{
    let h = g.len();
    let g1 = rotated(g);
    assert(grid_cols(g) == w);
    assert(g1.len() == w);
    assert forall|i: int| 0 <= i < g1.len() implies (#[trigger] g1[i]).len() == h by {}
    assert(rows_uniform(g1, h));
    assert(grid_cols(g1) == h);
    assert forall|r: int, c: int| 0 <= r < h && 0 <= c < w implies rotated(g1)[r][c]
        == half_turned(g)[r][c] by {
        assert(rotated(g1)[r][c] == g1[c][h - 1 - r]);
        assert(g1[c][h - 1 - r] == g[h - 1 - r][w - 1 - c]);
    }
    assert(rotated(g1) =~~= half_turned(g));
}

/// Two 180° turns restore the grid.
proof fn lemma_double_half_turn(g: Seq<Seq<bool>>, w: nat)
    requires
        rows_uniform(g, w),
        g.len() >= 1,
        w >= 1,
    ensures
        half_turned(half_turned(g)) == g,
{
    let h = g.len();
    let g2 = half_turned(g);
    lemma_half_turn_facts(g, w);
    assert forall|r: int, c: int| 0 <= r < h && 0 <= c < w implies half_turned(g2)[r][c] == g[r][c]
        by {
        assert(half_turned(g2)[r][c] == g2[h - 1 - r][w - 1 - c]);
        assert(g2[h - 1 - r][w - 1 - c] == g[r][c]);
    }
    assert(half_turned(g2) =~~= g);
}

/// Cells of the square piece, bottom row first.
pub open spec fn square_cells() -> Seq<Seq<bool>> {
    seq![seq![true, true], seq![true, true]]
}

/// Cells of the stick piece.
pub open spec fn stick_cells() -> Seq<Seq<bool>> {
    seq![seq![true], seq![true], seq![true], seq![true]]
}

/// Cells of the J piece.
pub open spec fn jay_cells() -> Seq<Seq<bool>> {
    seq![seq![true, true, true], seq![true, false, false]]
}

/// Cells of the L piece.
pub open spec fn ell_cells() -> Seq<Seq<bool>> {
    seq![seq![true, true, true], seq![false, false, true]]
}

/// Cells of the S piece.
pub open spec fn ess_cells() -> Seq<Seq<bool>> {
    seq![seq![true, true, false], seq![false, true, true]]
}

/// Cells of the Z piece.
pub open spec fn zee_cells() -> Seq<Seq<bool>> {
    seq![seq![false, true, true], seq![true, true, false]]
}

/// Cells of the T piece.
pub open spec fn tee_cells() -> Seq<Seq<bool>> {
    seq![seq![true, true, true], seq![false, true, false]]
}

/// The seven standard tetromino shapes, in catalog order: square, stick,
/// J, L, S, Z, T.
pub open spec fn catalog() -> Seq<Seq<Seq<bool>>> {
    seq![
        square_cells(),
        stick_cells(),
        jay_cells(),
        ell_cells(),
        ess_cells(),
        zee_cells(),
        tee_cells(),
    ]
}

/// Holds one template of each of the seven standard tetromino shapes.
pub struct ShapesFactory {
    shapes: Vec<Shape>,
}

impl ShapesFactory {
    /// The stored templates.
    pub closed spec fn shapes_view(&self) -> Seq<Shape> {
        self.shapes@
    }

    /// The factory holds exactly the seven catalog shapes, in order.
    pub open spec fn wf(&self) -> bool {
        &&& self.shapes_view().len() == 7
        &&& forall|k: int| 0 <= k < 7 ==> (#[trigger] self.shapes_view()[k]).wf()
        &&& forall|k: int| 0 <= k < 7 ==> (#[trigger] self.shapes_view()[k])@ == catalog()[k]
    }

    /// Build the fixed catalog of the seven standard tetromino shapes.
    pub fn new() -> (f: ShapesFactory)
        ensures
            f.wf(),
    {
        let mut shapes: Vec<Shape> = Vec::new();

        let mut g = Grid::new(2, 2);
        g.set(0, 0, true);
        g.set(0, 1, true);
        g.set(1, 0, true);
        g.set(1, 1, true);
        proof {
            assert(g@ =~~= square_cells());
        }
        shapes.push(Shape::new(g));

        let mut g = Grid::new(4, 1);
        g.set(0, 0, true);
        g.set(1, 0, true);
        g.set(2, 0, true);
        g.set(3, 0, true);
        proof {
            assert(g@ =~~= stick_cells());
        }
        shapes.push(Shape::new(g));

        let mut g = Grid::new(2, 3);
        g.set(0, 0, true);
        g.set(0, 1, true);
        g.set(0, 2, true);
        g.set(1, 0, true);
        proof {
            assert(g@ =~~= jay_cells());
        }
        shapes.push(Shape::new(g));

        let mut g = Grid::new(2, 3);
        g.set(0, 0, true);
        g.set(0, 1, true);
        g.set(0, 2, true);
        g.set(1, 2, true);
        proof {
            assert(g@ =~~= ell_cells());
        }
        shapes.push(Shape::new(g));

        let mut g = Grid::new(2, 3);
        g.set(0, 0, true);
        g.set(0, 1, true);
        g.set(1, 1, true);
        g.set(1, 2, true);
        proof {
            assert(g@ =~~= ess_cells());
        }
        shapes.push(Shape::new(g));

        let mut g = Grid::new(2, 3);
        g.set(0, 1, true);
        g.set(0, 2, true);
        g.set(1, 0, true);
        g.set(1, 1, true);
        proof {
            assert(g@ =~~= zee_cells());
        }
        shapes.push(Shape::new(g));

        let mut g = Grid::new(2, 3);
        g.set(0, 0, true);
        g.set(0, 1, true);
        g.set(0, 2, true);
        g.set(1, 1, true);
        proof {
            assert(g@ =~~= tee_cells());
        }
        shapes.push(Shape::new(g));

        let f = ShapesFactory { shapes };
        assert(forall|k: int| 0 <= k < 7 ==> (#[trigger] f.shapes_view()[k])@ == catalog()[k]);
        f
    }

    /// A fresh, independent copy of catalog shape `sel`; rotating the copy
    /// never affects the stored template.
    pub fn create_shape(&self, sel: usize) -> (s: Shape)
        requires
            self.wf(),
            sel < 7,
        ensures
            s.wf(),
            s@ == catalog()[sel as int],
    {
        self.shapes[sel].clone()
    }
}

} // verus!

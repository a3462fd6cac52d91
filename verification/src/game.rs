//! The game engine: the level grid, the falling piece, and the state machine.
//!
//! Coordinates: a position `(row, col)` places the bottom-left corner of a
//! piece's grid in the level's coordinate space; row 0 is the bottom of the
//! level and rows grow upward. A position may be transiently negative or
//! out of range while a candidate move is validated.

use vstd::prelude::*;

use rand::Rng;

use crate::grid::Grid;
use crate::grid::blank_grid;
use crate::grid::rows_uniform;
use crate::shape::Shape;
use crate::shape::ShapesFactory;
use crate::shape::catalog;
use crate::shape::rotated;

verus! {

/// The state of the current game.
#[derive(PartialEq, Eq, Structural, Clone, Copy, Debug)]
pub enum State {
    Init,
    Playing,
    Paused,
    End,
}

/// The events that can happen in a game.
pub enum Event {
    Start,
    Left,
    Right,
    Rotate,
    Pause,
}

/// A source of piece choices: a single operation that picks an index below
/// `n`. The engine draws from it when it spawns a piece, so a deterministic
/// source can stand in for the random one.
pub trait PiecePicker {
    /// Pick an index in `[0, n)`.
    fn pick(&mut self, n: usize) -> (r: usize)
        requires
            n >= 1,
        ensures
            r < n,
    ;
}

/// Relies on `rand::thread_rng` and `rand::Rng::gen_range` over `0..n`:
/// a uniformly distributed value below `n` (the range must be non-empty).
/// Nothing beyond the range of the result is promised.
#[verifier::external_body]
fn random_below(n: usize) -> (r: usize)
    requires
        n >= 1,
    ensures
        r < n,
{
    rand::thread_rng().gen_range(0..n)
}

/// Picks uniformly at random, with the thread-local generator.
pub struct RandomPicker;

impl PiecePicker for RandomPicker {
    fn pick(&mut self, n: usize) -> (r: usize) {
        random_below(n)
    }
}

/// Replays a fixed list of choices, each reduced modulo the requested
/// range, cycling when the list is exhausted; an empty list always yields 0.
pub struct ScriptedPicker {
    picks: Vec<usize>,
    next: usize,
}

impl ScriptedPicker {
    /// The scripted choices.
    pub closed spec fn picks_view(&self) -> Seq<usize> {
        self.picks@
    }

    /// The index of the next choice to replay.
    pub closed spec fn next_view(&self) -> nat {
        self.next as nat
    }

    /// A picker that replays `picks` in order, cyclically.
    pub fn new(picks: Vec<usize>) -> (p: ScriptedPicker)
        ensures
            p.picks_view() == picks@,
            p.next_view() == 0,
    {
        ScriptedPicker { picks, next: 0 }
    }
}

impl PiecePicker for ScriptedPicker {
    fn pick(&mut self, n: usize) -> (r: usize)
        ensures
            old(self).picks_view().len() == 0 ==> r == 0 && *final(self) == *old(self),
            old(self).picks_view().len() > 0 ==> {
                let len = old(self).picks_view().len();
                &&& r == old(self).picks_view()[old(self).next_view() as int % len as int] as int
                    % n as int
                &&& final(self).next_view() == (old(self).next_view() as int % len as int + 1)
                    % len as int
                &&& final(self).picks_view() == old(self).picks_view()
            },
    {
        if self.picks.len() == 0 {
            return 0;
        }
        let i = self.next % self.picks.len();
        let r = self.picks[i] % n;
        self.next = (i + 1) % self.picks.len();
        r
    }
}

/// Dimensions a level can have on this machine: the cells fit in one
/// allocation, and positions around the level fit in a signed word.
pub open spec fn size_ok(h: nat, w: nat) -> bool {
    &&& h * w <= usize::MAX
    &&& h + 8 <= isize::MAX
    &&& w + 8 <= isize::MAX
}

/// Any part of a piece of height `ph` and width `pw` at position `pos`
/// lies outside a level of height `lh` and width `lw`. A piece may touch
/// the topmost row and the rightmost column exactly; only reaching past
/// them is out of bounds.
pub open spec fn oob(ph: int, pw: int, pos: (int, int), lh: int, lw: int) -> bool {
    ||| pos.0 < 0
    ||| pos.0 + ph > lh
    ||| pos.1 < 0
    ||| pos.1 + pw > lw
}

/// The occupied piece cell `(i, j)`, placed at `pos`, falls on an occupied
/// level cell.
pub open spec fn cell_hits(
    p: Seq<Seq<bool>>,
    pos: (int, int),
    lvl: Seq<Seq<bool>>,
    lw: nat,
    i: int,
    j: int,
) -> bool {
    &&& p[i][j]
    &&& 0 <= pos.0 + i < lvl.len()
    &&& 0 <= pos.1 + j < lw
    &&& lvl[pos.0 + i][pos.1 + j]
}

/// Some occupied cell of piece `p` (of width `pw`), placed at `pos`, falls
/// on an occupied cell of the level; piece cells outside the level are
/// ignored.
pub open spec fn collides(
    p: Seq<Seq<bool>>,
    pw: nat,
    pos: (int, int),
    lvl: Seq<Seq<bool>>,
    lw: nat,
) -> bool {
    exists|i: int, j: int|
        0 <= i < p.len() && 0 <= j < pw && #[trigger] cell_hits(p, pos, lvl, lw, i, j)
}

/// Level cell `(i, j)` is covered by an occupied cell of piece `p` placed
/// at `pos`.
pub open spec fn covered(p: Seq<Seq<bool>>, pw: nat, pos: (int, int), i: int, j: int) -> bool {
    &&& 0 <= i - pos.0 < p.len()
    &&& 0 <= j - pos.1 < pw
    &&& p[i - pos.0][j - pos.1]
}

/// The level with the piece overlaid: every level cell covered by an
/// occupied piece cell is set; piece cells outside the level are ignored.
pub open spec fn merged(
    lvl: Seq<Seq<bool>>,
    lw: nat,
    p: Seq<Seq<bool>>,
    pw: nat,
    pos: (int, int),
) -> Seq<Seq<bool>> {
    Seq::new(lvl.len(), |i: int| Seq::new(lw, |j: int| lvl[i][j] || covered(p, pw, pos, i, j)))
}

/// True iff any part of `s` at `pos` lies outside the level grid.
fn check_out_of_bounds(level: &Grid, s: &Shape, pos: (isize, isize)) -> (r: bool)
    requires
        s.wf(),
        size_ok(level@.len(), level.spec_width()),
        -6 <= pos.0 <= level@.len() + 2,
        -6 <= pos.1 <= level.spec_width() + 2,
    ensures
        r == oob(
            s@.len() as int,
            s.spec_width() as int,
            (pos.0 as int, pos.1 as int),
            level@.len() as int,
            level.spec_width() as int,
        ),
{
    let lh = level.rows() as isize;
    let lw = level.columns() as isize;
    let sh = s.height() as isize;
    let sw = s.width() as isize;
    pos.0 < 0 || pos.0 + sh > lh || pos.1 < 0 || pos.1 + sw > lw
}

/// True iff an occupied cell of `s` at `pos` falls on an occupied level cell.
fn check_collision(level: &Grid, s: &Shape, pos: (isize, isize)) -> (r: bool)
    requires
        s.wf(),
        level.wf(),
        size_ok(level@.len(), level.spec_width()),
        -6 <= pos.0 <= level@.len() + 2,
        -6 <= pos.1 <= level.spec_width() + 2,
    ensures
        r == collides(
            s@,
            s.spec_width(),
            (pos.0 as int, pos.1 as int),
            level@,
            level.spec_width(),
        ),
{
    let sh = s.height();
    let sw = s.width();
    let lh = level.rows();
    let lw = level.columns();
    for hi in 0..sh
        invariant
            sh as nat == s@.len(),
            sw as nat == s.spec_width(),
            lh as nat == level@.len(),
            lw as nat == level.spec_width(),
            s.wf(),
            level.wf(),
            size_ok(level@.len(), level.spec_width()),
            -6 <= pos.0 <= level@.len() + 2,
            -6 <= pos.1 <= level.spec_width() + 2,
            forall|i: int, j: int|
                0 <= i < hi && 0 <= j < sw ==> !#[trigger] cell_hits(
                    s@,
                    (pos.0 as int, pos.1 as int),
                    level@,
                    level.spec_width(),
                    i,
                    j,
                ),
    {
        for wi in 0..sw
            invariant
                sh as nat == s@.len(),
                sw as nat == s.spec_width(),
                lh as nat == level@.len(),
                lw as nat == level.spec_width(),
                hi < sh,
                s.wf(),
                level.wf(),
                size_ok(level@.len(), level.spec_width()),
                -6 <= pos.0 <= level@.len() + 2,
                -6 <= pos.1 <= level.spec_width() + 2,
                forall|i: int, j: int|
                    0 <= i < hi && 0 <= j < sw ==> !#[trigger] cell_hits(
                        s@,
                        (pos.0 as int, pos.1 as int),
                        level@,
                        level.spec_width(),
                        i,
                        j,
                    ),
                forall|j: int|
                    0 <= j < wi ==> !#[trigger] cell_hits(
                        s@,
                        (pos.0 as int, pos.1 as int),
                        level@,
                        level.spec_width(),
                        hi as int,
                        j,
                    ),
        {
            if s.cells().get(hi, wi) {
                let lr = pos.0 + hi as isize;
                let lc = pos.1 + wi as isize;
                if lr >= 0 && lr < lh as isize && lc >= 0 && lc < lw as isize {
                    if level.get(lr as usize, lc as usize) {
                        proof {
                            assert(cell_hits(
                                s@,
                                (pos.0 as int, pos.1 as int),
                                level@,
                                level.spec_width(),
                                hi as int,
                                wi as int,
                            ));
                        }
                        return true;
                    }
                }
            }
        }
    }
    false
}

/// True iff every cell of row `i` of `g` is occupied.
fn row_full(g: &Grid, i: usize) -> (r: bool)
    requires
        g.wf(),
        i < g@.len(),
    ensures
        r == full_row(g@[i as int]),
{
    let w = g.columns();
    for j in 0..w
        invariant
            g.wf(),
            i < g@.len(),
            w as nat == g.spec_width(),
            forall|c: int| 0 <= c < j ==> g@[i as int][c],
    {
        if !g.get(i, j) {
            return false;
        }
    }
    true
}

/// A row with every cell occupied.
pub open spec fn full_row(r: Seq<bool>) -> bool {
    forall|j: int| 0 <= j < r.len() ==> r[j]
}

/// The rows of `g` that are not full, in their original order.
pub open spec fn kept_rows(g: Seq<Seq<bool>>) -> Seq<Seq<bool>>
    decreases g.len(),
{
    if g.len() == 0 {
        Seq::empty()
    } else {
        kept_rows(g.drop_last()) + if full_row(g.last()) {
            Seq::<Seq<bool>>::empty()
        } else {
            seq![g.last()]
        }
    }
}

/// The level after clearing full rows: the rows that are not full,
/// compacted toward the bottom in their original order, with blank rows
/// above them; dimensions unchanged.
pub open spec fn after_clearing(g: Seq<Seq<bool>>, w: nat) -> Seq<Seq<bool>> {
    kept_rows(g) + blank_grid((g.len() - kept_rows(g).len()) as nat, w)
}

/// Where a fresh piece lands on a level: horizontally centered, top-aligned,
/// and raised one row at a time past colliding positions — the first
/// non-colliding row at or above the top-aligned one.
pub open spec fn spawn_pos_ok(
    p: Seq<Seq<bool>>,
    pw: nat,
    lvl: Seq<Seq<bool>>,
    lw: nat,
    pos: (int, int),
) -> bool {
    &&& pos.1 == lw as int / 2
    &&& pos.0 >= lvl.len() - p.len()
    &&& !collides(p, pw, pos, lvl, lw)
    &&& forall|r: int|
        lvl.len() - p.len() <= r < pos.0 ==> #[trigger] collides(p, pw, (r, pos.1), lvl, lw)
}

/// When every row that keeps a piece fully inside the level collides, a
/// position chosen by spawning is out of bounds — so the check that follows
/// a spawn ends the game.
pub proof fn lemma_spawn_blocked_is_out_of_bounds(
    p: Seq<Seq<bool>>,
    pw: nat,
    lvl: Seq<Seq<bool>>,
    lw: nat,
    pos: (int, int),
)
    requires
        spawn_pos_ok(p, pw, lvl, lw, pos),
        forall|r: int|
            0 <= r && r + p.len() <= lvl.len() ==> #[trigger] collides(
                p,
                pw,
                (r, pos.1),
                lvl,
                lw,
            ),
    ensures
        oob(p.len() as int, pw as int, pos, lvl.len() as int, lw as int),
{
    if !oob(p.len() as int, pw as int, pos, lvl.len() as int, lw as int) {
        assert(collides(p, pw, (pos.0, pos.1), lvl, lw));
        assert((pos.0, pos.1) == pos);
    }
}

/// Overlay the occupied cells of `s`, placed at `pos`, onto `dst`, ignoring
/// piece cells that fall outside `dst`.
fn overlay(dst: &mut Grid, s: &Shape, pos: (isize, isize))
    requires
        old(dst).wf(),
        s.wf(),
        size_ok(old(dst)@.len(), old(dst).spec_width()),
        -6 <= pos.0 <= old(dst)@.len() + 2,
        -6 <= pos.1 <= old(dst).spec_width() + 2,
    ensures
        final(dst)@ == merged(
            old(dst)@,
            old(dst).spec_width(),
            s@,
            s.spec_width(),
            (pos.0 as int, pos.1 as int),
        ),
        final(dst).spec_width() == old(dst).spec_width(),
        final(dst).wf(),
{
    let sh = s.height();
    let sw = s.width();
    let lh = dst.rows();
    let lw = dst.columns();
    let ghost lvl0 = dst@;
    let ghost lw0 = dst.spec_width();
    let ghost p = s@;
    let ghost pw = s.spec_width();
    let ghost posi: (int, int) = (pos.0 as int, pos.1 as int);
    for hi in 0..sh
        invariant
            sh as nat == p.len(),
            sw as nat == pw,
            lh as nat == lvl0.len(),
            lw as nat == lw0,
            s.wf(),
            s@ == p,
            s.spec_width() == pw,
            size_ok(lvl0.len(), lw0),
            -6 <= posi.0 <= lvl0.len() + 2,
            -6 <= posi.1 <= lw0 + 2,
            posi == (pos.0 as int, pos.1 as int),
            dst@.len() == lvl0.len(),
            dst.spec_width() == lw0,
            dst.wf(),
            forall|i: int, j: int|
                0 <= i < lvl0.len() && 0 <= j < lw0 && !(0 <= i - posi.0 < hi)
                    ==> #[trigger] dst@[i][j] == lvl0[i][j],
            forall|i: int, j: int|
                0 <= i < lvl0.len() && 0 <= j < lw0 && 0 <= i - posi.0 < hi
                    ==> #[trigger] dst@[i][j] == (lvl0[i][j] || covered(p, pw, posi, i, j)),
    {
        for wi in 0..sw
            invariant
                sh as nat == p.len(),
                sw as nat == pw,
                lh as nat == lvl0.len(),
                lw as nat == lw0,
                hi < sh,
                s.wf(),
                s@ == p,
                s.spec_width() == pw,
                size_ok(lvl0.len(), lw0),
                -6 <= posi.0 <= lvl0.len() + 2,
                -6 <= posi.1 <= lw0 + 2,
                posi == (pos.0 as int, pos.1 as int),
                dst@.len() == lvl0.len(),
                dst.spec_width() == lw0,
                dst.wf(),
                forall|i: int, j: int|
                    0 <= i < lvl0.len() && 0 <= j < lw0 && !(0 <= i - posi.0 < hi) && i != posi.0
                        + hi ==> #[trigger] dst@[i][j] == lvl0[i][j],
                forall|i: int, j: int|
                    0 <= i < lvl0.len() && 0 <= j < lw0 && 0 <= i - posi.0 < hi
                        ==> #[trigger] dst@[i][j] == (lvl0[i][j] || covered(p, pw, posi, i, j)),
                forall|j: int|
                    0 <= j < lw0 && 0 <= posi.0 + hi < lvl0.len() && 0 <= j - posi.1 < wi
                        ==> #[trigger] dst@[posi.0 + hi][j] == (lvl0[posi.0 + hi][j] || covered(
                        p,
                        pw,
                        posi,
                        posi.0 + hi,
                        j,
                    )),
                forall|j: int|
                    0 <= j < lw0 && 0 <= posi.0 + hi < lvl0.len() && !(0 <= j - posi.1 < wi)
                        ==> #[trigger] dst@[posi.0 + hi][j] == lvl0[posi.0 + hi][j],
        {
            if s.cells().get(hi, wi) {
                let lr = pos.0 + hi as isize;
                let lc = pos.1 + wi as isize;
                if lr >= 0 && lr < lh as isize && lc >= 0 && lc < lw as isize {
                    dst.set(lr as usize, lc as usize, true);
                }
            }
        }
    }
    proof {
        assert(dst@ =~~= merged(lvl0, lw0, p, pw, posi));
    }
}

/// The rows a grid keeps are never more than it has.
proof fn lemma_kept_rows_len(g: Seq<Seq<bool>>)
    ensures
        kept_rows(g).len() <= g.len(),
    decreases g.len(),
{
    if g.len() > 0 {
        lemma_kept_rows_len(g.drop_last());
    }
}

/// Extending a prefix by one row extends its kept rows by that row, when
/// the row is not full, and by nothing when it is.
proof fn lemma_kept_rows_take_step(g: Seq<Seq<bool>>, k: int)
    requires
        0 <= k < g.len(),
    ensures
        kept_rows(g.take(k + 1)) == kept_rows(g.take(k)) + if full_row(g[k]) {
            Seq::<Seq<bool>>::empty()
        } else {
            seq![g[k]]
        },
{
    assert(g.take(k + 1).drop_last() =~= g.take(k));
    assert(g.take(k + 1).last() == g[k]);
}

/// A grid with no full rows keeps all its rows.
proof fn lemma_kept_rows_all(g: Seq<Seq<bool>>)
    requires
        forall|i: int| 0 <= i < g.len() ==> !full_row(#[trigger] g[i]),
    ensures
        kept_rows(g) == g,
    decreases g.len(),
{
    if g.len() > 0 {
        assert(forall|i: int|
            0 <= i < g.drop_last().len() ==> !full_row(#[trigger] g.drop_last()[i]));
        lemma_kept_rows_all(g.drop_last());
        assert(kept_rows(g) =~= g);
    }
}

/// Clearing a grid with zero full rows is a no-op.
pub proof fn lemma_clearing_no_full_rows(g: Seq<Seq<bool>>, w: nat)
    requires
        forall|i: int| 0 <= i < g.len() ==> !full_row(#[trigger] g[i]),
    ensures
        after_clearing(g, w) == g,
{
    lemma_kept_rows_all(g);
    assert(after_clearing(g, w) =~= g);
}

/// A grid whose only full row is `r` keeps exactly the others, in order.
proof fn lemma_kept_rows_single_full(g: Seq<Seq<bool>>, r: int)
    requires
        0 <= r < g.len(),
        full_row(g[r]),
        forall|i: int| 0 <= i < g.len() && i != r ==> !full_row(#[trigger] g[i]),
    ensures
        kept_rows(g) == g.take(r) + g.skip(r + 1),
    decreases g.len(),
{
    let d = g.drop_last();
    if r == g.len() - 1 {
        assert(forall|i: int| 0 <= i < d.len() ==> !full_row(#[trigger] d[i]));
        lemma_kept_rows_all(d);
        assert(kept_rows(g) =~= g.take(r) + g.skip(r + 1));
    } else {
        assert(forall|i: int| 0 <= i < d.len() && i != r ==> !full_row(#[trigger] d[i]));
        lemma_kept_rows_single_full(d, r);
        assert(d.take(r) =~= g.take(r));
        assert(d.skip(r + 1) + seq![g.last()] =~= g.skip(r + 1));
        assert(kept_rows(g) =~= g.take(r) + g.skip(r + 1));
    }
}

/// Clearing a grid whose only full row is `r` removes exactly that row's
/// content, shifts every row above it down by one, and leaves the new top
/// row blank; the dimensions do not change.
pub proof fn lemma_clearing_single_full_row(g: Seq<Seq<bool>>, w: nat, r: int)
    requires
        rows_uniform(g, w),
        0 <= r < g.len(),
        full_row(g[r]),
        forall|i: int| 0 <= i < g.len() && i != r ==> !full_row(#[trigger] g[i]),
    ensures
        after_clearing(g, w) == g.take(r) + g.skip(r + 1) + seq![Seq::new(w, |j: int| false)],
        after_clearing(g, w).len() == g.len(),
{
    lemma_kept_rows_single_full(g, r);
    assert(kept_rows(g).len() == g.len() - 1);
    assert(blank_grid(1, w) =~= seq![Seq::new(w, |j: int| false)]);
    assert(after_clearing(g, w) =~= g.take(r) + g.skip(r + 1) + seq![
        Seq::new(w, |j: int| false),
    ]);
}

/// A piece together with its position in the level: `pos` is where the
/// bottom-left corner of the piece's own grid sits in level coordinates.
struct ShapeInLevel {
    shape: Shape,
    pos: (isize, isize),
}

/// The game engine: one level grid, at most one falling piece, the shape
/// catalog, a source of piece choices, and the current state.
pub struct Game<P: PiecePicker> {
    shape: Option<ShapeInLevel>,
    /// What state the game is currently in.
    pub state: State,
    /// The cells of the level: the locked cells only, without the piece.
    pub level: Grid,
    shapes_factory: ShapesFactory,
    picker: P,
}

impl<P: PiecePicker> Game<P> {
    /// The level cells.
    pub closed spec fn board(&self) -> Seq<Seq<bool>> {
        self.level@
    }

    /// The level width.
    pub closed spec fn board_w(&self) -> nat {
        self.level.spec_width()
    }

    /// The current state value.
    pub closed spec fn spec_state(&self) -> State {
        self.state
    }

    /// Whether a falling piece exists (absent only before the first spawn).
    pub closed spec fn has_piece(&self) -> bool {
        self.shape is Some
    }

    /// The falling piece's cells.
    pub closed spec fn piece_cells(&self) -> Seq<Seq<bool>> {
        self.shape->0.shape@
    }

    /// The falling piece's width.
    pub closed spec fn piece_width(&self) -> nat {
        self.shape->0.shape.spec_width()
    }

    /// The falling piece's row position (bottom-left corner).
    pub closed spec fn piece_row(&self) -> int {
        self.shape->0.pos.0 as int
    }

    /// The falling piece's column position (bottom-left corner).
    pub closed spec fn piece_col(&self) -> int {
        self.shape->0.pos.1 as int
    }

    /// The falling piece is a valid piece.
    pub closed spec fn piece_wf(&self) -> bool {
        self.shape->0.shape.wf()
    }

    /// The piece's cells equal one of the seven catalog shapes.
    pub open spec fn piece_from_catalog(&self) -> bool {
        exists|k: int| 0 <= k < 7 && self.piece_cells() == #[trigger] catalog()[k]
    }

    /// A valid engine: the level is a rectangle of machine-representable
    /// size, the catalog is the standard one, a piece exists except in the
    /// initial state, and the piece is valid and near the level.
    pub open spec fn wf(&self) -> bool {
        &&& rows_uniform(self.board(), self.board_w())
        &&& size_ok(self.board().len(), self.board_w())
        &&& self.catalog_wf()
        &&& self.spec_state() is Init ==> !self.has_piece()
        &&& !(self.spec_state() is Init) ==> self.has_piece()
        &&& self.has_piece() ==> {
            &&& self.piece_wf()
            &&& -4 <= self.piece_row() <= self.board().len()
            &&& 0 <= self.piece_col() <= self.board_w()
        }
    }

    /// The stored catalog is the standard one.
    pub closed spec fn catalog_wf(&self) -> bool {
        self.shapes_factory.wf()
    }

    /// The catalog and the piece source are carried over unchanged.
    pub closed spec fn catalog_kept(pre: Self, post: Self) -> bool {
        post.shapes_factory == pre.shapes_factory
    }

    /// Everything except the state value is unchanged: same piece (cells,
    /// orientation and position), same level, same catalog, same picker.
    pub closed spec fn same_but_state(pre: Self, post: Self) -> bool {
        &&& post.shape == pre.shape
        &&& post.level == pre.level
        &&& post.shapes_factory == pre.shapes_factory
        &&& post.picker == pre.picker
    }

    /// The level, the state, the catalog and the picker are unchanged.
    pub closed spec fn same_but_piece(pre: Self, post: Self) -> bool {
        &&& post.level == pre.level
        &&& post.state == pre.state
        &&& post.shapes_factory == pre.shapes_factory
        &&& post.picker == pre.picker
    }

    /// The piece, placed one step along `(dr, dc)`, stays inside the level
    /// and collides with nothing.
    pub open spec fn can_move(pre: Self, dr: int, dc: int) -> bool {
        let cand = (pre.piece_row() + dr, pre.piece_col() + dc);
        &&& !oob(
            pre.piece_cells().len() as int,
            pre.piece_width() as int,
            cand,
            pre.board().len() as int,
            pre.board_w() as int,
        )
        &&& !collides(pre.piece_cells(), pre.piece_width(), cand, pre.board(), pre.board_w())
    }

    /// A move attempt by `(dr, dc)`: the position advances exactly when the
    /// shifted piece stays in bounds and collides with nothing; otherwise
    /// nothing changes.
    pub open spec fn move_rel(pre: Self, post: Self, dr: int, dc: int) -> bool {
        if Self::can_move(pre, dr, dc) {
            &&& Self::same_but_piece(pre, post)
            &&& post.has_piece()
            &&& post.piece_cells() == pre.piece_cells()
            &&& post.piece_width() == pre.piece_width()
            &&& post.piece_row() == pre.piece_row() + dr
            &&& post.piece_col() == pre.piece_col() + dc
        } else {
            post == pre
        }
    }

    /// The rotated piece, kept at its position, stays inside the level and
    /// collides with nothing.
    pub open spec fn can_rotate(pre: Self) -> bool {
        let rp = rotated(pre.piece_cells());
        let rw = pre.piece_cells().len();
        let pos = (pre.piece_row(), pre.piece_col());
        &&& !oob(
            pre.piece_width() as int,
            rw as int,
            pos,
            pre.board().len() as int,
            pre.board_w() as int,
        )
        &&& !collides(rp, rw, pos, pre.board(), pre.board_w())
    }

    /// A rotation attempt: the piece's cells become their clockwise
    /// rotation exactly when the rotated piece, at the same position, stays
    /// in bounds and collides with nothing; otherwise nothing changes.
    pub open spec fn rotate_rel(pre: Self, post: Self) -> bool {
        if Self::can_rotate(pre) {
            &&& Self::same_but_piece(pre, post)
            &&& post.has_piece()
            &&& post.piece_cells() == rotated(pre.piece_cells())
            &&& post.piece_width() == pre.piece_cells().len()
            &&& post.piece_row() == pre.piece_row()
            &&& post.piece_col() == pre.piece_col()
        } else {
            post == pre
        }
    }

    /// A restart: the level is cleared, a fresh catalog piece is spawned on
    /// the blank level, and play begins. The catalog is kept.
    pub open spec fn reset_rel(pre: Self, post: Self) -> bool {
        &&& post.spec_state() is Playing
        &&& post.board() == blank_grid(pre.board().len(), pre.board_w())
        &&& post.board_w() == pre.board_w()
        &&& post.has_piece()
        &&& post.piece_from_catalog()
        &&& spawn_pos_ok(
            post.piece_cells(),
            post.piece_width(),
            post.board(),
            post.board_w(),
            (post.piece_row(), post.piece_col()),
        )
        &&& Self::catalog_kept(pre, post)
    }

    /// The lock-and-respawn step of a tick: the piece is merged into the
    /// level (ignoring cells outside it), full rows are cleared, a fresh
    /// catalog piece is spawned on the result, and the game ends exactly
    /// when that fresh piece starts out of bounds or colliding.
    pub open spec fn lock_step_rel(pre: Self, post: Self) -> bool {
        let locked = merged(
            pre.board(),
            pre.board_w(),
            pre.piece_cells(),
            pre.piece_width(),
            (pre.piece_row(), pre.piece_col()),
        );
        let cleared = after_clearing(locked, pre.board_w());
        let npos = (post.piece_row(), post.piece_col());
        &&& post.board() == cleared
        &&& post.board_w() == pre.board_w()
        &&& post.has_piece()
        &&& post.piece_from_catalog()
        &&& spawn_pos_ok(post.piece_cells(), post.piece_width(), cleared, post.board_w(), npos)
        &&& post.spec_state() == (if oob(
            post.piece_cells().len() as int,
            post.piece_width() as int,
            npos,
            cleared.len() as int,
            post.board_w() as int,
        ) || collides(post.piece_cells(), post.piece_width(), npos, cleared, post.board_w()) {
            State::End
        } else {
            State::Playing
        })
        &&& Self::catalog_kept(pre, post)
    }

    /// A new engine for a level of `size.0` rows by `size.1` columns, in
    /// the initial state, with a blank level and no piece yet.
    pub fn new(size: (usize, usize), picker: P) -> (g: Game<P>)
        requires
            size_ok(size.0 as nat, size.1 as nat),
        ensures
            g.wf(),
            g.spec_state() is Init,
            !g.has_piece(),
            g.board() == blank_grid(size.0 as nat, size.1 as nat),
            g.board_w() == size.1 as nat,
    {
        Game {
            shape: None,
            state: State::Init,
            level: Grid::new(size.0, size.1),
            shapes_factory: ShapesFactory::new(),
            picker,
        }
    }

    /// Move the falling piece one step along `(dr, dc)` if the game is
    /// playing; the move is committed only if the shifted piece stays in
    /// bounds and collides with nothing, and is reverted otherwise.
    fn move_shape(&mut self, dr: isize, dc: isize) -> (moved: bool)
        requires
            old(self).wf(),
            -1 <= dr <= 1,
            -1 <= dc <= 1,
        ensures
            final(self).wf(),
            old(self).spec_state() is Playing ==> Self::move_rel(
                *old(self),
                *final(self),
                dr as int,
                dc as int,
            ),
            old(self).spec_state() is Playing ==> moved == Self::can_move(
                *old(self),
                dr as int,
                dc as int,
            ),
            !(old(self).spec_state() is Playing) ==> *final(self) == *old(self) && !moved,
    {
        if self.state == State::Playing {
            match &mut self.shape {
                Some(sil) => {
                    let cand = (sil.pos.0 + dr, sil.pos.1 + dc);
                    let ok = !check_out_of_bounds(&self.level, &sil.shape, cand)
                        && !check_collision(&self.level, &sil.shape, cand);
                    if ok {
                        sil.pos = cand;
                    }
                    ok
                },
                None => {
                    proof {
                        assert(false);
                    }
                    false
                },
            }
        } else {
            false
        }
    }

    /// Rotate the falling piece clockwise if the game is playing; the
    /// rotation is committed only if the rotated piece, at its current
    /// position, stays in bounds and collides with nothing, and is
    /// silently discarded otherwise.
    fn try_rotate(&mut self)
        requires
            old(self).wf(),
            old(self).spec_state() is Playing,
        ensures
            final(self).wf(),
            Self::rotate_rel(*old(self), *final(self)),
    {
        match &self.shape {
            Some(sil) => {
                let mut ns = sil.shape.clone();
                let pos = sil.pos;
                ns.rotate();
                let ok = !check_out_of_bounds(&self.level, &ns, pos) && !check_collision(
                    &self.level,
                    &ns,
                    pos,
                );
                if ok {
                    self.shape = Some(ShapeInLevel { shape: ns, pos });
                }
            },
            None => {
                proof {
                    assert(false);
                }
            },
        }
    }

    /// Lock the falling piece into the level: every occupied piece cell
    /// whose level coordinate is in range sets that level cell; occupied
    /// level cells are never cleared.
    fn lock_piece(&mut self)
        requires
            old(self).wf(),
            old(self).has_piece(),
        ensures
            final(self).board() == merged(
                old(self).board(),
                old(self).board_w(),
                old(self).piece_cells(),
                old(self).piece_width(),
                (old(self).piece_row(), old(self).piece_col()),
            ),
            final(self).board_w() == old(self).board_w(),
            final(self).level.wf(),
            final(self).shape == old(self).shape,
            final(self).state == old(self).state,
            final(self).shapes_factory == old(self).shapes_factory,
            final(self).picker == old(self).picker,
    {
        match &self.shape {
            Some(sil) => {
                overlay(&mut self.level, &sil.shape, sil.pos);
            },
            None => {
                proof {
                    assert(false);
                }
            },
        }
    }

    /// Clear every full row: the remaining rows are compacted toward the
    /// bottom in order, the vacated rows at the top are blank, and the
    /// dimensions are unchanged. Returns whether any row was full.
    fn eliminate_rows(&mut self) -> (r: bool)
        requires
            old(self).level.wf(),
            size_ok(old(self).board().len(), old(self).board_w()),
        ensures
            final(self).board() == after_clearing(old(self).board(), old(self).board_w()),
            final(self).board().len() == old(self).board().len(),
            final(self).board_w() == old(self).board_w(),
            final(self).level.wf(),
            final(self).shape == old(self).shape,
            final(self).state == old(self).state,
            final(self).shapes_factory == old(self).shapes_factory,
            final(self).picker == old(self).picker,
            r == exists|i: int|
                0 <= i < old(self).board().len() && full_row(#[trigger] old(self).board()[i]),
    {
        let lh = self.level.rows();
        let lw = self.level.columns();
        let ghost lvl0 = self.level@;
        let ghost lw0 = self.level.spec_width();
        let mut any = false;
        for i in 0..lh
            invariant
                *self == *old(self),
                lvl0 == self.level@,
                lw0 == self.level.spec_width(),
                lh as nat == lvl0.len(),
                self.level.wf(),
                any == exists|r2: int| 0 <= r2 < i && full_row(#[trigger] lvl0[r2]),
        {
            if row_full(&self.level, i) {
                any = true;
                proof {
                    assert(full_row(lvl0[i as int]));
                }
            }
        }
        if !any {
            proof {
                lemma_clearing_no_full_rows(lvl0, lw0);
            }
            return false;
        }
        let mut ng = Grid::new(lh, lw);
        let mut dst: usize = 0;
        for src in 0..lh
            invariant
                *self == *old(self),
                lvl0 == self.level@,
                lw0 == self.level.spec_width(),
                lh as nat == lvl0.len(),
                lw as nat == lw0,
                self.level.wf(),
                size_ok(lvl0.len(), lw0),
                ng@.len() == lh as nat,
                ng.spec_width() == lw0,
                ng.wf(),
                dst as int == kept_rows(lvl0.take(src as int)).len(),
                dst <= src,
                forall|r2: int|
                    0 <= r2 < dst ==> #[trigger] ng@[r2] == kept_rows(lvl0.take(src as int))[r2],
                forall|r2: int|
                    dst <= r2 < lh ==> #[trigger] ng@[r2] =~= Seq::new(lw0, |c: int| false),
        {
            proof {
                lemma_kept_rows_take_step(lvl0, src as int);
                lemma_kept_rows_len(lvl0.take(src as int));
            }
            if !row_full(&self.level, src) {
                for c in 0..lw
                    invariant
                        *self == *old(self),
                        lvl0 == self.level@,
                        lw0 == self.level.spec_width(),
                        lh as nat == lvl0.len(),
                        lw as nat == lw0,
                        self.level.wf(),
                        src < lh,
                        dst <= src,
                        dst as int == kept_rows(lvl0.take(src as int)).len(),
                        ng@.len() == lh as nat,
                        ng.spec_width() == lw0,
                        ng.wf(),
                        forall|r2: int|
                            0 <= r2 < dst ==> #[trigger] ng@[r2] == kept_rows(
                                lvl0.take(src as int),
                            )[r2],
                        forall|r2: int|
                            dst < r2 < lh ==> #[trigger] ng@[r2] =~= Seq::new(
                                lw0,
                                |c2: int| false,
                            ),
                        forall|c2: int|
                            0 <= c2 < c ==> #[trigger] ng@[dst as int][c2] == lvl0[src as int][c2],
                        forall|c2: int| c <= c2 < lw ==> !(#[trigger] ng@[dst as int][c2]),
                {
                    let v = self.level.get(src, c);
                    ng.set(dst, c, v);
                }
                proof {
                    assert(ng@[dst as int] =~= lvl0[src as int]);
                }
                dst += 1;
            }
        }
        proof {
            assert(lvl0.take(lh as int) =~= lvl0);
            lemma_kept_rows_len(lvl0);
            assert(ng@ =~~= after_clearing(lvl0, lw0));
        }
        self.level = ng;
        true
    }

    /// Spawn a fresh catalog piece: horizontally centered, top-aligned,
    /// raised one row at a time while it overlaps a locked cell. A piece
    /// that stays within bounds therefore never overlaps a locked cell.
    fn spawn_piece(&mut self)
        requires
            old(self).level.wf(),
            size_ok(old(self).board().len(), old(self).board_w()),
            old(self).catalog_wf(),
        ensures
            final(self).level == old(self).level,
            final(self).state == old(self).state,
            final(self).shapes_factory == old(self).shapes_factory,
            final(self).has_piece(),
            final(self).piece_wf(),
            final(self).piece_from_catalog(),
            spawn_pos_ok(
                final(self).piece_cells(),
                final(self).piece_width(),
                final(self).board(),
                final(self).board_w(),
                (final(self).piece_row(), final(self).piece_col()),
            ),
            -4 <= final(self).piece_row() <= final(self).board().len(),
            0 <= final(self).piece_col() <= final(self).board_w(),
    {
        let sel = self.picker.pick(7);
        let s = self.shapes_factory.create_shape(sel);
        let sh = s.height();
        let lh = self.level.rows();
        let lw = self.level.columns();
        let col = (lw / 2) as isize;
        let mut row: isize = lh as isize - sh as isize;
        while check_collision(&self.level, &s, (row, col))
            invariant
                self.level == old(self).level,
                self.state == old(self).state,
                self.shapes_factory == old(self).shapes_factory,
                self.shape == old(self).shape,
                self.level.wf(),
                size_ok(self.board().len(), self.board_w()),
                lh as nat == self.board().len(),
                lw as nat == self.board_w(),
                col as int == self.board_w() as int / 2,
                s.wf(),
                sh as nat == s@.len(),
                sel < 7,
                s@ == catalog()[sel as int],
                lh as int - sh as int <= row <= lh as int,
                forall|r2: int|
                    lh - sh <= r2 < row ==> #[trigger] collides(
                        s@,
                        s.spec_width(),
                        (r2, col as int),
                        self.board(),
                        self.board_w(),
                    ),
            decreases lh as int - row,
        {
            proof {
                let (i, j) = choose|i: int, j: int|
                    0 <= i < s@.len() && 0 <= j < s.spec_width() && cell_hits(
                        s@,
                        (row as int, col as int),
                        self.board(),
                        self.board_w(),
                        i,
                        j,
                    );
                assert(0 <= row + i < self.board().len());
            }
            row = row + 1;
        }
        self.shape = Some(ShapeInLevel { shape: s, pos: (row, col) });
    }

    /// Reset the level to all-blank, spawn a new piece, and start playing.
    fn reset(&mut self)
        requires
            old(self).wf(),
        ensures
            final(self).wf(),
            Self::reset_rel(*old(self), *final(self)),
    {
        self.level.clear();
        self.spawn_piece();
        self.state = State::Playing;
    }

    /// Drop the piece one row; if it cannot drop, lock it into the level.
    /// Returns whether the piece dropped.
    fn drop_shape(&mut self) -> (dropped: bool)
        requires
            old(self).wf(),
            old(self).spec_state() is Playing,
        ensures
            final(self).wf(),
            dropped == Self::can_move(*old(self), -1, 0),
            dropped ==> Self::move_rel(*old(self), *final(self), -1, 0),
            !dropped ==> {
                &&& final(self).board() == merged(
                    old(self).board(),
                    old(self).board_w(),
                    old(self).piece_cells(),
                    old(self).piece_width(),
                    (old(self).piece_row(), old(self).piece_col()),
                )
                &&& final(self).board_w() == old(self).board_w()
                &&& final(self).spec_state() == old(self).spec_state()
                &&& Self::catalog_kept(*old(self), *final(self))
            },
    {
        if self.move_shape(-1, 0) {
            return true;
        }
        self.lock_piece();
        false
    }

    /// One simulation step. While playing: try to drop the piece one row;
    /// if it cannot drop, lock it, clear full rows, spawn a fresh piece,
    /// and end the game if the fresh piece is out of bounds or colliding.
    /// In any other state, do nothing.
    pub fn tick(&mut self)
        requires
            old(self).wf(),
        ensures
            final(self).wf(),
            !(old(self).spec_state() is Playing) ==> *final(self) == *old(self),
            old(self).spec_state() is Playing && Self::can_move(*old(self), -1, 0)
                ==> Self::move_rel(*old(self), *final(self), -1, 0),
            old(self).spec_state() is Playing && !Self::can_move(*old(self), -1, 0)
                ==> Self::lock_step_rel(*old(self), *final(self)),
    {
        if self.state != State::Playing {
            return;
        }
        let dropped = self.drop_shape();
        if dropped {
            return;
        }
        self.eliminate_rows();
        self.spawn_piece();
        let over = match &self.shape {
            Some(sil) => {
                check_out_of_bounds(&self.level, &sil.shape, sil.pos) || check_collision(
                    &self.level,
                    &sil.shape,
                    sil.pos,
                )
            },
            None => {
                proof {
                    assert(false);
                }
                false
            },
        };
        if over {
            self.state = State::End;
        }
    }

    /// Handle a game event; returns false if the caller should quit the
    /// game (this engine never asks to).
    pub fn handle_event(&mut self, e: Event) -> (r: bool)
        requires
            old(self).wf(),
        ensures
            final(self).wf(),
            r,
            e is Start && (old(self).spec_state() is Init || old(self).spec_state() is End)
                ==> Self::reset_rel(*old(self), *final(self)),
            e is Start && old(self).spec_state() is Paused ==> final(self).spec_state() is Playing
                && Self::same_but_state(*old(self), *final(self)),
            e is Start && old(self).spec_state() is Playing ==> *final(self) == *old(self),
            e is Left && old(self).spec_state() is Playing ==> Self::move_rel(
                *old(self),
                *final(self),
                0,
                -1,
            ),
            e is Right && old(self).spec_state() is Playing ==> Self::move_rel(
                *old(self),
                *final(self),
                0,
                1,
            ),
            e is Rotate && old(self).spec_state() is Playing ==> Self::rotate_rel(
                *old(self),
                *final(self),
            ),
            e is Pause && old(self).spec_state() is Playing ==> final(self).spec_state() is Paused
                && Self::same_but_state(*old(self), *final(self)),
            (e is Left || e is Right || e is Rotate || e is Pause) && !(old(self).spec_state()
                is Playing) ==> *final(self) == *old(self),
    {
        match e {
            Event::Start => {
                if self.state == State::Init || self.state == State::End {
                    self.reset();
                } else if self.state == State::Paused {
                    self.state = State::Playing;
                }
                true
            },
            Event::Left => {
                if self.state == State::Playing {
                    self.move_shape(0, -1);
                }
                true
            },
            Event::Right => {
                if self.state == State::Playing {
                    self.move_shape(0, 1);
                }
                true
            },
            Event::Pause => {
                if self.state == State::Playing {
                    self.state = State::Paused;
                }
                true
            },
            Event::Rotate => {
                if self.state == State::Playing {
                    self.try_rotate();
                }
                true
            },
        }
    }

    /// A fresh snapshot of the level with the falling piece overlaid;
    /// piece cells outside the level are silently clipped. Valid only
    /// once a piece exists (after the first spawn).
    pub fn render(&self) -> (r: Grid)
        requires
            self.wf(),
            self.has_piece(),
        ensures
            r@ == merged(
                self.board(),
                self.board_w(),
                self.piece_cells(),
                self.piece_width(),
                (self.piece_row(), self.piece_col()),
            ),
            r.spec_width() == self.board_w(),
            r.wf(),
    {
        let mut res = self.level.duplicate();
        match &self.shape {
            Some(sil) => {
                overlay(&mut res, &sil.shape, sil.pos);
            },
            None => {
                proof {
                    assert(false);
                }
            },
        }
        res
    }
}

} // verus!

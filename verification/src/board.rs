//! The board: a grid of columns, and what pieces do to it.

use vstd::prelude::*;

use crate::color::{Block, Rgb8};
use crate::piece::{in_box, lemma_offsets_in_box, offsets_of, spec_cell_count, Piece};

verus! {

/// A board as columns of cells: `g[x][y]`, with `y` growing downwards.
pub type Grid = Seq<Seq<Option<Block>>>;

/// The grid that a vector of columns holds.
pub open spec fn grid_of(b: Seq<Vec<Option<Block>>>) -> Grid {
    Seq::new(b.len(), |x: int| b[x]@)
}

/// `g` has `w` columns of `h` cells each.
pub open spec fn is_grid(g: Grid, w: int, h: int) -> bool {
    &&& g.len() == w
    &&& forall|x: int| 0 <= x < w ==> #[trigger] g[x].len() == h
}

/// A grid of `w` columns of `h` empty cells.
pub open spec fn empty_grid(w: int, h: int) -> Grid {
    Seq::new(w as nat, |x: int| Seq::new(h as nat, |y: int| None::<Block>))
}

/// (x, y) lies on a `w` by `h` board.
pub open spec fn in_bounds(w: int, h: int, c: (int, int)) -> bool {
    0 <= c.0 < w && 0 <= c.1 < h
}

/// Every cell of `p` lies on a `w` by `h` board.
pub open spec fn cells_in_bounds(w: int, h: int, p: Piece) -> bool {
    forall|i: int| 0 <= i < spec_cell_count(p.kind) ==> in_bounds(w, h, #[trigger] p.cell(i))
}

/// Every cell of `p` lies on the board and is free.
pub open spec fn fits(g: Grid, w: int, h: int, p: Piece) -> bool {
    forall|i: int|
        0 <= i < spec_cell_count(p.kind) ==> in_bounds(w, h, #[trigger] p.cell(i))
            && g[p.cell(i).0][p.cell(i).1] is None
}

/// `g` with a block of `p`'s color on every cell that `p` covers.
pub open spec fn with_piece(g: Grid, p: Piece) -> Grid {
    Seq::new(
        g.len(),
        |x: int|
            Seq::new(
                g[x].len(),
                |y: int|
                    if p.covers(x, y) {
                        Some(Block { color: p.color })
                    } else {
                        g[x][y]
                    },
            ),
    )
}

/// Some cell of `p` lies above row `hidden`, in the rows hidden from view.
pub open spec fn reaches_hidden(p: Piece, hidden: int) -> bool {
    exists|i: int| 0 <= i < spec_cell_count(p.kind) && #[trigger] p.cell(i).1 < hidden
}

/// `p` moved one row down.
pub open spec fn moved_down(p: Piece) -> Piece {
    Piece { y: (p.y + 1) as i16, ..p }
}

/// `p` moved down for as long as it still fits one row lower.
pub open spec fn landed(g: Grid, w: int, h: int, p: Piece) -> Piece
    decreases i16::MAX - p.y,
{
    if p.y < i16::MAX && fits(g, w, h, moved_down(p)) {
        landed(g, w, h, moved_down(p))
    } else {
        p
    }
}

/// The cell offsets held in `v` are those of `p`, inside the 4x4 box.
pub(crate) open spec fn offsets_match(v: Seq<crate::piece::Point>, p: Piece) -> bool {
    &&& offsets_of(v) == p.offsets()
    &&& v.len() == spec_cell_count(p.kind)
    &&& in_box(offsets_of(v))
}

/// A `w` by `h` board with no blocks.
pub(crate) fn new_board(w: usize, h: usize) -> (b: Vec<Vec<Option<Block>>>)
    ensures
        grid_of(b@) == empty_grid(w as int, h as int),
        is_grid(grid_of(b@), w as int, h as int),
{
    let mut b: Vec<Vec<Option<Block>>> = Vec::new();
    let mut x: usize = 0;
    while x < w
        invariant
            0 <= x <= w,
            b.len() == x,
            forall|i: int| 0 <= i < x ==> #[trigger] b@[i]@ == Seq::new(h as nat, |y: int| None::<Block>),
        decreases w - x,
    {
        let mut col: Vec<Option<Block>> = Vec::new();
        let mut y: usize = 0;
        while y < h
            invariant
                0 <= y <= h,
                col@ == Seq::new(y as nat, |k: int| None::<Block>),
            decreases h - y,
        {
            col.push(None);
            y = y + 1;
            assert(col@ =~= Seq::new(y as nat, |k: int| None::<Block>));
        }
        b.push(col);
        x = x + 1;
    }
    assert(grid_of(b@) =~= empty_grid(w as int, h as int));
    b
}

/// Whether every cell of `p` lies on the board and is free.
pub(crate) fn can_place(b: &Vec<Vec<Option<Block>>>, w: usize, h: usize, p: Piece) -> (ok: bool)
    requires
        is_grid(grid_of(b@), w as int, h as int),
    ensures
        ok == fits(grid_of(b@), w as int, h as int, p),
{
    let ghost g = grid_of(b@);
    let cells = p.cells();
    let count = cells.len();
    let mut i: usize = 0;
    while i < count
        invariant
            0 <= i <= count,
            offsets_match(cells@, p),
            count == cells.len(),
            g == grid_of(b@),
            is_grid(g, w as int, h as int),
            forall|j: int|
                0 <= j < i ==> in_bounds(w as int, h as int, #[trigger] p.cell(j))
                    && g[p.cell(j).0][p.cell(j).1] is None,
        decreases count - i,
    {
        let pt = cells[i];
        assert(offsets_of(cells@)[i as int] == (pt.x as int, pt.y as int));
        let x: i32 = p.x as i32 + pt.x as i32;
        let y: i32 = p.y as i32 + pt.y as i32;
        assert((x as int, y as int) == p.cell(i as int));
        if x < 0 || y < 0 {
            return false;
        }
        let ux = x as usize;
        let uy = y as usize;
        if ux >= w || uy >= h {
            return false;
        }
        if b[ux][uy].is_some() {
            return false;
        }
        i = i + 1;
    }
    true
}

/// Whether some cell of `p` lies at (x, y).
pub(crate) fn piece_has_cell_at(p: Piece, x: i16, y: i16) -> (yes: bool)
    ensures
        yes == p.covers(x as int, y as int),
{
    let cells = p.cells();
    let count = cells.len();
    let mut i: usize = 0;
    while i < count
        invariant
            0 <= i <= count,
            offsets_match(cells@, p),
            count == cells.len(),
            forall|j: int| 0 <= j < i ==> #[trigger] p.cell(j) != (x as int, y as int),
        decreases count - i,
    {
        let pt = cells[i];
        assert(offsets_of(cells@)[i as int] == (pt.x as int, pt.y as int));
        let cx: i32 = p.x as i32 + pt.x as i32;
        let cy: i32 = p.y as i32 + pt.y as i32;
        assert((cx as int, cy as int) == p.cell(i as int));
        if cx == x as i32 && cy == y as i32 {
            return true;
        }
        i = i + 1;
    }
    false
}

/// Writes a block of `p`'s color on every cell of `p` that lies on the board, skipping the
/// others, and tells whether some cell lies off the board or above row `hidden`.
pub(crate) fn place_piece(b: &mut Vec<Vec<Option<Block>>>, w: usize, h: usize, hidden: usize, p: Piece) -> (reached: bool)
    requires
        is_grid(grid_of(old(b)@), w as int, h as int),
    ensures
        grid_of(final(b)@) == with_piece(grid_of(old(b)@), p),
        is_grid(grid_of(final(b)@), w as int, h as int),
        reached == (reaches_hidden(p, hidden as int) || !cells_in_bounds(w as int, h as int, p)),
{
    let ghost g = grid_of(b@);
    let cells = p.cells();
    let count = cells.len();
    let block = Block { color: p.color };
    let mut reached = false;
    let mut i: usize = 0;
    while i < count
        invariant
            0 <= i <= count,
            offsets_match(cells@, p),
            count == cells.len(),
            count == spec_cell_count(p.kind),
            block == (Block { color: p.color }),
            is_grid(g, w as int, h as int),
            is_grid(grid_of(b@), w as int, h as int),
            forall|x: int, y: int|
                0 <= x < w && 0 <= y < h ==> #[trigger] grid_of(b@)[x][y] == if exists|j: int|
                    0 <= j < i && #[trigger] p.cell(j) == (x, y) {
                    Some(block)
                } else {
                    g[x][y]
                },
            reached == exists|j: int|
                0 <= j < i && (!in_bounds(w as int, h as int, #[trigger] p.cell(j)) || p.cell(j).1 < hidden),
        decreases count - i,
    {
        let pt = cells[i];
        assert(offsets_of(cells@)[i as int] == (pt.x as int, pt.y as int));
        let x: i32 = p.x as i32 + pt.x as i32;
        let y: i32 = p.y as i32 + pt.y as i32;
        assert((x as int, y as int) == p.cell(i as int));
        if x < 0 || y < 0 || x as usize >= w || y as usize >= h {
            reached = true;
            proof {
                assert(!in_bounds(w as int, h as int, p.cell(i as int)));
                assert forall|xx: int, yy: int| 0 <= xx < w && 0 <= yy < h implies #[trigger] grid_of(b@)[xx][yy]
                    == if exists|j: int| 0 <= j < i + 1 && #[trigger] p.cell(j) == (xx, yy) {
                    Some(block)
                } else {
                    g[xx][yy]
                } by {
                    if exists|j: int| 0 <= j < i + 1 && #[trigger] p.cell(j) == (xx, yy) {
                        let j = choose|j: int| 0 <= j < i + 1 && #[trigger] p.cell(j) == (xx, yy);
                        assert(j != i);
                    }
                }
            }
        } else {
            let ux = x as usize;
            let uy = y as usize;
            let ghost before = grid_of(b@);
            let ghost before_cols = b@;
            assert(before[ux as int] == b@[ux as int]@);
            b[ux][uy] = Some(block);
            proof {
                assert forall|xx: int| 0 <= xx < w implies #[trigger] grid_of(b@)[xx] == if xx == ux {
                    before[xx].update(uy as int, Some(block))
                } else {
                    before[xx]
                } by {
                    if xx != ux {
                        assert(b@[xx] == before_cols[xx]);
                    }
                }
            }
            if uy < hidden {
                reached = true;
            }
            proof {
                assert forall|xx: int, yy: int| 0 <= xx < w && 0 <= yy < h implies #[trigger] grid_of(b@)[xx][yy]
                    == if exists|j: int| 0 <= j < i + 1 && #[trigger] p.cell(j) == (xx, yy) {
                    Some(block)
                } else {
                    g[xx][yy]
                } by {
                    if xx == ux && yy == uy {
                        assert(p.cell(i as int) == (xx, yy));
                    } else {
                        assert(grid_of(b@)[xx][yy] == before[xx][yy]);
                        if exists|j: int| 0 <= j < i + 1 && #[trigger] p.cell(j) == (xx, yy) {
                            let j = choose|j: int| 0 <= j < i + 1 && #[trigger] p.cell(j) == (xx, yy);
                            assert(j != i);
                        }
                    }
                }
            }
        }
        proof {
            if reached {
                if !in_bounds(w as int, h as int, p.cell(i as int)) || p.cell(i as int).1 < hidden {
                    assert(!in_bounds(w as int, h as int, p.cell(i as int)) || p.cell(i as int).1 < hidden);
                }
            } else {
                assert forall|j: int| 0 <= j < i + 1 implies !(!in_bounds(w as int, h as int, #[trigger] p.cell(j))
                    || p.cell(j).1 < hidden) by {
                    if j < i {
                    }
                }
            }
        }
        i = i + 1;
    }
    proof {
        assert forall|x: int| 0 <= x < w implies #[trigger] grid_of(b@)[x] =~= with_piece(g, p)[x] by {
            assert forall|y: int| 0 <= y < h implies grid_of(b@)[x][y] == with_piece(g, p)[x][y] by {
                assert(grid_of(b@)[x][y] == if exists|j: int| 0 <= j < count && #[trigger] p.cell(j) == (x, y) {
                    Some(block)
                } else {
                    g[x][y]
                });
            }
        }
        assert(grid_of(b@) =~= with_piece(g, p));
    }
    reached
}


/// Every cell of row `y` holds a block.
pub open spec fn row_full(g: Grid, w: int, y: int) -> bool {
    forall|x: int| 0 <= x < w ==> #[trigger] g[x][y] is Some
}

/// The row indices `0..n`.
pub open spec fn rows_upto(n: int) -> Seq<int> {
    Seq::new(n as nat, |y: int| y)
}

/// The rows among `0..n` that are full (`full == true`) or not (`full == false`), top to bottom.
pub open spec fn rows_with(g: Grid, w: int, n: int, full: bool) -> Seq<int> {
    rows_upto(n).filter(|y: int| row_full(g, w, y) == full)
}

/// The full rows of the board, top to bottom.
pub open spec fn full_rows(g: Grid, w: int, h: int) -> Seq<int> {
    rows_with(g, w, h, true)
}

/// The rows of the board that are not full, top to bottom.
pub open spec fn kept_rows(g: Grid, w: int, h: int) -> Seq<int> {
    rows_with(g, w, h, false)
}

/// The board with every full row removed: the other rows keep their order and sink to
/// the bottom, and empty rows fill the top.
pub open spec fn cleared(g: Grid, w: int, h: int) -> Grid {
    let kept = kept_rows(g, w, h);
    let d = h - kept.len();
    Seq::new(
        w as nat,
        |x: int| Seq::new(h as nat, |y: int| if y < d { None } else { g[x][kept[y - d]] }),
    )
}

/// The color of a cell, if it holds a block.
pub open spec fn color_of(c: Option<Block>) -> Option<Rgb8> {
    match c {
        Some(b) => Some(b.color),
        None => None,
    }
}

/// The values of a vector of indices, as integers.
pub open spec fn as_ints(v: Seq<usize>) -> Seq<int> {
    Seq::new(v.len(), |i: int| v[i] as int)
}

proof fn lemma_rows_with_step(g: Grid, w: int, n: int, full: bool)
    requires
        n >= 0,
    ensures
        rows_with(g, w, n + 1, full) == if row_full(g, w, n) == full {
            rows_with(g, w, n, full).push(n)
        } else {
            rows_with(g, w, n, full)
        },
{
    reveal(Seq::filter);
    let pred = |y: int| row_full(g, w, y) == full;
    let s = rows_upto(n + 1);
    assert(s.drop_last() =~= rows_upto(n));
    assert(s.last() == n);
    assert(rows_with(g, w, n + 1, full) == s.filter(pred));
    assert(rows_with(g, w, n, full) == s.drop_last().filter(pred));
    assert(s.filter(pred) == if pred(s.last()) {
        s.drop_last().filter(pred).push(s.last())
    } else {
        s.drop_last().filter(pred)
    });
}

/// The rows picked by `rows_with` lie in `0..n` and are full exactly when asked for; the full
/// and the other rows together number `n`.
pub proof fn lemma_rows_with(g: Grid, w: int, n: int)
    requires
        n >= 0,
    ensures
        rows_with(g, w, n, true).len() + rows_with(g, w, n, false).len() == n,
        forall|i: int|
            0 <= i < rows_with(g, w, n, true).len() ==> 0 <= #[trigger] rows_with(g, w, n, true)[i] < n
                && row_full(g, w, rows_with(g, w, n, true)[i]),
        forall|i: int|
            0 <= i < rows_with(g, w, n, false).len() ==> 0 <= #[trigger] rows_with(g, w, n, false)[i]
                < n && !row_full(g, w, rows_with(g, w, n, false)[i]),
    decreases n,
{
    if n == 0 {
        assert(rows_upto(0) =~= Seq::<int>::empty());
    } else {
        lemma_rows_with(g, w, n - 1);
        lemma_rows_with_step(g, w, n - 1, true);
        lemma_rows_with_step(g, w, n - 1, false);
    }
}

/// Whether every cell of row `y` holds a block.
fn row_is_full(b: &Vec<Vec<Option<Block>>>, w: usize, h: usize, y: usize) -> (full: bool)
    requires
        is_grid(grid_of(b@), w as int, h as int),
        y < h,
    ensures
        full == row_full(grid_of(b@), w as int, y as int),
{
    let mut x: usize = 0;
    while x < w
        invariant
            0 <= x <= w,
            y < h,
            is_grid(grid_of(b@), w as int, h as int),
            forall|k: int| 0 <= k < x ==> #[trigger] grid_of(b@)[k][y as int] is Some,
        decreases w - x,
    {
        assert(grid_of(b@)[x as int] == b@[x as int]@);
        if b[x][y].is_none() {
            return false;
        }
        x = x + 1;
    }
    true
}

/// The rows that are full (`full == true`) or not, top to bottom.
pub(crate) fn row_indices(b: &Vec<Vec<Option<Block>>>, w: usize, h: usize, full: bool) -> (rows: Vec<usize>)
    requires
        is_grid(grid_of(b@), w as int, h as int),
    ensures
        as_ints(rows@) == rows_with(grid_of(b@), w as int, h as int, full),
{
    let ghost g = grid_of(b@);
    let mut rows: Vec<usize> = Vec::new();
    let mut y: usize = 0;
    while y < h
        invariant
            0 <= y <= h,
            g == grid_of(b@),
            is_grid(g, w as int, h as int),
            as_ints(rows@) == rows_with(g, w as int, y as int, full),
        decreases h - y,
    {
        proof {
            lemma_rows_with_step(g, w as int, y as int, full);
        }
        if row_is_full(b, w, h, y) == full {
            let ghost prev = rows@;
            rows.push(y);
            assert(as_ints(rows@) =~= as_ints(prev).push(y as int));
        }
        y = y + 1;
    }
    rows
}

/// The colors of row `y`, left to right.
pub(crate) fn row_colors(b: &Vec<Vec<Option<Block>>>, w: usize, h: usize, y: usize) -> (colors: Vec<Option<Rgb8>>)
    requires
        is_grid(grid_of(b@), w as int, h as int),
        y < h,
    ensures
        colors@ == Seq::new(w as nat, |x: int| color_of(grid_of(b@)[x][y as int])),
{
    let mut colors: Vec<Option<Rgb8>> = Vec::new();
    let mut x: usize = 0;
    while x < w
        invariant
            0 <= x <= w,
            y < h,
            is_grid(grid_of(b@), w as int, h as int),
            colors@ == Seq::new(x as nat, |k: int| color_of(grid_of(b@)[k][y as int])),
        decreases w - x,
    {
        assert(grid_of(b@)[x as int] == b@[x as int]@);
        let c = match b[x][y] {
            Some(block) => Some(block.color),
            None => None,
        };
        colors.push(c);
        x = x + 1;
        assert(colors@ =~= Seq::new(x as nat, |k: int| color_of(grid_of(b@)[k][y as int])));
    }
    colors
}

/// Removes every full row, lets the rows above sink, and returns how many rows went.
pub(crate) fn clear_full_rows(b: &mut Vec<Vec<Option<Block>>>, w: usize, h: usize) -> (count: u32)
    requires
        is_grid(grid_of(old(b)@), w as int, h as int),
        h <= u32::MAX,
    ensures
        grid_of(final(b)@) == cleared(grid_of(old(b)@), w as int, h as int),
        is_grid(grid_of(final(b)@), w as int, h as int),
        count == full_rows(grid_of(old(b)@), w as int, h as int).len(),
{
    let ghost g = grid_of(b@);
    let kept = row_indices(b, w, h, false);
    proof {
        lemma_rows_with(g, w as int, h as int);
    }
    let ghost ks = kept_rows(g, w as int, h as int);
    let d: usize = h - kept.len();
    let mut out: Vec<Vec<Option<Block>>> = Vec::new();
    let mut x: usize = 0;
    while x < w
        invariant
            0 <= x <= w,
            g == grid_of(b@),
            is_grid(g, w as int, h as int),
            ks == kept_rows(g, w as int, h as int),
            as_ints(kept@) == ks,
            d == h - ks.len(),
            forall|i: int| 0 <= i < ks.len() ==> 0 <= #[trigger] ks[i] < h,
            out.len() == x,
            forall|i: int| 0 <= i < x ==> #[trigger] out@[i]@ == cleared(g, w as int, h as int)[i],
        decreases w - x,
    {
        let mut col: Vec<Option<Block>> = Vec::new();
        let mut y: usize = 0;
        assert(g[x as int] == b@[x as int]@);
        while y < h
            invariant
                0 <= y <= h,
                0 <= x < w,
                g == grid_of(b@),
                is_grid(g, w as int, h as int),
                ks == kept_rows(g, w as int, h as int),
                as_ints(kept@) == ks,
                d == h - ks.len(),
                forall|i: int| 0 <= i < ks.len() ==> 0 <= #[trigger] ks[i] < h,
                g[x as int] == b@[x as int]@,
                col@ == cleared(g, w as int, h as int)[x as int].take(y as int),
            decreases h - y,
        {
            let c = if y < d {
                None
            } else {
                let src = kept[y - d];
                assert(src as int == ks[y - d]);
                b[x][src]
            };
            col.push(c);
            y = y + 1;
            assert(col@ =~= cleared(g, w as int, h as int)[x as int].take(y as int));
        }
        assert(col@ =~= cleared(g, w as int, h as int)[x as int]);
        out.push(col);
        x = x + 1;
    }
    *b = out;
    assert(grid_of(b@) =~= cleared(g, w as int, h as int));
    d as u32
}

/// After clearing, no row of a board at least one column wide is full.
pub proof fn lemma_cleared_has_no_full_row(g: Grid, w: int, h: int)
    requires
        is_grid(g, w, h),
        w > 0,
        h >= 0,
    ensures
        is_grid(cleared(g, w, h), w, h),
        forall|y: int| 0 <= y < h ==> !row_full(cleared(g, w, h), w, y),
        full_rows(cleared(g, w, h), w, h).len() == 0,
{
    lemma_rows_with(g, w, h);
    let c = cleared(g, w, h);
    let kept = kept_rows(g, w, h);
    let d = h - kept.len();
    assert forall|y: int| 0 <= y < h implies !row_full(c, w, y) by {
        if y < d {
            assert(c[0][y] is None);
        } else {
            let r = kept[y - d];
            assert(!row_full(g, w, r));
            let x = choose|x: int| 0 <= x < w && !(#[trigger] g[x][r] is Some);
            assert(c[x][y] == g[x][r]);
        }
    }
    lemma_rows_with(c, w, h);
    if full_rows(c, w, h).len() > 0 {
        let r = full_rows(c, w, h)[0];
        assert(row_full(c, w, r));
    }
}

proof fn lemma_rows_with_prefix(g: Grid, w: int, n: int, m: int, full: bool)
    requires
        0 <= n <= m,
    ensures
        rows_with(g, w, n, full).len() <= rows_with(g, w, m, full).len(),
        rows_with(g, w, m, full).take(rows_with(g, w, n, full).len() as int) == rows_with(g, w, n, full),
    decreases m - n,
{
    if m == n {
        assert(rows_with(g, w, m, full).take(rows_with(g, w, n, full).len() as int) =~= rows_with(g, w, n, full));
    } else {
        lemma_rows_with_prefix(g, w, n, m - 1, full);
        lemma_rows_with_step(g, w, m - 1, full);
        let k = rows_with(g, w, n, full).len() as int;
        assert(rows_with(g, w, m, full).take(k) =~= rows_with(g, w, m - 1, full).take(k));
    }
}

/// Number of full rows strictly below row `r`.
pub open spec fn full_rows_below(g: Grid, w: int, h: int, r: int) -> int {
    full_rows(g, w, h).len() - rows_with(g, w, r + 1, true).len()
}

/// Clearing drops rows: with `k` full rows, the top `k` rows of the result are empty, and
/// every row that is not full keeps its cells and moves down by the number of full rows
/// below it.
pub proof fn lemma_cleared_moves_rows_down(g: Grid, w: int, h: int)
    requires
        is_grid(g, w, h),
        h >= 0,
    ensures
        forall|x: int, y: int|
            0 <= x < w && 0 <= y < full_rows(g, w, h).len() ==> #[trigger] cleared(g, w, h)[x][y] is None,
        forall|r: int|
            0 <= r < h && !row_full(g, w, r) ==> 0 <= #[trigger] full_rows_below(g, w, h, r) && r
                + full_rows_below(g, w, h, r) < h,
        forall|x: int, r: int|
            0 <= x < w && 0 <= r < h && !row_full(g, w, r) ==> #[trigger] cleared(g, w, h)[x][r
                + full_rows_below(g, w, h, r)] == g[x][r],
{
    lemma_rows_with(g, w, h);
    let kept = kept_rows(g, w, h);
    let d = h - kept.len();
    assert forall|r: int| 0 <= r < h && !row_full(g, w, r) implies 0 <= #[trigger] full_rows_below(g, w, h, r)
        && r + full_rows_below(g, w, h, r) < h by {
        lemma_kept_index(g, w, h, r);
    }
    assert forall|x: int, r: int|
        0 <= x < w && 0 <= r < h && !row_full(g, w, r) implies #[trigger] cleared(g, w, h)[x][r
        + full_rows_below(g, w, h, r)] == g[x][r] by {
        lemma_kept_index(g, w, h, r);
    }
}

proof fn lemma_kept_index(g: Grid, w: int, h: int, r: int)
    requires
        is_grid(g, w, h),
        0 <= r < h,
        !row_full(g, w, r),
    ensures
        ({
            let kept = kept_rows(g, w, h);
            let j = rows_with(g, w, r, false).len() as int;
            &&& 0 <= j < kept.len()
            &&& kept[j] == r
            &&& (h - kept.len()) + j == r + full_rows_below(g, w, h, r)
            &&& 0 <= full_rows_below(g, w, h, r)
            &&& r + full_rows_below(g, w, h, r) < h
        }),
{
    let kept = kept_rows(g, w, h);
    let j = rows_with(g, w, r, false).len() as int;
    lemma_rows_with(g, w, h);
    lemma_rows_with(g, w, r);
    lemma_rows_with(g, w, r + 1);
    lemma_rows_with_step(g, w, r, false);
    lemma_rows_with_step(g, w, r, true);
    lemma_rows_with_prefix(g, w, r + 1, h, false);
    lemma_rows_with_prefix(g, w, r + 1, h, true);
    let pre = rows_with(g, w, r + 1, false);
    assert(pre[j] == r);
    assert(kept.take(pre.len() as int)[j] == pre[j]);
}

/// Clearing keeps the number of rows and columns, and removes as many rows as were full.
pub proof fn lemma_cleared_shape(g: Grid, w: int, h: int)
    requires
        is_grid(g, w, h),
        h >= 0,
    ensures
        is_grid(cleared(g, w, h), w, h),
        kept_rows(g, w, h).len() + full_rows(g, w, h).len() == h,
{
    lemma_rows_with(g, w, h);
}


/// The first row at or below `y` whose cell in column `x` holds a block, or `h` if none.
pub open spec fn first_filled(g: Grid, x: int, y: int, h: int) -> int
    decreases h - y,
{
    if y >= h {
        h
    } else if g[x][y] is Some {
        y
    } else {
        first_filled(g, x, y + 1, h)
    }
}

/// Height of column `x`: the rows from its top block down to the floor, or 0 when empty.
pub open spec fn column_height(g: Grid, x: int, h: int) -> int {
    h - first_filled(g, x, 0, h)
}

/// Empty cells among the first `n` rows of column `x` that lie below the column's top block.
pub open spec fn column_holes(g: Grid, x: int, n: int, h: int) -> int
    decreases n,
{
    if n <= 0 {
        0
    } else {
        column_holes(g, x, n - 1, h) + if n - 1 > first_filled(g, x, 0, h) && g[x][n - 1] is None {
            1int
        } else {
            0int
        }
    }
}

/// Holes in the first `n` columns.
pub open spec fn total_holes(g: Grid, n: int, h: int) -> int
    decreases n,
{
    if n <= 0 {
        0
    } else {
        total_holes(g, n - 1, h) + column_holes(g, n - 1, h, h)
    }
}

/// Sum of the heights of the first `n` columns.
pub open spec fn total_height(g: Grid, n: int, h: int) -> int
    decreases n,
{
    if n <= 0 {
        0
    } else {
        total_height(g, n - 1, h) + column_height(g, n - 1, h)
    }
}

/// Sum of the height differences between column `x` and column `x + 1`, for `x < n`.
pub open spec fn bumpiness(g: Grid, n: int, h: int) -> int
    decreases n,
{
    if n <= 0 {
        0
    } else {
        let d = column_height(g, n - 1, h) - column_height(g, n, h);
        bumpiness(g, n - 1, h) + if d < 0 {
            -d
        } else {
            d
        }
    }
}

/// How good a board is for the move suggester: 1000 per full row, minus 50 per hole,
/// 6 per unit of bumpiness and 2 per unit of total column height.
pub open spec fn board_score(g: Grid, w: int, h: int) -> int {
    full_rows(g, w, h).len() * 1000 - total_holes(g, w, h) * 50 - bumpiness(
        g,
        if w > 0 {
            w - 1
        } else {
            0
        },
        h,
    ) * 6 - total_height(g, w, h) * 2
}

/// Board sizes for which every score fits in an `i32`.
pub open spec fn score_fits(w: int, h: int) -> bool {
    0 <= w && 0 <= h && 58 * w * h + 1000 * h <= i32::MAX
}

proof fn lemma_first_filled(g: Grid, x: int, y: int, h: int)
    requires
        0 <= y <= h,
    ensures
        y <= first_filled(g, x, y, h) <= h,
        forall|k: int| y <= k < first_filled(g, x, y, h) ==> !(#[trigger] g[x][k] is Some),
        first_filled(g, x, y, h) < h ==> g[x][first_filled(g, x, y, h)] is Some,
    decreases h - y,
{
    if y < h && !(g[x][y] is Some) {
        lemma_first_filled(g, x, y + 1, h);
    }
}

proof fn lemma_column_holes_bound(g: Grid, x: int, n: int, h: int)
    requires
        n >= 0,
    ensures
        0 <= column_holes(g, x, n, h) <= n,
    decreases n,
{
    if n > 0 {
        lemma_column_holes_bound(g, x, n - 1, h);
    }
}

proof fn lemma_sums_bound(g: Grid, n: int, h: int)
    requires
        0 <= n,
        0 <= h,
    ensures
        0 <= total_holes(g, n, h) <= n * h,
        0 <= total_height(g, n, h) <= n * h,
        0 <= bumpiness(g, n, h) <= n * h,
    decreases n,
{
    if n > 0 {
        lemma_sums_bound(g, n - 1, h);
        lemma_column_holes_bound(g, n - 1, h, h);
        lemma_first_filled(g, n - 1, 0, h);
        lemma_first_filled(g, n, 0, h);
        assert((n - 1) * h + h == n * h) by (nonlinear_arith);
    }
}

proof fn lemma_mul_mono(a: int, b: int, h: int)
    requires
        0 <= a <= b,
        0 <= h,
    ensures
        a * h <= b * h,
{
    assert(a * h <= b * h) by (nonlinear_arith)
        requires
            0 <= a <= b,
            0 <= h,
    ;
}

proof fn lemma_score_fits(w: int, h: int)
    requires
        score_fits(w, h),
    ensures
        0 <= w * h,
        58 * (w * h) + 1000 * h <= i32::MAX,
{
    assert(0 <= w * h && 58 * w * h == 58 * (w * h)) by (nonlinear_arith)
        requires
            0 <= w,
            0 <= h,
    ;
}

proof fn lemma_sums_agree(g1: Grid, g2: Grid, n: int, h: int)
    requires
        0 <= n,
        forall|x: int|
            0 <= x <= n ==> #[trigger] column_height(g1, x, h) == column_height(g2, x, h)
                && column_holes(g1, x, h, h) == column_holes(g2, x, h, h),
    ensures
        total_holes(g1, n, h) == total_holes(g2, n, h),
        total_height(g1, n, h) == total_height(g2, n, h),
        bumpiness(g1, n, h) == bumpiness(g2, n, h),
    decreases n,
{
    if n > 0 {
        lemma_sums_agree(g1, g2, n - 1, h);
        assert(column_height(g1, n - 1, h) == column_height(g2, n - 1, h));
        assert(column_height(g1, n, h) == column_height(g2, n, h));
    }
}

/// Full rows are worth 1000 points each, whatever else the board holds: two boards with
/// the same column heights and the same holes in every column differ in score by exactly
/// 1000 times the difference in their numbers of full rows.
pub proof fn lemma_full_rows_score(g1: Grid, g2: Grid, w: int, h: int)
    requires
        is_grid(g1, w, h),
        is_grid(g2, w, h),
        forall|x: int|
            0 <= x < w ==> #[trigger] column_height(g1, x, h) == column_height(g2, x, h)
                && column_holes(g1, x, h, h) == column_holes(g2, x, h, h),
    ensures
        board_score(g1, w, h) - board_score(g2, w, h) == 1000 * (full_rows(g1, w, h).len() - full_rows(
            g2,
            w,
            h,
        ).len()),
{
    if w > 0 {
        lemma_sums_agree(g1, g2, w - 1, h);
        assert(column_height(g1, w - 1, h) == column_height(g2, w - 1, h));
        assert(column_holes(g1, w - 1, h, h) == column_holes(g2, w - 1, h, h));
    }
}

/// The height of a column is measured from its topmost block down to the floor: it is 0
/// exactly when the column holds no block, and otherwise row `h - height` holds a block and
/// every row above it is empty. A hole is an empty cell with a block somewhere above it in
/// the same column, so a column has no more holes than rows below its top block.
pub proof fn lemma_column_height_and_holes(g: Grid, x: int, h: int)
    requires
        0 <= h,
    ensures
        0 <= column_height(g, x, h) <= h,
        column_height(g, x, h) == 0 <==> forall|y: int| 0 <= y < h ==> !(#[trigger] g[x][y] is Some),
        column_height(g, x, h) > 0 ==> g[x][h - column_height(g, x, h)] is Some,
        forall|y: int| 0 <= y < h - column_height(g, x, h) ==> !(#[trigger] g[x][y] is Some),
        0 <= column_holes(g, x, h, h) <= (if column_height(g, x, h) > 0 {
            column_height(g, x, h) - 1
        } else {
            0
        }),
{
    lemma_first_filled(g, x, 0, h);
    lemma_column_holes_below(g, x, h, h);
}

proof fn lemma_column_holes_below(g: Grid, x: int, n: int, h: int)
    requires
        0 <= n <= h,
    ensures
        0 <= column_holes(g, x, n, h),
        first_filled(g, x, 0, h) < h ==> column_holes(g, x, n, h) <= if n > first_filled(g, x, 0, h) {
            n - 1 - first_filled(g, x, 0, h)
        } else {
            0
        },
        first_filled(g, x, 0, h) >= h ==> column_holes(g, x, n, h) == 0,
    decreases n,
{
    lemma_first_filled(g, x, 0, h);
    if n > 0 {
        lemma_column_holes_below(g, x, n - 1, h);
    }
}

/// Bumpiness adds up the height steps between neighbouring columns: it never goes below
/// zero, it is at least the step between any two neighbours, and it is zero exactly when
/// the first `n + 1` columns all have the same height.
pub proof fn lemma_bumpiness_flat(g: Grid, n: int, h: int)
    requires
        0 <= n,
    ensures
        0 <= bumpiness(g, n, h),
        forall|x: int|
            0 <= x < n ==> #[trigger] column_height(g, x, h) - column_height(g, x + 1, h) <= bumpiness(
                g,
                n,
                h,
            ) && column_height(g, x + 1, h) - column_height(g, x, h) <= bumpiness(g, n, h),
        bumpiness(g, n, h) == 0 <==> forall|x: int|
            0 <= x <= n ==> #[trigger] column_height(g, x, h) == column_height(g, 0, h),
    decreases n,
{
    if n > 0 {
        lemma_bumpiness_flat(g, n - 1, h);
        if bumpiness(g, n, h) == 0 {
            assert forall|x: int| 0 <= x <= n implies #[trigger] column_height(g, x, h) == column_height(g, 0, h) by {
                if x < n {
                    assert(column_height(g, x, h) == column_height(g, 0, h));
                }
            }
        }
        if forall|x: int| 0 <= x <= n ==> #[trigger] column_height(g, x, h) == column_height(g, 0, h) {
            assert(column_height(g, n - 1, h) == column_height(g, 0, h));
            assert(column_height(g, n, h) == column_height(g, 0, h));
        }
    }
}

/// The score of a board, as [`board_score`] defines it.
pub(crate) fn score_board(b: &Vec<Vec<Option<Block>>>, w: usize, h: usize) -> (score: i32)
    requires
        is_grid(grid_of(b@), w as int, h as int),
        score_fits(w as int, h as int),
    ensures
        score == board_score(grid_of(b@), w as int, h as int),
{
    let ghost g = grid_of(b@);
    proof {
        lemma_score_fits(w as int, h as int);
    }
    let mut lines: i32 = 0;
    let mut y: usize = 0;
    while y < h
        invariant
            0 <= y <= h,
            g == grid_of(b@),
            is_grid(g, w as int, h as int),
            score_fits(w as int, h as int),
            0 <= w * h,
            58 * (w * h) + 1000 * h <= i32::MAX,
            lines == rows_with(g, w as int, y as int, true).len(),
            0 <= lines <= y,
        decreases h - y,
    {
        proof {
            lemma_rows_with_step(g, w as int, y as int, true);
        }
        if row_is_full(b, w, h, y) {
            lines = lines + 1;
        }
        y = y + 1;
    }
    let mut heights: Vec<i32> = Vec::new();
    let mut holes: i32 = 0;
    let mut x: usize = 0;
    while x < w
        invariant
            0 <= x <= w,
            g == grid_of(b@),
            is_grid(g, w as int, h as int),
            score_fits(w as int, h as int),
            0 <= w * h,
            58 * (w * h) + 1000 * h <= i32::MAX,
            heights.len() == x,
            forall|k: int| 0 <= k < x ==> #[trigger] heights@[k] == column_height(g, k, h as int),
            holes == total_holes(g, x as int, h as int),
            0 <= holes <= x * h,
        decreases w - x,
    {
        proof {
            lemma_first_filled(g, x as int, 0, h as int);
        }
        let ghost first = first_filled(g, x as int, 0, h as int);
        let mut seen = false;
        let mut height: i32 = 0;
        let mut col_holes: i32 = 0;
        let mut yy: usize = 0;
        assert(g[x as int] == b@[x as int]@);
        while yy < h
            invariant
                0 <= yy <= h,
                0 <= x < w,
                g == grid_of(b@),
                is_grid(g, w as int, h as int),
                score_fits(w as int, h as int),
                0 <= w * h,
                58 * (w * h) + 1000 * h <= i32::MAX,
                g[x as int] == b@[x as int]@,
                first == first_filled(g, x as int, 0, h as int),
                0 <= first <= h,
                forall|k: int| 0 <= k < first ==> !(#[trigger] g[x as int][k] is Some),
                first < h ==> g[x as int][first] is Some,
                seen == (first < yy),
                seen ==> height == h - first,
                !seen ==> height == 0,
                col_holes == column_holes(g, x as int, yy as int, h as int),
                0 <= col_holes <= yy,
            decreases h - yy,
        {
            if b[x][yy].is_some() {
                if !seen {
                    height = (h - yy) as i32;
                    seen = true;
                }
            } else if seen {
                col_holes = col_holes + 1;
            }
            yy = yy + 1;
        }
        proof {
            lemma_first_filled(g, x as int, 0, h as int);
            assert((x + 1) * h == x * h + h) by (nonlinear_arith);
            lemma_mul_mono(x as int + 1, w as int, h as int);
        }
        heights.push(height);
        holes = holes + col_holes;
        x = x + 1;
    }
    proof {
        lemma_sums_bound(g, w as int, h as int);
    }
    let mut bump: i32 = 0;
    let last: usize = if w > 0 {
        w - 1
    } else {
        0
    };
    let mut i: usize = 0;
    while i < last
        invariant
            0 <= i <= last,
            last < w || last == 0,
            g == grid_of(b@),
            is_grid(g, w as int, h as int),
            score_fits(w as int, h as int),
            0 <= w * h,
            58 * (w * h) + 1000 * h <= i32::MAX,
            heights.len() == w,
            forall|k: int| 0 <= k < w ==> #[trigger] heights@[k] == column_height(g, k, h as int),
            bump == bumpiness(g, i as int, h as int),
        decreases last - i,
    {
        proof {
            lemma_sums_bound(g, i as int + 1, h as int);
            lemma_first_filled(g, i as int, 0, h as int);
            lemma_first_filled(g, i as int + 1, 0, h as int);
            lemma_mul_mono(i as int + 1, w as int, h as int);
        }
        let d: i32 = heights[i] - heights[i + 1];
        let a: i32 = if d < 0 {
            -d
        } else {
            d
        };
        bump = bump + a;
        i = i + 1;
    }
    let mut total: i32 = 0;
    let mut j: usize = 0;
    while j < w
        invariant
            0 <= j <= w,
            g == grid_of(b@),
            is_grid(g, w as int, h as int),
            score_fits(w as int, h as int),
            0 <= w * h,
            58 * (w * h) + 1000 * h <= i32::MAX,
            heights.len() == w,
            forall|k: int| 0 <= k < w ==> #[trigger] heights@[k] == column_height(g, k, h as int),
            total == total_height(g, j as int, h as int),
        decreases w - j,
    {
        proof {
            lemma_sums_bound(g, j as int + 1, h as int);
            lemma_mul_mono(j as int + 1, w as int, h as int);
        }
        total = total + heights[j];
        j = j + 1;
    }
    proof {
        lemma_rows_with(g, w as int, h as int);
        lemma_mul_mono(last as int, w as int, h as int);
        lemma_sums_bound(g, last as int, h as int);
        assert(rows_upto(h as int) == rows_upto(y as int));
    }
    lines * 1000 - holes * 50 - bump * 6 - total * 2
}


/// Whether every cell of `p` lies on a `w` by `h` board.
pub(crate) fn cells_on_board(p: Piece, w: usize, h: usize) -> (ok: bool)
    ensures
        ok == cells_in_bounds(w as int, h as int, p),
{
    let cells = p.cells();
    let count = cells.len();
    let mut i: usize = 0;
    while i < count
        invariant
            0 <= i <= count,
            offsets_match(cells@, p),
            count == cells.len(),
            forall|j: int| 0 <= j < i ==> in_bounds(w as int, h as int, #[trigger] p.cell(j)),
        decreases count - i,
    {
        let pt = cells[i];
        assert(offsets_of(cells@)[i as int] == (pt.x as int, pt.y as int));
        let x: i32 = p.x as i32 + pt.x as i32;
        let y: i32 = p.y as i32 + pt.y as i32;
        assert((x as int, y as int) == p.cell(i as int));
        if x < 0 || y < 0 {
            return false;
        }
        if x as usize >= w || y as usize >= h {
            return false;
        }
        i = i + 1;
    }
    true
}

/// A copy of the board.
fn copy_board(b: &Vec<Vec<Option<Block>>>, w: usize, h: usize) -> (c: Vec<Vec<Option<Block>>>)
    requires
        is_grid(grid_of(b@), w as int, h as int),
    ensures
        grid_of(c@) == grid_of(b@),
{
    let mut c: Vec<Vec<Option<Block>>> = Vec::new();
    let mut x: usize = 0;
    while x < w
        invariant
            0 <= x <= w,
            is_grid(grid_of(b@), w as int, h as int),
            c.len() == x,
            forall|i: int| 0 <= i < x ==> #[trigger] c@[i]@ == b@[i]@,
        decreases w - x,
    {
        assert(grid_of(b@)[x as int] == b@[x as int]@);
        let mut col: Vec<Option<Block>> = Vec::new();
        let mut y: usize = 0;
        while y < h
            invariant
                0 <= y <= h,
                0 <= x < w,
                b@.len() == w,
                b@[x as int]@.len() == h,
                col@ == b@[x as int]@.take(y as int),
            decreases h - y,
        {
            col.push(b[x][y]);
            y = y + 1;
            assert(col@ =~= b@[x as int]@.take(y as int));
        }
        assert(col@ =~= b@[x as int]@);
        c.push(col);
        x = x + 1;
    }
    assert(grid_of(c@) =~= grid_of(b@));
    c
}

/// The score the board would have with `p` written onto it, or `i32::MIN / 4` when some
/// cell of `p` lies off the board.
pub(crate) fn heuristic_if_locked(b: &Vec<Vec<Option<Block>>>, w: usize, h: usize, p: Piece) -> (score: i32)
    requires
        is_grid(grid_of(b@), w as int, h as int),
        score_fits(w as int, h as int),
    ensures
        score == if cells_in_bounds(w as int, h as int, p) {
            board_score(with_piece(grid_of(b@), p), w as int, h as int)
        } else {
            i32::MIN / 4
        },
{
    if !cells_on_board(p, w, h) {
        return i32::MIN / 4;
    }
    let mut trial = copy_board(b, w, h);
    place_piece(&mut trial, w, h, 0, p);
    score_board(&trial, w, h)
}


/// A piece that fits lies with its box overlapping the board: `-3 <= x < w`, `-3 <= y < h`.
pub proof fn lemma_fits_position(g: Grid, w: int, h: int, p: Piece)
    requires
        fits(g, w, h, p),
    ensures
        -3 <= p.x < w,
        -3 <= p.y < h,
        cells_in_bounds(w, h, p),
{
    lemma_offsets_in_box(p.kind, p.rotation);
    assert(in_bounds(w, h, p.cell(0)));
}

/// Landing keeps a fitting piece fitting, changes only its row, and stops where the next
/// row down no longer fits.
pub proof fn lemma_landed(g: Grid, w: int, h: int, p: Piece)
    requires
        fits(g, w, h, p),
    ensures
        fits(g, w, h, landed(g, w, h, p)),
        landed(g, w, h, p) == (Piece { y: landed(g, w, h, p).y, ..p }),
        p.y <= landed(g, w, h, p).y,
        !(landed(g, w, h, p).y < i16::MAX && fits(g, w, h, moved_down(landed(g, w, h, p)))),
    decreases i16::MAX - p.y,
{
    if p.y < i16::MAX && fits(g, w, h, moved_down(p)) {
        lemma_landed(g, w, h, moved_down(p));
    }
}

/// Landing changes only a piece's row.
pub proof fn lemma_landed_moves_down(g: Grid, w: int, h: int, p: Piece)
    ensures
        landed(g, w, h, p) == (Piece { y: landed(g, w, h, p).y, ..p }),
        p.y <= landed(g, w, h, p).y,
    decreases i16::MAX - p.y,
{
    if p.y < i16::MAX && fits(g, w, h, moved_down(p)) {
        lemma_landed_moves_down(g, w, h, moved_down(p));
    }
}

/// Writing a piece onto a grid keeps its shape.
pub proof fn lemma_with_piece_shape(g: Grid, w: int, h: int, p: Piece)
    requires
        is_grid(g, w, h),
    ensures
        is_grid(with_piece(g, p), w, h),
{
}

/// Scores of boards whose size passes `score_fits` lie well inside the `i32` range.
pub proof fn lemma_board_score_range(g: Grid, w: int, h: int)
    requires
        is_grid(g, w, h),
        score_fits(w, h),
    ensures
        i32::MIN < board_score(g, w, h) <= i32::MAX,
{
    lemma_score_fits(w, h);
    lemma_rows_with(g, w, h);
    lemma_sums_bound(g, w, h);
    let last = if w > 0 {
        w - 1
    } else {
        0
    };
    lemma_sums_bound(g, last, h);
    lemma_mul_mono(last, w, h);
}


/// The positions of the first `n` cells of `p`, in cell order.
pub open spec fn cells_upto(p: Piece, n: int) -> Seq<(int, int)> {
    Seq::new(n as nat, |i: int| p.cell(i))
}

/// The positions of the first `n` cells of `p` that lie on a `w` by `h` board, in cell order.
pub open spec fn board_cells_upto(p: Piece, w: int, h: int, n: int) -> Seq<(int, int)> {
    cells_upto(p, n).filter(|c: (int, int)| in_bounds(w, h, c))
}

/// The positions of the cells of `p` that lie on a `w` by `h` board, in cell order.
pub open spec fn board_cells(p: Piece, w: int, h: int) -> Seq<(int, int)> {
    board_cells_upto(p, w, h, spec_cell_count(p.kind))
}

/// A vector of index pairs as pairs of integers.
pub open spec fn pairs_of(v: Seq<(usize, usize)>) -> Seq<(int, int)> {
    Seq::new(v.len(), |i: int| (v[i].0 as int, v[i].1 as int))
}

proof fn lemma_board_cells_step(p: Piece, w: int, h: int, n: int)
    requires
        n >= 0,
    ensures
        board_cells_upto(p, w, h, n + 1) == if in_bounds(w, h, p.cell(n)) {
            board_cells_upto(p, w, h, n).push(p.cell(n))
        } else {
            board_cells_upto(p, w, h, n)
        },
{
    reveal(Seq::filter);
    let pred = |c: (int, int)| in_bounds(w, h, c);
    let s = cells_upto(p, n + 1);
    assert(s.drop_last() =~= cells_upto(p, n));
    assert(s.last() == p.cell(n));
    assert(board_cells_upto(p, w, h, n + 1) == s.filter(pred));
    assert(board_cells_upto(p, w, h, n) == s.drop_last().filter(pred));
}

/// When every cell lies on the board, the on-board cells are all the cells.
pub proof fn lemma_board_cells_all(p: Piece, w: int, h: int, n: int)
    requires
        0 <= n <= spec_cell_count(p.kind),
        cells_in_bounds(w, h, p),
    ensures
        board_cells_upto(p, w, h, n) == cells_upto(p, n),
    decreases n,
{
    if n == 0 {
        reveal(Seq::filter);
        assert(cells_upto(p, 0) =~= Seq::<(int, int)>::empty());
    } else {
        lemma_board_cells_all(p, w, h, n - 1);
        lemma_board_cells_step(p, w, h, n - 1);
        assert(cells_upto(p, n) =~= cells_upto(p, n - 1).push(p.cell(n - 1)));
    }
}

/// The board positions of the cells of `p` that lie on the board, in cell order.
pub(crate) fn piece_cells(p: Piece, w: usize, h: usize) -> (cells: Vec<(usize, usize)>)
    ensures
        pairs_of(cells@) == board_cells(p, w as int, h as int),
{
    let offsets = p.cells();
    let mut cells: Vec<(usize, usize)> = Vec::new();
    let mut i: usize = 0;
    while i < offsets.len()
        invariant
            0 <= i <= offsets.len(),
            offsets_match(offsets@, p),
            pairs_of(cells@) == board_cells_upto(p, w as int, h as int, i as int),
        decreases offsets.len() - i,
    {
        let pt = offsets[i];
        assert(offsets_of(offsets@)[i as int] == (pt.x as int, pt.y as int));
        proof {
            lemma_board_cells_step(p, w as int, h as int, i as int);
        }
        let x: i32 = p.x as i32 + pt.x as i32;
        let y: i32 = p.y as i32 + pt.y as i32;
        assert((x as int, y as int) == p.cell(i as int));
        if x >= 0 && y >= 0 && (x as usize) < w && (y as usize) < h {
            let ghost prev = cells@;
            cells.push((x as usize, y as usize));
            assert(pairs_of(cells@) =~= pairs_of(prev).push(p.cell(i as int)));
        }
        i = i + 1;
    }
    cells
}

} // verus!

//! The Tetris-like game: board, active piece, gravity, locking and level progression.

use vstd::prelude::*;

use crate::board::{
    can_place, cells_in_bounds, clear_full_rows, cleared, empty_grid, fits, full_rows, grid_of,
    is_grid, landed, lemma_fits_position, lemma_landed, lemma_with_piece_shape,
    moved_down, new_board, place_piece, reaches_hidden, row_colors, row_indices, with_piece, Grid,
};
use crate::color::{Block, Rgb8};
use crate::events::{RandomSource, TetrisEvents};
use crate::features::Feature;
use crate::level::LevelState;
use crate::piece::{rotated_index, Piece, PieceKind, Rotation};
use crate::spawn::{color_for_roll, color_from_roll, kind_for_roll, kind_from_roll};

verus! {

/// Result of a gravity or drop tick.
#[derive(Clone, Copy, Debug, PartialEq, Eq, Structural)]
pub enum TickResult {
    /// The current piece moved down.
    Moved,
    /// The current piece locked and a new piece was spawned.
    Locked,
    /// The board can no longer accept a new piece.
    GameOver,
}

/// Which layer a visible cell belongs to.
#[derive(Clone, Copy, Debug, PartialEq, Eq, Structural)]
pub enum Layer {
    Placed,
    Current,
    /// Where the current piece would land if dropped now.
    GhostPiece,
}

/// What a renderer shows at one cell.
#[derive(Clone, Copy, Debug, PartialEq, Eq, Structural)]
pub struct CellView {
    pub color: Rgb8,
    pub layer: Layer,
}

/// A placement proposed by the move suggester.
#[derive(Clone, Copy, Debug, PartialEq, Eq, Structural)]
pub struct MoveSuggestion {
    pub target_x: i16,
    pub target_rotation: u8,
    pub score: i32,
}

/// What locking a piece reports to the event hooks.
pub struct LockReport {
    /// Whether a block landed in the hidden rows.
    pub top_out: bool,
    /// The board cells written, in the piece's cell order.
    pub blocks: Vec<(usize, usize)>,
    /// The full rows removed, top to bottom.
    pub rows: Vec<usize>,
    /// The colors of each removed row, left to right.
    pub colors: Vec<Vec<Option<Rgb8>>>,
    /// The music tracks requested, in order.
    pub music: Vec<u8>,
}

/// The abstract state of a game.
pub struct GameView {
    /// The placed blocks, `grid[x][y]`.
    pub grid: Grid,
    /// The active piece.
    pub current: Piece,
    /// Whether something changed since the last `consume_changed`.
    pub changed: bool,
    /// Whether the game has ended.
    pub game_over: bool,
    /// Level, score and features.
    pub level: LevelState,
}

/// A game on a board `W` columns wide and `H` rows high, whose top `HIDDEN` rows are
/// hidden from view.
#[derive(Clone)]
pub struct Game<const W: usize, const H: usize, const HIDDEN: usize> {
    board: Vec<Vec<Option<Block>>>,
    current: Piece,
    changed: bool,
    game_over: bool,
    pub level: LevelState,
}

impl<const W: usize, const H: usize, const HIDDEN: usize> View for Game<W, H, HIDDEN> {
    type V = GameView;

    closed spec fn view(&self) -> GameView {
        GameView {
            grid: grid_of(self.board@),
            current: self.current,
            changed: self.changed,
            game_over: self.game_over,
            level: self.level,
        }
    }
}

impl<const W: usize, const H: usize, const HIDDEN: usize> Game<W, H, HIDDEN> {
    /// Board sizes the engine handles: fewer hidden rows than rows, and coordinates that
    /// fit an `i16`.
    pub open spec fn dims_ok() -> bool {
        &&& HIDDEN < H
        &&& W + 4 <= i16::MAX
        &&& H + 4 <= i16::MAX
    }

    /// Whether `p` fits on the board of `v`.
    pub open spec fn fits_in(v: GameView, p: Piece) -> bool {
        fits(v.grid, W as int, H as int, p)
    }

    /// What every reachable state satisfies: a `W` by `H` board, the active piece near it
    /// with a rotation index in `0..4`, and, while the game runs, the active piece fitting.
    pub open spec fn state_ok(v: GameView) -> bool {
        &&& is_grid(v.grid, W as int, H as int)
        &&& -4 <= v.current.x <= W
        &&& -4 <= v.current.y <= H
        &&& v.current.rotation < 4
        &&& !v.game_over ==> Self::fits_in(v, v.current)
    }

    /// The game is well formed.
    pub open spec fn wf(&self) -> bool {
        Self::dims_ok() && Self::state_ok(self@)
    }

    /// The piece spawned from a kind roll and a shade roll: at column `W / 2 - 1`, row
    /// `HIDDEN - 4`, unrotated.
    pub open spec fn spawned(allow_evil: bool, kind_roll: u32, shade_roll: u32) -> Piece {
        let kind = kind_for_roll(allow_evil, kind_roll);
        Piece {
            kind,
            x: (W / 2 - 1) as i16,
            y: (HIDDEN - 4) as i16,
            rotation: 0,
            color: color_for_roll(kind, shade_roll),
        }
    }

    /// `before` with the piece spawned from a kind roll and a shade roll as the active
    /// piece; evil blocks are allowed once that feature is unlocked, and the game ends when
    /// the new piece does not fit.
    pub open spec fn spawned_after(before: GameView, kind_roll: u32, shade_roll: u32) -> GameView {
        let p = Self::spawned(before.level.features@.contains(Feature::EvilBlocks), kind_roll, shade_roll);
        GameView {
            current: p,
            game_over: before.game_over || !Self::fits_in(before, p),
            ..before
        }
    }

    /// `after` is `before` with a freshly spawned piece, whatever the two rolls were.
    pub open spec fn after_spawn(before: GameView, after: GameView) -> bool {
        exists|k: u32, s: u32| after == #[trigger] Self::spawned_after(before, k, s)
    }

    /// The state of a new game before its first piece spawns.
    pub open spec fn initial_view() -> GameView {
        GameView {
            grid: empty_grid(W as int, H as int),
            current: Piece {
                kind: PieceKind::Line,
                x: (W / 2) as i16,
                y: 0,
                rotation: 0,
                color: Rgb8 { r: 255, g: 255, b: 255 },
            },
            changed: true,
            game_over: false,
            level: LevelState::spec_new(),
        }
    }

    /// `v` after locking piece `p`: its blocks are written, full rows are cleared, one
    /// more piece is counted and scored, and cleared rows advance the level.
    pub open spec fn after_lock(v: GameView, p: Piece) -> GameView {
        let placed = with_piece(v.grid, p);
        let n = full_rows(placed, W as int, H as int).len();
        let level = v.level.after_piece_placed();
        GameView {
            grid: cleared(placed, W as int, H as int),
            current: p,
            level: if n > 0 {
                level.after_rows_deleted(n as u32)
            } else {
                level
            },
            ..v
        }
    }

    /// Locking `p` in state `v` gives result `r` and state `after`: the game ends when a
    /// block of `p` lies in the hidden rows, else a new piece spawns, and the game ends
    /// when that piece does not fit. The result is `GameOver` exactly when the game ended.
    pub open spec fn lock_outcome(v: GameView, p: Piece, r: TickResult, after: GameView) -> bool {
        let locked = Self::after_lock(v, p);
        if reaches_hidden(p, HIDDEN as int) {
            r == TickResult::GameOver && after == GameView {
                game_over: true,
                changed: true,
                ..locked
            }
        } else {
            &&& Self::after_spawn(GameView { changed: true, ..locked }, after)
            &&& r == if after.game_over {
                TickResult::GameOver
            } else {
                TickResult::Locked
            }
        }
    }

    /// Creates a game on an empty board and spawns its first piece.
    pub fn new<R: RandomSource, T: TetrisEvents>(rng: &mut R, events: &mut T) -> (game: Self)
        requires
            Self::dims_ok(),
        ensures
            game.wf(),
            Self::after_spawn(Self::initial_view(), game@),
    {
        let mut game = Game {
            board: new_board(W, H),
            current: Piece::new(PieceKind::Line, (W / 2) as i16, 0, Rgb8::new(255, 255, 255)),
            changed: true,
            game_over: false,
            level: LevelState::new(),
        };
        assert(game@ == Self::initial_view());
        game.spawn_piece(rng, events);
        game
    }

    /// Makes the piece picked by `kind_roll` and `shade_roll` the active piece, and ends the
    /// game when it does not fit. Returns whether it fits.
    pub fn spawn_with_rolls(&mut self, kind_roll: u32, shade_roll: u32) -> (fits: bool)
        requires
            Self::dims_ok(),
            is_grid(old(self)@.grid, W as int, H as int),
        ensures
            final(self)@ == Self::spawned_after(old(self)@, kind_roll, shade_roll),
            fits == Self::fits_in(old(self)@, final(self)@.current),
            Self::state_ok(final(self)@),
    {
        let allow_evil = self.level.features.contains(Feature::EvilBlocks);
        let kind = kind_from_roll(allow_evil, kind_roll);
        let color = color_from_roll(kind, shade_roll);
        let spawn_x: i16 = (W / 2) as i16 - 1;
        let spawn_y: i16 = HIDDEN as i16 - 4;
        self.current = Piece::new(kind, spawn_x, spawn_y, color);
        let fits = can_place(&self.board, W, H, self.current);
        if !fits {
            self.game_over = true;
        }
        fits
    }

    /// Replaces the active piece by one picked with two rolls of `rng` (kind first, then
    /// shade); the game ends, and `events` hears of it, when it does not fit.
    fn spawn_piece<R: RandomSource, T: TetrisEvents>(&mut self, rng: &mut R, events: &mut T)
        requires
            Self::dims_ok(),
            is_grid(old(self)@.grid, W as int, H as int),
        ensures
            Self::after_spawn(old(self)@, final(self)@),
            Self::state_ok(final(self)@),
    {
        let kind_roll = rng.next_u32();
        let shade_roll = rng.next_u32();
        let fits = self.spawn_with_rolls(kind_roll, shade_roll);
        if !fits {
            events.on_game_over();
        }
    }

    /// Board width.
    pub fn width(&self) -> (w: usize)
        ensures
            w == W,
    {
        W
    }

    /// Board height, hidden rows included.
    pub fn height_total(&self) -> (h: usize)
        ensures
            h == H,
    {
        H
    }

    /// Number of hidden rows at the top.
    pub fn hidden_rows(&self) -> (n: usize)
        ensures
            n == HIDDEN,
    {
        HIDDEN
    }

    /// Number of visible rows.
    pub fn visible_height(&self) -> (n: usize)
        requires
            self.wf(),
        ensures
            n == H - HIDDEN,
    {
        H - HIDDEN
    }

    /// Whether something changed since the last `consume_changed`.
    pub fn has_changed(&self) -> (c: bool)
        ensures
            c == self@.changed,
    {
        self.changed
    }

    /// Returns the changed flag and clears it.
    pub fn consume_changed(&mut self) -> (c: bool)
        ensures
            c == old(self)@.changed,
            final(self)@ == (GameView { changed: false, ..old(self)@ }),
    {
        let changed = self.changed;
        self.changed = false;
        changed
    }

    /// Whether the game has ended.
    pub fn is_game_over(&self) -> (over: bool)
        ensures
            over == self@.game_over,
    {
        self.game_over
    }

    /// The active piece.
    pub fn current_piece(&self) -> (p: Piece)
        ensures
            p == self@.current,
    {
        self.current
    }

    /// Moves the active piece one column left when it fits there; does nothing once the
    /// game is over.
    pub fn move_left(&mut self) -> (ok: bool)
        requires
            old(self).wf(),
        ensures
            final(self).wf(),
            ok == (!old(self)@.game_over && Self::fits_in(old(self)@, Piece { x: (old(self)@.current.x - 1) as i16, ..old(self)@.current })),
            ok ==> final(self)@ == (GameView {
                current: Piece { x: (old(self)@.current.x - 1) as i16, ..old(self)@.current },
                changed: true,
                ..old(self)@
            }),
            !ok ==> final(self)@ == old(self)@,
    {
        if self.game_over {
            return false;
        }
        let mut moved = self.current;
        moved.x = moved.x - 1;
        if can_place(&self.board, W, H, moved) {
            proof {
                lemma_fits_position(self@.grid, W as int, H as int, moved);
            }
            self.current = moved;
            self.changed = true;
            return true;
        }
        false
    }

    /// Moves the active piece one column right when it fits there; does nothing once the
    /// game is over.
    pub fn move_right(&mut self) -> (ok: bool)
        requires
            old(self).wf(),
        ensures
            final(self).wf(),
            ok == (!old(self)@.game_over && Self::fits_in(old(self)@, Piece { x: (old(self)@.current.x + 1) as i16, ..old(self)@.current })),
            ok ==> final(self)@ == (GameView {
                current: Piece { x: (old(self)@.current.x + 1) as i16, ..old(self)@.current },
                changed: true,
                ..old(self)@
            }),
            !ok ==> final(self)@ == old(self)@,
    {
        if self.game_over {
            return false;
        }
        let mut moved = self.current;
        moved.x = moved.x + 1;
        if can_place(&self.board, W, H, moved) {
            proof {
                lemma_fits_position(self@.grid, W as int, H as int, moved);
            }
            self.current = moved;
            self.changed = true;
            return true;
        }
        false
    }

    /// Turns the active piece once in direction `dir` when it fits turned; does nothing once
    /// the game is over.
    pub fn rotate(&mut self, dir: Rotation) -> (ok: bool)
        requires
            old(self).wf(),
        ensures
            final(self).wf(),
            ok == (!old(self)@.game_over && Self::fits_in(
                old(self)@,
                Piece { rotation: rotated_index(old(self)@.current.rotation, dir), ..old(self)@.current },
            )),
            ok ==> final(self)@ == (GameView {
                current: Piece {
                    rotation: rotated_index(old(self)@.current.rotation, dir),
                    ..old(self)@.current
                },
                changed: true,
                ..old(self)@
            }),
            !ok ==> final(self)@ == old(self)@,
    {
        if self.game_over {
            return false;
        }
        let mut turned = self.current;
        turned.rotate(dir);
        if can_place(&self.board, W, H, turned) {
            self.current = turned;
            self.changed = true;
            return true;
        }
        false
    }

    /// Whether the active piece fits one row lower.
    pub fn can_drop(&self) -> (ok: bool)
        requires
            self.wf(),
        ensures
            ok == Self::fits_in(self@, moved_down(self@.current)),
    {
        let mut moved = self.current;
        moved.y = moved.y + 1;
        can_place(&self.board, W, H, moved)
    }

    /// `p` moved down for as long as it still fits one row lower.
    fn drop_down(&self, p: Piece) -> (q: Piece)
        requires
            self.wf(),
            p.y <= H,
        ensures
            q == landed(self@.grid, W as int, H as int, p),
    {
        let ghost g = self@.grid;
        let mut q = p;
        loop
            invariant
                self.wf(),
                g == self@.grid,
                q.y <= H,
                landed(g, W as int, H as int, q) == landed(g, W as int, H as int, p),
            ensures
                q == landed(g, W as int, H as int, p),
            decreases H - q.y,
        {
            let mut trial = q;
            trial.y = q.y + 1;
            assert(trial == moved_down(q));
            if !can_place(&self.board, W, H, trial) {
                break;
            }
            proof {
                lemma_fits_position(g, W as int, H as int, trial);
            }
            q = trial;
        }
        q
    }

    /// Where the active piece would land if dropped now.
    pub fn ghost_piece(&self) -> (p: Piece)
        requires
            self.wf(),
        ensures
            p == landed(self@.grid, W as int, H as int, self@.current),
    {
        self.drop_down(self.current)
    }

    /// The music tracks that locking `p` in state `v` requests, in order.
    pub open spec fn lock_music(v: GameView, p: Piece) -> Seq<u8> {
        let n = full_rows(with_piece(v.grid, p), W as int, H as int).len();
        if n > 0 {
            v.level.after_piece_placed().music_after_rows_deleted(n as u32)
        } else {
            Seq::empty()
        }
    }

    /// `rep` holds what locking `p` in state `v` reports: whether a cell lies off the board
    /// or in the hidden rows, the board cells written (the piece's cells that lie on the
    /// board, in cell order), the full rows
    /// removed (top to bottom) with their colors, and the music tracks requested.
    pub open spec fn lock_report_matches(v: GameView, p: Piece, rep: LockReport) -> bool {
        let placed = with_piece(v.grid, p);
        let rows = full_rows(placed, W as int, H as int);
        &&& rep.top_out == (reaches_hidden(p, HIDDEN as int) || !cells_in_bounds(W as int, H as int, p))
        &&& crate::board::pairs_of(rep.blocks@) == crate::board::board_cells(p, W as int, H as int)
        &&& crate::board::as_ints(rep.rows@) == rows
        &&& rep.colors@.len() == rows.len()
        &&& forall|i: int|
            0 <= i < rows.len() ==> #[trigger] rep.colors@[i]@ == Seq::new(
                W as nat,
                |x: int| crate::board::color_of(placed[x][rows[i]]),
            )
        &&& rep.music@ == Self::lock_music(v, p)
    }

    /// Locks the active piece: writes its blocks, clears full rows and updates the level,
    /// and returns what the event hooks are told.
    fn lock_and_report(&mut self) -> (rep: LockReport)
        requires
            old(self).wf(),
        ensures
            final(self)@ == Self::after_lock(old(self)@, old(self)@.current),
            is_grid(final(self)@.grid, W as int, H as int),
            Self::lock_report_matches(old(self)@, old(self)@.current, rep),
    {
        self.level.on_piece_placed();
        let piece = self.current;
        let top_out = place_piece(&mut self.board, W, H, HIDDEN, piece);
        let blocks = crate::board::piece_cells(piece, W, H);
        let ghost placed = self@.grid;
        let rows = row_indices(&self.board, W, H, true);
        proof {
            crate::board::lemma_rows_with(placed, W as int, H as int);
        }
        let mut colors: Vec<Vec<Option<Rgb8>>> = Vec::new();
        let mut k: usize = 0;
        while k < rows.len()
            invariant
                0 <= k <= rows.len(),
                placed == self@.grid,
                is_grid(placed, W as int, H as int),
                crate::board::as_ints(rows@) == full_rows(placed, W as int, H as int),
                forall|j: int|
                    0 <= j < full_rows(placed, W as int, H as int).len() ==> 0
                        <= #[trigger] full_rows(placed, W as int, H as int)[j] < H,
                colors@.len() == k,
                forall|j: int|
                    0 <= j < k ==> #[trigger] colors@[j]@ == Seq::new(
                        W as nat,
                        |x: int| crate::board::color_of(placed[x][full_rows(placed, W as int, H as int)[j]]),
                    ),
            decreases rows.len() - k,
        {
            let row = rows[k];
            assert(crate::board::as_ints(rows@)[k as int] == row as int);
            colors.push(row_colors(&self.board, W, H, row));
            k = k + 1;
        }
        let count = clear_full_rows(&mut self.board, W, H);
        let music = if count > 0 {
            self.level.record_rows_deleted(count)
        } else {
            Vec::new()
        };
        LockReport { top_out, blocks, rows, colors, music }
    }

    /// Locks the active piece and tells `events` of each written block, each removed row
    /// and each music change, in that order. Cells off the board are skipped. Returns whether
    /// some cell lies off the board or in the hidden rows.
    fn lock_current_piece<T: TetrisEvents>(&mut self, events: &mut T) -> (top_out: bool)
        requires
            old(self).wf(),
        ensures
            final(self)@ == Self::after_lock(old(self)@, old(self)@.current),
            is_grid(final(self)@.grid, W as int, H as int),
            top_out == (reaches_hidden(old(self)@.current, HIDDEN as int) || !cells_in_bounds(
                W as int,
                H as int,
                old(self)@.current,
            )),
    {
        let color = self.current.color;
        let rep = self.lock_and_report();
        let mut i: usize = 0;
        while i < rep.blocks.len()
            invariant
                0 <= i <= rep.blocks.len(),
            decreases rep.blocks.len() - i,
        {
            let (x, y) = rep.blocks[i];
            events.on_block_placed(color, x, y);
            i = i + 1;
        }
        let mut k: usize = 0;
        while k < rep.rows.len()
            invariant
                0 <= k <= rep.rows.len(),
                rep.colors.len() == rep.rows.len(),
            decreases rep.rows.len() - k,
        {
            events.on_row_deleted(rep.rows[k], rep.colors[k].as_slice());
            k = k + 1;
        }
        let mut m: usize = 0;
        while m < rep.music.len()
            invariant
                0 <= m <= rep.music.len(),
            decreases rep.music.len() - m,
        {
            events.on_music(rep.music[m]);
            m = m + 1;
        }
        rep.top_out
    }

    /// Locks the active piece, then ends the game or spawns the next piece.
    fn lock_and_respawn<R: RandomSource, T: TetrisEvents>(&mut self, rng: &mut R, events: &mut T) -> (r: TickResult)
        requires
            old(self).wf(),
            !old(self)@.game_over,
        ensures
            final(self).wf(),
            Self::lock_outcome(old(self)@, old(self)@.current, r, final(self)@),
    {
        proof {
            lemma_fits_position(self@.grid, W as int, H as int, self@.current);
        }
        let top_out = self.lock_current_piece(events);
        if top_out {
            self.game_over = true;
            events.on_game_over();
            self.changed = true;
            return TickResult::GameOver;
        }
        self.changed = true;
        self.spawn_piece(rng, events);
        if self.game_over {
            TickResult::GameOver
        } else {
            TickResult::Locked
        }
    }

    /// Moves the active piece one row down, or, when it cannot move, locks it and spawns
    /// the next piece. Does nothing once the game is over.
    pub fn soft_drop<R: RandomSource, T: TetrisEvents>(&mut self, rng: &mut R, events: &mut T) -> (r: TickResult)
        requires
            old(self).wf(),
        ensures
            final(self).wf(),
            old(self)@.game_over ==> r == TickResult::GameOver && final(self)@ == old(self)@
                && *final(rng) == *old(rng) && *final(events) == *old(events),
            !old(self)@.game_over && Self::fits_in(old(self)@, moved_down(old(self)@.current)) ==> r
                == TickResult::Moved && final(self)@ == (GameView {
                current: moved_down(old(self)@.current),
                changed: true,
                ..old(self)@
            }) && *final(rng) == *old(rng) && *final(events) == *old(events),
            !old(self)@.game_over && !Self::fits_in(old(self)@, moved_down(old(self)@.current))
                ==> Self::lock_outcome(old(self)@, old(self)@.current, r, final(self)@),
    {
        if self.game_over {
            return TickResult::GameOver;
        }
        let mut moved = self.current;
        moved.y = moved.y + 1;
        if can_place(&self.board, W, H, moved) {
            proof {
                lemma_fits_position(self@.grid, W as int, H as int, moved);
            }
            self.current = moved;
            self.changed = true;
            return TickResult::Moved;
        }
        self.lock_and_respawn(rng, events)
    }

    /// Drops the active piece as far as it goes, locks it, and spawns the next piece. Does
    /// nothing once the game is over.
    pub fn hard_drop<R: RandomSource, T: TetrisEvents>(&mut self, rng: &mut R, events: &mut T) -> (r: TickResult)
        requires
            old(self).wf(),
        ensures
            final(self).wf(),
            old(self)@.game_over ==> r == TickResult::GameOver && final(self)@ == old(self)@
                && *final(rng) == *old(rng) && *final(events) == *old(events),
            !old(self)@.game_over ==> Self::lock_outcome(
                old(self)@,
                landed(old(self)@.grid, W as int, H as int, old(self)@.current),
                r,
                final(self)@,
            ),
    {
        if self.game_over {
            return TickResult::GameOver;
        }
        let landed_piece = self.drop_down(self.current);
        proof {
            lemma_landed(self@.grid, W as int, H as int, self@.current);
            lemma_fits_position(self@.grid, W as int, H as int, landed_piece);
        }
        self.current = landed_piece;
        self.lock_and_respawn(rng, events)
    }

    /// What a renderer shows at (x, y): a placed block, else (when asked for) the landing
    /// spot of the active piece, else the active piece, else nothing.
    pub open spec fn view_at(v: GameView, x: int, y: int, include_ghost: bool) -> Option<CellView> {
        if !(x < W && y < H) {
            None
        } else {
            match v.grid[x][y] {
                Some(block) => Some(CellView { color: block.color, layer: Layer::Placed }),
                None => {
                    if include_ghost && landed(v.grid, W as int, H as int, v.current).covers(x, y) {
                        Some(CellView { color: v.current.color, layer: Layer::GhostPiece })
                    } else if v.current.covers(x, y) {
                        Some(CellView { color: v.current.color, layer: Layer::Current })
                    } else {
                        None
                    }
                },
            }
        }
    }

    /// What a renderer shows at (x, y), as [`Self::view_at`] states.
    pub fn cell_view_at(&self, x: usize, y: usize, include_ghost: bool) -> (c: Option<CellView>)
        requires
            self.wf(),
        ensures
            c == Self::view_at(self@, x as int, y as int, include_ghost),
    {
        if x >= W || y >= H {
            return None;
        }
        assert(self@.grid[x as int] == self.board@[x as int]@);
        if let Some(block) = self.board[x][y] {
            return Some(CellView { color: block.color, layer: Layer::Placed });
        }
        if include_ghost {
            let ghost_piece = self.ghost_piece();
            proof {
                crate::board::lemma_landed_moves_down(self@.grid, W as int, H as int, self@.current);
            }
            if crate::board::piece_has_cell_at(ghost_piece, x as i16, y as i16) {
                return Some(CellView { color: ghost_piece.color, layer: Layer::GhostPiece });
            }
        }
        if crate::board::piece_has_cell_at(self.current, x as i16, y as i16) {
            return Some(CellView { color: self.current.color, layer: Layer::Current });
        }
        None
    }

    /// The active piece turned to rotation index `rot` and moved to column `tx`.
    pub open spec fn candidate(v: GameView, rot: int, tx: int) -> Piece {
        Piece { rotation: rot as u8, x: tx as i16, ..v.current }
    }

    /// A placement the suggester tries: rotation in `0..4`, column in `-4..W + 4`, fitting
    /// where the active piece is now.
    pub open spec fn candidate_ok(v: GameView, rot: int, tx: int) -> bool {
        &&& 0 <= rot < 4
        &&& -4 <= tx < W + 4
        &&& Self::fits_in(v, Self::candidate(v, rot, tx))
    }

    /// The score of the board after dropping and locking the candidate.
    pub open spec fn candidate_score(v: GameView, rot: int, tx: int) -> int {
        let p = landed(v.grid, W as int, H as int, Self::candidate(v, rot, tx));
        crate::board::board_score(with_piece(v.grid, p), W as int, H as int)
    }

    /// Candidate (r1, t1) comes before (r2, t2) in the order the suggester tries them.
    pub open spec fn tried_before(r1: int, t1: int, r2: int, t2: int) -> bool {
        r1 < r2 || (r1 == r2 && t1 < t2)
    }

    /// `s` names a valid candidate with the highest score, and the first one tried among
    /// those with that score.
    pub open spec fn is_best_move(v: GameView, s: MoveSuggestion) -> bool {
        let r = s.target_rotation as int;
        let t = s.target_x as int;
        &&& Self::candidate_ok(v, r, t)
        &&& s.score == Self::candidate_score(v, r, t)
        &&& forall|r2: int, t2: int|
            #[trigger] Self::candidate_ok(v, r2, t2) ==> Self::candidate_score(v, r2, t2) <= s.score
        &&& forall|r2: int, t2: int|
            #[trigger] Self::candidate_ok(v, r2, t2) && Self::tried_before(r2, t2, r, t)
                ==> Self::candidate_score(v, r2, t2) < s.score
    }

    /// Suggests the placement of the active piece that leaves the best-scoring board; none
    /// once the game is over or when no placement fits.
    pub fn suggest_best_move(&self) -> (best: Option<MoveSuggestion>)
        requires
            self.wf(),
            crate::board::score_fits(W as int, H as int),
        ensures
            best is None <==> (self@.game_over || forall|r: int, t: int|
                !#[trigger] Self::candidate_ok(self@, r, t)),
            best matches Some(s) ==> Self::is_best_move(self@, s),
    {
        if self.game_over {
            return None;
        }
        let ghost v = self@;
        let mut best: Option<MoveSuggestion> = None;
        let mut best_score: i32 = i32::MIN;
        let end: i16 = W as i16 + 4;
        let mut rot: u8 = 0;
        while rot < 4
            invariant
                self.wf(),
                crate::board::score_fits(W as int, H as int),
                v == self@,
                !v.game_over,
                end == W + 4,
                0 <= rot <= 4,
                best is None ==> best_score == i32::MIN && forall|r: int, t: int|
                    #[trigger] Self::candidate_ok(v, r, t) ==> !Self::tried_before(r, t, rot as int, -4),
                best matches Some(s) ==> {
                    &&& best_score == s.score
                    &&& Self::candidate_ok(v, s.target_rotation as int, s.target_x as int)
                    &&& s.score == Self::candidate_score(v, s.target_rotation as int, s.target_x as int)
                    &&& Self::tried_before(s.target_rotation as int, s.target_x as int, rot as int, -4)
                    &&& forall|r: int, t: int|
                        #[trigger] Self::candidate_ok(v, r, t) && Self::tried_before(r, t, rot as int, -4)
                            ==> Self::candidate_score(v, r, t) <= s.score
                    &&& forall|r: int, t: int|
                        #[trigger] Self::candidate_ok(v, r, t) && Self::tried_before(
                            r,
                            t,
                            s.target_rotation as int,
                            s.target_x as int,
                        ) ==> Self::candidate_score(v, r, t) < s.score
                },
            decreases 4 - rot,
        {
            let mut tx: i16 = -4;
            while tx < end
                invariant
                    self.wf(),
                    crate::board::score_fits(W as int, H as int),
                    v == self@,
                    !v.game_over,
                    end == W + 4,
                    0 <= rot < 4,
                    -4 <= tx <= end,
                    best is None ==> best_score == i32::MIN && forall|r: int, t: int|
                        #[trigger] Self::candidate_ok(v, r, t) ==> !Self::tried_before(r, t, rot as int, tx as int),
                    best matches Some(s) ==> {
                        &&& best_score == s.score
                        &&& Self::candidate_ok(v, s.target_rotation as int, s.target_x as int)
                        &&& s.score == Self::candidate_score(v, s.target_rotation as int, s.target_x as int)
                        &&& Self::tried_before(s.target_rotation as int, s.target_x as int, rot as int, tx as int)
                        &&& forall|r: int, t: int|
                            #[trigger] Self::candidate_ok(v, r, t) && Self::tried_before(r, t, rot as int, tx as int)
                                ==> Self::candidate_score(v, r, t) <= s.score
                        &&& forall|r: int, t: int|
                            #[trigger] Self::candidate_ok(v, r, t) && Self::tried_before(
                                r,
                                t,
                                s.target_rotation as int,
                                s.target_x as int,
                            ) ==> Self::candidate_score(v, r, t) < s.score
                    },
                decreases end - tx,
            {
                let mut candidate = self.current;
                candidate.rotation = rot;
                candidate.x = tx;
                assert(candidate == Self::candidate(v, rot as int, tx as int));
                if can_place(&self.board, W, H, candidate) {
                    let landed_piece = self.drop_down(candidate);
                    proof {
                        lemma_landed(v.grid, W as int, H as int, candidate);
                        lemma_fits_position(v.grid, W as int, H as int, landed_piece);
                        lemma_with_piece_shape(v.grid, W as int, H as int, landed_piece);
                        crate::board::lemma_board_score_range(
                            with_piece(v.grid, landed_piece),
                            W as int,
                            H as int,
                        );
                        assert(Self::candidate_ok(v, rot as int, tx as int));
                    }
                    let score = crate::board::heuristic_if_locked(&self.board, W, H, landed_piece);
                    if score > best_score {
                        best_score = score;
                        best = Some(MoveSuggestion { target_x: tx, target_rotation: rot, score });
                    }
                }
                tx = tx + 1;
            }
            rot = rot + 1;
        }
        best
    }

    /// A successful move left is undone by a move right: while the game runs, moving the
    /// piece back always fits and restores it.
    pub proof fn lemma_move_left_then_right(v: GameView)
        requires
            Self::dims_ok(),
            Self::state_ok(v),
            !v.game_over,
            Self::fits_in(v, Piece { x: (v.current.x - 1) as i16, ..v.current }),
        ensures
            ({
                let left = Piece { x: (v.current.x - 1) as i16, ..v.current };
                let back = Piece { x: (left.x + 1) as i16, ..left };
                &&& Self::fits_in(GameView { current: left, changed: true, ..v }, back)
                &&& back == v.current
            }),
    {
        let left = Piece { x: (v.current.x - 1) as i16, ..v.current };
        lemma_fits_position(v.grid, W as int, H as int, left);
        let back = Piece { x: (left.x + 1) as i16, ..left };
        assert(back == v.current);
    }

    /// A successful clockwise turn is undone by a counter-clockwise turn: while the game
    /// runs, turning back always fits and restores the piece.
    pub proof fn lemma_rotate_then_back(v: GameView)
        requires
            Self::dims_ok(),
            Self::state_ok(v),
            !v.game_over,
            Self::fits_in(v, Piece { rotation: rotated_index(v.current.rotation, Rotation::Cw), ..v.current }),
        ensures
            ({
                let turned = Piece { rotation: rotated_index(v.current.rotation, Rotation::Cw), ..v.current };
                let back = Piece { rotation: rotated_index(turned.rotation, Rotation::Ccw), ..turned };
                &&& Self::fits_in(GameView { current: turned, changed: true, ..v }, back)
                &&& back == v.current
            }),
    {
        crate::piece::lemma_rotate_round_trip(v.current);
        let turned = Piece { rotation: rotated_index(v.current.rotation, Rotation::Cw), ..v.current };
        let back = Piece { rotation: rotated_index(turned.rotation, Rotation::Ccw), ..turned };
        assert(back == v.current);
    }

    /// The piece a hard drop locks is the landing spot that `ghost_piece` shows: it fits and
    /// cannot move one row lower.
    pub proof fn lemma_hard_drop_locks_ghost(v: GameView)
        requires
            Self::dims_ok(),
            Self::state_ok(v),
            !v.game_over,
        ensures
            ({
                let ghost_piece = landed(v.grid, W as int, H as int, v.current);
                &&& Self::after_lock(v, ghost_piece).current == ghost_piece
                &&& Self::fits_in(v, ghost_piece)
                &&& !Self::fits_in(v, moved_down(ghost_piece))
                &&& ghost_piece == (Piece { y: ghost_piece.y, ..v.current })
            }),
    {
        let ghost_piece = landed(v.grid, W as int, H as int, v.current);
        lemma_landed(v.grid, W as int, H as int, v.current);
        lemma_fits_position(v.grid, W as int, H as int, ghost_piece);
    }

    /// After a piece locks, no row of the board is full.
    pub proof fn lemma_lock_leaves_no_full_row(v: GameView, p: Piece)
        requires
            Self::dims_ok(),
            Self::state_ok(v),
            W > 0,
        ensures
            forall|y: int|
                0 <= y < H ==> !#[trigger] crate::board::row_full(Self::after_lock(v, p).grid, W as int, y),
    {
        lemma_with_piece_shape(v.grid, W as int, H as int, p);
        crate::board::lemma_cleared_has_no_full_row(with_piece(v.grid, p), W as int, H as int);
    }

    /// The state reached from `v` by soft drops that each move the piece one row down, for
    /// as long as the piece fits one row lower.
    pub open spec fn soft_drops_to_rest(v: GameView) -> GameView
        decreases i16::MAX - v.current.y,
    {
        if v.current.y < i16::MAX && Self::fits_in(v, moved_down(v.current)) {
            Self::soft_drops_to_rest(GameView { current: moved_down(v.current), changed: true, ..v })
        } else {
            v
        }
    }

    /// A hard drop is a run of soft drops: soft drops move the piece down to where the hard
    /// drop would lock it, leaving board, level and game-over flag alone, and the soft drop
    /// that then locks it has exactly the outcomes of the hard drop.
    pub proof fn lemma_hard_drop_is_repeated_soft_drop(v: GameView)
        requires
            Self::dims_ok(),
            Self::state_ok(v),
            !v.game_over,
        ensures
            ({
                let u = Self::soft_drops_to_rest(v);
                let p = landed(v.grid, W as int, H as int, v.current);
                &&& u.current == p
                &&& u.grid == v.grid
                &&& u.level == v.level
                &&& !u.game_over
                &&& Self::state_ok(u)
                &&& !Self::fits_in(u, moved_down(u.current))
                &&& forall|r: TickResult, after: GameView|
                    #[trigger] Self::lock_outcome(u, u.current, r, after) == Self::lock_outcome(
                        v,
                        p,
                        r,
                        after,
                    )
            }),
        decreases i16::MAX - v.current.y,
    {
        let p = landed(v.grid, W as int, H as int, v.current);
        if v.current.y < i16::MAX && Self::fits_in(v, moved_down(v.current)) {
            let next = GameView { current: moved_down(v.current), changed: true, ..v };
            lemma_fits_position(v.grid, W as int, H as int, moved_down(v.current));
            Self::lemma_hard_drop_is_repeated_soft_drop(next);
            let u = Self::soft_drops_to_rest(v);
            assert forall|r: TickResult, after: GameView|
                #[trigger] Self::lock_outcome(u, u.current, r, after) == Self::lock_outcome(v, p, r, after) by {
                assert(Self::lock_outcome(next, p, r, after) == Self::lock_outcome(v, p, r, after));
            }
        } else {
            lemma_fits_position(v.grid, W as int, H as int, v.current);
            assert(v.current.y < i16::MAX);
        }
    }

    /// Once the game is over, neither drop changes anything and both report the game over.
    pub proof fn lemma_game_over_is_final(v: GameView, p: Piece, r: TickResult, after: GameView)
        requires
            Self::lock_outcome(v, p, r, after),
            r == TickResult::GameOver,
        ensures
            after.game_over,
    {
    }
}

} // verus!

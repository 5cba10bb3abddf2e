# microgames

Rules and state transitions for a Tetris-like falling-blocks game, written in
Verus with contracts on every public function.

Layout of `src/`:

- `color.rs` — `Rgb8` and `Block`.
- `features.rs` — `Feature` and the bit set `FeatureFlags`, viewed as a `Set<Feature>`.
- `level.rs` — `LevelState`: score, level progression, feature unlocks and music requests.
- `events.rs` — the `TetrisEvents` and `RandomSource` traits, `NoopEvents`, `Lcg32`.
- `piece.rs` — piece kinds, their cell offsets and rotations, `Piece`.
- `spawn.rs` — the kind and color a random roll picks.
- `board.rs` — the board as columns of cells: fitting, placing, clearing full rows, and the
  move-scoring heuristic, each against a mathematical model (`Grid`).
- `game.rs` — `Game<W, H, HIDDEN>`: moves, drops, locking, the ghost piece, cell views and the
  move suggester, with the game's abstract state `GameView`.

The platform supplies randomness through `RandomSource` and receives events through
`TetrisEvents`; the functions that decide what is spawned or reported take those values as
plain arguments and have exact contracts.

use microgames::{
    CellView, Feature, FeatureFlags, Game, Layer, Lcg32, LevelState, MoveSuggestion, NoopEvents,
    Piece, PieceKind, RandomSource, Rgb8, Rotation, TetrisEvents, TickResult, MAX_PIECE_CELLS,
};

/// A random source that always returns the same value.
struct Fixed(u32);

impl RandomSource for Fixed {
    fn next_u32(&mut self) -> u32 {
        self.0
    }
}

/// A random source that hands out a fixed list of values in order, then zeros.
struct Script(Vec<u32>, usize);

impl RandomSource for Script {
    fn next_u32(&mut self) -> u32 {
        let v = self.0.get(self.1).copied().unwrap_or(0);
        self.1 += 1;
        v
    }
}

/// Records every event it receives.
#[derive(Default)]
struct Recorder {
    blocks: Vec<(Rgb8, usize, usize)>,
    rows: Vec<(usize, Vec<Option<Rgb8>>)>,
    music: Vec<u8>,
    game_overs: usize,
}

impl TetrisEvents for Recorder {
    fn on_block_placed(&mut self, color: Rgb8, x: usize, y: usize) {
        self.blocks.push((color, x, y));
    }
    fn on_music(&mut self, track_id: u8) {
        self.music.push(track_id);
    }
    fn on_row_deleted(&mut self, row: usize, colors: &[Option<Rgb8>]) {
        self.rows.push((row, colors.to_vec()));
    }
    fn on_game_over(&mut self) {
        self.game_overs += 1;
    }
}

const SQUARE_COLOR: Rgb8 = Rgb8 { r: 216, g: 216, b: 0 };

#[test]
fn rgb_new_keeps_channels() {
    let c = Rgb8::new(1, 2, 3);
    assert_eq!(c, Rgb8 { r: 1, g: 2, b: 3 });
    assert_eq!(Rgb8::default(), Rgb8::new(0, 0, 0));
    assert_eq!(MAX_PIECE_CELLS, 8);
}

#[test]
fn feature_flags_start_with_minimum() {
    let f = FeatureFlags::new();
    assert!(f.contains(Feature::Minimum));
    assert!(!f.contains(Feature::Colors));
    assert!(!f.contains(Feature::Shifted));
    assert_eq!(FeatureFlags::default(), f);
}

#[test]
fn feature_flags_insert_and_remove() {
    let mut f = FeatureFlags::new();
    f.insert(Feature::EvilBlocks);
    assert!(f.contains(Feature::EvilBlocks));
    assert!(f.contains(Feature::Minimum));
    assert!(!f.contains(Feature::Shifted));
    let once = f;
    f.insert(Feature::EvilBlocks);
    assert_eq!(f, once);
    f.remove(Feature::EvilBlocks);
    assert!(!f.contains(Feature::EvilBlocks));
    assert!(f.contains(Feature::Minimum));
    f.remove(Feature::Minimum);
    assert!(!f.contains(Feature::Minimum));
}

#[test]
fn level_state_defaults() {
    let l = LevelState::new();
    assert_eq!(l.start_level, 1);
    assert_eq!(l.end_level, 10);
    assert_eq!(l.current_level, 1);
    assert_eq!(l.multiplier, 1);
    assert_eq!(l.placed_pieces, 0);
    assert_eq!(l.rows_deleted, 0);
    assert_eq!(l.total_points, 0);
    assert_eq!(l.features, FeatureFlags::new());
    assert_eq!(LevelState::default(), l);
}

#[test]
fn next_level_in_rows_counts_down_to_boundary() {
    let mut l = LevelState::new();
    assert_eq!(l.next_level_in_rows(), 5);
    l.rows_deleted = 7;
    assert_eq!(l.next_level_in_rows(), 3);
    l.rows_deleted = 10;
    assert_eq!(l.next_level_in_rows(), 5);
    l.rows_deleted = 14;
    assert_eq!(l.next_level_in_rows(), 1);
}

#[test]
fn level_speed_has_a_floor() {
    let mut l = LevelState::new();
    assert_eq!(l.level_speed_seconds(), 375);
    l.current_level = 10;
    assert_eq!(l.level_speed_seconds(), 150);
    l.current_level = 14;
    assert_eq!(l.level_speed_seconds(), 50);
    l.current_level = 255;
    assert_eq!(l.level_speed_seconds(), 50);
    l.current_level = 0;
    assert_eq!(l.level_speed_seconds(), 400);
}

#[test]
fn piece_placed_scores_level_times_multiplier() {
    let mut l = LevelState::new();
    l.current_level = 3;
    l.multiplier = 4;
    l.on_piece_placed();
    assert_eq!(l.placed_pieces, 1);
    assert_eq!(l.total_points, 12);
    l.total_points = u32::MAX - 5;
    l.placed_pieces = u32::MAX;
    l.on_piece_placed();
    assert_eq!(l.total_points, u32::MAX);
    assert_eq!(l.placed_pieces, u32::MAX);
}

#[test]
fn rows_deleted_advance_levels_and_unlock_features() {
    let mut l = LevelState::new();
    let mut ev = Recorder::default();
    l.on_rows_deleted(4, &mut ev);
    assert_eq!(l.current_level, 1);
    assert!(ev.music.is_empty());
    l.on_rows_deleted(6, &mut ev);
    assert_eq!(l.rows_deleted, 10);
    assert_eq!(l.current_level, 3);
    assert!(l.features.contains(Feature::Colors));
    assert!(l.features.contains(Feature::Music));
    assert!(!l.features.contains(Feature::Preview));
    assert_eq!(ev.music, vec![0]);
    l.on_rows_deleted(20, &mut ev);
    assert_eq!(l.current_level, 7);
    assert!(l.features.contains(Feature::Flashlight));
    assert!(!l.features.contains(Feature::SpinUpgrade));
    assert_eq!(ev.music, vec![0, 1]);
}

#[test]
fn rows_deleted_stop_at_end_level() {
    let mut l = LevelState::new();
    let tracks = l.record_rows_deleted(1000);
    assert_eq!(l.current_level, 10);
    assert_eq!(tracks, vec![0, 1]);
    for f in [
        Feature::Colors,
        Feature::Music,
        Feature::Preview,
        Feature::Rotation,
        Feature::ForwardBackward,
        Feature::Flashlight,
        Feature::SpinUpgrade,
        Feature::EvilBlocks,
        Feature::Shifted,
        Feature::Minimum,
    ] {
        assert!(l.features.contains(f));
    }
    l.rows_deleted = u32::MAX - 1;
    let tracks = l.record_rows_deleted(10);
    assert_eq!(l.rows_deleted, u32::MAX);
    assert_eq!(l.current_level, 10);
    assert!(tracks.is_empty());
}

#[test]
fn lcg_follows_its_recurrence() {
    let mut a = Lcg32::new(0);
    assert_eq!(a.next_u32(), 1013904223);
    assert_eq!(a.next_u32(), 1196435762);
    let mut b = Lcg32::new(12345);
    let mut c = Lcg32::new(12345);
    for _ in 0..10 {
        assert_eq!(b.next_u32(), c.next_u32());
    }
}

#[test]
fn piece_rotation_wraps_around() {
    let mut p = Piece::new(PieceKind::Tee, 3, 4, Rgb8::new(1, 1, 1));
    assert_eq!(p.rotation, 0);
    p.rotate(Rotation::Ccw);
    assert_eq!(p.rotation, 3);
    p.rotate(Rotation::Cw);
    assert_eq!(p.rotation, 0);
    for _ in 0..4 {
        p.rotate(Rotation::Cw);
    }
    assert_eq!(p.rotation, 0);
    assert_eq!((p.x, p.y), (3, 4));
}

#[test]
fn piece_cell_counts() {
    let c = Rgb8::new(0, 0, 0);
    assert_eq!(Piece::new(PieceKind::Evil, 0, 0, c).cell_count(), 8);
    assert_eq!(Piece::new(PieceKind::Dot, 0, 0, c).cell_count(), 1);
    assert_eq!(Piece::new(PieceKind::Line, 0, 0, c).cell_count(), 4);
    assert_eq!(PieceKind::ALL.len(), 8);
    assert_eq!(PieceKind::NON_EVIL.len(), 7);
}

#[test]
fn new_game_spawns_from_rolls() {
    let mut rng = Lcg32::new(0xC11C_7E75);
    let mut events = NoopEvents;
    let game = Game::<10, 24, 4>::new(&mut rng, &mut events);
    let p = game.current_piece();
    assert_eq!(p.kind, PieceKind::Square);
    assert_eq!((p.x, p.y, p.rotation), (4, 0, 0));
    assert_eq!(p.color, Rgb8::new(242, 242, 0));
    assert!(!game.is_game_over());
    assert!(game.has_changed());
    assert_eq!(game.width(), 10);
    assert_eq!(game.height_total(), 24);
    assert_eq!(game.hidden_rows(), 4);
    assert_eq!(game.visible_height(), 20);
    assert_eq!(game.level, LevelState::new());
}

#[test]
fn fixed_roll_spawns_shaded_square() {
    let game = Game::<4, 8, 4>::new(&mut Fixed(3), &mut NoopEvents);
    let p = game.current_piece();
    assert_eq!(p.kind, PieceKind::Square);
    assert_eq!((p.x, p.y), (1, 0));
    assert_eq!(p.color, SQUARE_COLOR);
}

#[test]
fn consume_changed_clears_flag() {
    let mut game = Game::<4, 8, 4>::new(&mut Fixed(3), &mut NoopEvents);
    assert!(game.consume_changed());
    assert!(!game.consume_changed());
    assert!(!game.has_changed());
    assert!(game.move_left());
    assert!(game.has_changed());
}

#[test]
fn moves_stop_at_walls() {
    let mut game = Game::<4, 8, 4>::new(&mut Fixed(3), &mut NoopEvents);
    assert!(game.move_left());
    assert_eq!(game.current_piece().x, 0);
    assert!(!game.move_left());
    assert_eq!(game.current_piece().x, 0);
    assert!(game.move_right());
    assert!(game.move_right());
    assert_eq!(game.current_piece().x, 2);
    assert!(!game.move_right());
    assert!(game.move_left());
    assert_eq!(game.current_piece().x, 1);
}

#[test]
fn line_rotation_round_trip() {
    // Roll 0 picks a line, which turns between vertical and horizontal.
    let mut game = Game::<10, 24, 4>::new(&mut Fixed(0), &mut NoopEvents);
    let start = game.current_piece();
    assert_eq!(start.kind, PieceKind::Line);
    assert!(game.rotate(Rotation::Cw));
    assert_eq!(game.current_piece().rotation, 1);
    assert!(game.rotate(Rotation::Ccw));
    assert_eq!(game.current_piece(), start);
}

#[test]
fn soft_drop_moves_one_row() {
    let mut game = Game::<4, 8, 4>::new(&mut Fixed(3), &mut NoopEvents);
    assert!(game.can_drop());
    assert_eq!(game.soft_drop(&mut Fixed(3), &mut NoopEvents), TickResult::Moved);
    assert_eq!(game.current_piece().y, 1);
}

#[test]
fn ghost_and_cell_views() {
    let game = Game::<4, 8, 4>::new(&mut Fixed(3), &mut NoopEvents);
    let ghost = game.ghost_piece();
    assert_eq!((ghost.x, ghost.y), (1, 6));
    assert_eq!(
        game.cell_view_at(1, 0, true),
        Some(CellView { color: SQUARE_COLOR, layer: Layer::Current })
    );
    assert_eq!(
        game.cell_view_at(2, 7, true),
        Some(CellView { color: SQUARE_COLOR, layer: Layer::GhostPiece })
    );
    assert_eq!(game.cell_view_at(2, 7, false), None);
    assert_eq!(game.cell_view_at(0, 0, true), None);
    assert_eq!(game.cell_view_at(4, 0, true), None);
    assert_eq!(game.cell_view_at(0, 8, true), None);
}

#[test]
fn hard_drop_locks_at_ghost_and_reports_blocks() {
    let mut game = Game::<4, 8, 4>::new(&mut Fixed(3), &mut NoopEvents);
    let mut ev = Recorder::default();
    assert_eq!(game.hard_drop(&mut Fixed(3), &mut ev), TickResult::Locked);
    assert_eq!(
        ev.blocks,
        vec![
            (SQUARE_COLOR, 1, 6),
            (SQUARE_COLOR, 2, 6),
            (SQUARE_COLOR, 1, 7),
            (SQUARE_COLOR, 2, 7)
        ]
    );
    assert_eq!(
        game.cell_view_at(1, 6, false),
        Some(CellView { color: SQUARE_COLOR, layer: Layer::Placed })
    );
    assert_eq!(game.level.placed_pieces, 1);
    assert_eq!(game.level.total_points, 1);
    assert_eq!(game.current_piece().y, 0);
    assert!(!game.can_drop() || game.current_piece().y == 0);
}

#[test]
fn full_rows_are_cleared_and_reported() {
    let mut game = Game::<4, 8, 4>::new(&mut Fixed(3), &mut NoopEvents);
    let mut ev = Recorder::default();
    assert!(game.move_left());
    assert_eq!(game.hard_drop(&mut Fixed(3), &mut ev), TickResult::Locked);
    assert!(game.move_right());
    assert_eq!(game.hard_drop(&mut Fixed(3), &mut ev), TickResult::Locked);
    let full = vec![Some(SQUARE_COLOR); 4];
    assert_eq!(ev.rows, vec![(6, full.clone()), (7, full)]);
    assert_eq!(game.level.rows_deleted, 2);
    for x in 0..4 {
        for y in 0..8 {
            let v = game.cell_view_at(x, y, false);
            assert!(v.map_or(true, |c| c.layer == Layer::Current));
        }
    }
}

#[test]
fn stacking_into_hidden_rows_ends_game() {
    let mut game = Game::<4, 8, 4>::new(&mut Fixed(3), &mut NoopEvents);
    let mut ev = Recorder::default();
    assert_eq!(game.hard_drop(&mut Fixed(3), &mut ev), TickResult::Locked);
    assert_eq!(game.hard_drop(&mut Fixed(3), &mut ev), TickResult::Locked);
    assert_eq!(game.hard_drop(&mut Fixed(3), &mut ev), TickResult::GameOver);
    assert!(game.is_game_over());
    assert_eq!(ev.game_overs, 1);
    assert_eq!(game.soft_drop(&mut Fixed(3), &mut ev), TickResult::GameOver);
    assert_eq!(game.hard_drop(&mut Fixed(3), &mut ev), TickResult::GameOver);
    assert_eq!(ev.game_overs, 1);
    assert_eq!(game.suggest_best_move(), None);
}

#[test]
fn suggestion_prefers_flat_edges() {
    let game = Game::<4, 8, 4>::new(&mut Fixed(3), &mut NoopEvents);
    assert_eq!(
        game.suggest_best_move(),
        Some(MoveSuggestion { target_x: 0, target_rotation: 0, score: -20 })
    );
}

#[test]
fn spawn_blocked_board_is_game_over_at_once() {
    // A one-column board cannot hold the square that roll 3 picks.
    let mut ev = Recorder::default();
    let game = Game::<1, 8, 4>::new(&mut Fixed(3), &mut ev);
    assert!(game.is_game_over());
    assert_eq!(ev.game_overs, 1);
}

#[test]
fn evil_blocks_spawn_once_unlocked() {
    let mut game = Game::<10, 24, 4>::new(&mut Fixed(7), &mut NoopEvents);
    // Without the feature, roll 7 picks the first of the seven standard kinds.
    assert_eq!(game.current_piece().kind, PieceKind::Line);
    game.level.features.insert(Feature::EvilBlocks);
    assert_eq!(game.hard_drop(&mut Fixed(7), &mut NoopEvents), TickResult::Locked);
    let p = game.current_piece();
    assert_eq!(p.kind, PieceKind::Evil);
    assert_eq!(p.cell_count(), 8);
    assert_eq!(p.color, Rgb8::new(190, 190, 190));
}

#[test]
fn darkest_shade_is_three_quarters() {
    let game = Game::<10, 24, 4>::new(&mut Fixed(5), &mut NoopEvents);
    let p = game.current_piece();
    assert_eq!(p.kind, PieceKind::Dot);
    assert_eq!(p.color, Rgb8::new(0, 191, 191));
}

#[test]
fn evil_piece_shape_on_board() {
    let mut game = Game::<10, 24, 4>::new(&mut Fixed(7), &mut NoopEvents);
    game.level.features.insert(Feature::EvilBlocks);
    game.hard_drop(&mut Fixed(7), &mut NoopEvents);
    // The evil block is a 3x3 ring spawned at column 4, row 0.
    for (x, y, filled) in [
        (4, 0, true),
        (5, 0, true),
        (6, 0, true),
        (4, 1, true),
        (5, 1, false),
        (6, 1, true),
        (4, 2, true),
        (5, 2, true),
        (6, 2, true),
    ] {
        let v = game.cell_view_at(x, y, false);
        assert_eq!(v.is_some(), filled, "cell ({x}, {y})");
    }
}

#[test]
fn failed_spawn_after_lock_reports_game_over() {
    // On a two-column board a square fits, but a tee is three columns wide.
    let mut rng = Script(vec![3, 0, 4, 0], 0);
    let mut ev = Recorder::default();
    let mut game = Game::<2, 8, 4>::new(&mut rng, &mut ev);
    assert!(!game.is_game_over());
    assert_eq!(game.hard_drop(&mut rng, &mut ev), TickResult::GameOver);
    assert!(game.is_game_over());
    assert_eq!(ev.rows.len(), 2);
    assert_eq!(ev.game_overs, 1);
    assert_eq!(game.current_piece().kind, PieceKind::Tee);
}

#[test]
fn moves_are_refused_after_game_over() {
    let mut rng = Script(vec![3, 0, 4, 0], 0);
    let mut game = Game::<2, 8, 4>::new(&mut rng, &mut NoopEvents);
    assert_eq!(game.hard_drop(&mut rng, &mut NoopEvents), TickResult::GameOver);
    game.consume_changed();
    let before = game.current_piece();
    assert!(!game.move_left());
    assert!(!game.move_right());
    assert!(!game.rotate(Rotation::Cw));
    assert!(!game.rotate(Rotation::Ccw));
    assert_eq!(game.current_piece(), before);
    assert!(!game.has_changed());
}

#[test]
fn soft_drops_reach_the_hard_drop_lock() {
    let mut soft = Game::<4, 8, 4>::new(&mut Fixed(3), &mut NoopEvents);
    let mut hard = Game::<4, 8, 4>::new(&mut Fixed(3), &mut NoopEvents);
    let mut soft_ev = Recorder::default();
    let mut hard_ev = Recorder::default();
    let mut r = soft.soft_drop(&mut Fixed(3), &mut soft_ev);
    while r == TickResult::Moved {
        r = soft.soft_drop(&mut Fixed(3), &mut soft_ev);
    }
    assert_eq!(r, hard.hard_drop(&mut Fixed(3), &mut hard_ev));
    assert_eq!(soft_ev.blocks, hard_ev.blocks);
    assert_eq!(soft.current_piece(), hard.current_piece());
    assert_eq!(soft.level, hard.level);
    for x in 0..4 {
        for y in 0..8 {
            assert_eq!(soft.cell_view_at(x, y, true), hard.cell_view_at(x, y, true));
        }
    }
}

#[test]
fn spawn_with_rolls_picks_kind_then_shade() {
    let mut game = Game::<10, 24, 4>::new(&mut Fixed(3), &mut NoopEvents);
    assert!(game.spawn_with_rolls(0, 5));
    let p = game.current_piece();
    assert_eq!(p.kind, PieceKind::Line);
    assert_eq!(p.color, Rgb8::new(0, 0, 191));
    assert_eq!((p.x, p.y, p.rotation), (4, 0, 0));
}

#[test]
fn feature_insert_then_remove_restores_flags() {
    let f0 = FeatureFlags::new();
    let mut f = f0;
    f.insert(Feature::Music);
    f.remove(Feature::Music);
    assert_eq!(f, f0);
}

#[test]
fn deleting_rows_in_two_steps_matches_one_step() {
    let mut split = LevelState::new();
    let mut once = LevelState::new();
    let mut split_ev = Recorder::default();
    let mut once_ev = Recorder::default();
    split.on_rows_deleted(13, &mut split_ev);
    split.on_rows_deleted(19, &mut split_ev);
    once.on_rows_deleted(32, &mut once_ev);
    assert_eq!(split, once);
    assert_eq!(split_ev.music, once_ev.music);
    assert_eq!(once.current_level, 7);
}

#[test]
fn lcg_stream_follows_recurrence() {
    let mut g = Lcg32::new(7);
    let mut s: u32 = 7;
    for _ in 0..100 {
        s = s.wrapping_mul(1664525).wrapping_add(1013904223);
        assert_eq!(g.next_u32(), s);
    }
}

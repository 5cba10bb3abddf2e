//! Level, score and feature progression.

use vstd::prelude::*;

use crate::events::TetrisEvents;
use crate::features::{Feature, FeatureFlags};

verus! {

/// Built-in level, score, and feature progression.
#[derive(Clone, Copy, Debug, PartialEq, Eq, Structural)]
pub struct LevelState {
    /// First level.
    pub start_level: u8,
    /// Final level.
    pub end_level: u8,
    /// Current active level.
    pub current_level: u8,
    /// Score multiplier.
    pub multiplier: u16,
    /// Number of locked pieces.
    pub placed_pieces: u32,
    /// Number of cleared rows.
    pub rows_deleted: u32,
    /// Accumulated points.
    pub total_points: u32,
    /// Enabled feature flags.
    pub features: FeatureFlags,
}

/// The feature that reaching level `level` unlocks, if any.
pub open spec fn feature_for_level(level: int) -> Option<Feature> {
    if level == 2 {
        Some(Feature::Colors)
    } else if level == 3 {
        Some(Feature::Music)
    } else if level == 4 {
        Some(Feature::Preview)
    } else if level == 5 {
        Some(Feature::Rotation)
    } else if level == 6 {
        Some(Feature::ForwardBackward)
    } else if level == 7 {
        Some(Feature::Flashlight)
    } else if level == 8 {
        Some(Feature::SpinUpgrade)
    } else if level == 9 {
        Some(Feature::EvilBlocks)
    } else if level == 10 {
        Some(Feature::Shifted)
    } else {
        None
    }
}

/// The music track that reaching level `level` starts, if any.
pub open spec fn music_for_level(level: int) -> Option<u8> {
    if level == 3 {
        Some(0u8)
    } else if level == 7 {
        Some(1u8)
    } else {
        None
    }
}

/// `flags` with the features of every level in `from + 1 ..= to` enabled.
pub open spec fn unlocked(flags: FeatureFlags, from: int, to: int) -> FeatureFlags
    decreases to - from,
{
    if to <= from {
        flags
    } else {
        let before = unlocked(flags, from, to - 1);
        match feature_for_level(to) {
            Some(f) => before.spec_with(f),
            None => before,
        }
    }
}

/// The music tracks started when passing through levels `from + 1 ..= to`, in order.
pub open spec fn music_tracks(from: int, to: int) -> Seq<u8>
    decreases to - from,
{
    if to <= from {
        Seq::empty()
    } else {
        let before = music_tracks(from, to - 1);
        match music_for_level(to) {
            Some(t) => before.push(t),
            None => before,
        }
    }
}

/// The features that levels `from + 1 ..= to` unlock.
pub open spec fn features_between(from: int, to: int) -> Set<Feature> {
    Set::new(|f: Feature| exists|l: int| from < l <= to && #[trigger] feature_for_level(l) == Some(f))
}

/// Unlocking levels adds exactly their features to the enabled set.
pub proof fn lemma_unlocked_view(flags: FeatureFlags, from: int, to: int)
    ensures
        unlocked(flags, from, to)@ == flags@ + features_between(from, to),
    decreases to - from,
{
    if to <= from {
        assert(features_between(from, to) =~= Set::empty());
        assert(flags@ + Set::empty() =~= flags@);
    } else {
        lemma_unlocked_view(flags, from, to - 1);
        let before = unlocked(flags, from, to - 1);
        match feature_for_level(to) {
            Some(f) => {
                before.lemma_with(f);
                assert forall|g: Feature| features_between(from, to).contains(g)
                    == features_between(from, to - 1).insert(f).contains(g) by {
                    if features_between(from, to).contains(g) {
                        let l = choose|l: int| from < l <= to && #[trigger] feature_for_level(l) == Some(g);
                        if l < to {
                            assert(features_between(from, to - 1).contains(g));
                        }
                    }
                    if features_between(from, to - 1).contains(g) {
                        let l = choose|l: int| from < l <= to - 1 && #[trigger] feature_for_level(l) == Some(g);
                        assert(from < l <= to);
                    }
                    if g == f {
                        assert(feature_for_level(to) == Some(g));
                    }
                }
                assert(features_between(from, to) =~= features_between(from, to - 1).insert(f));
                assert(flags@ + features_between(from, to) =~= (flags@ + features_between(from, to - 1)).insert(f));
            },
            None => {
                assert forall|g: Feature| features_between(from, to).contains(g)
                    == features_between(from, to - 1).contains(g) by {
                    if features_between(from, to).contains(g) {
                        let l = choose|l: int| from < l <= to && #[trigger] feature_for_level(l) == Some(g);
                        assert(l != to);
                        assert(features_between(from, to - 1).contains(g));
                    }
                    if features_between(from, to - 1).contains(g) {
                        let l = choose|l: int| from < l <= to - 1 && #[trigger] feature_for_level(l) == Some(g);
                        assert(from < l <= to);
                    }
                }
                assert(features_between(from, to) =~= features_between(from, to - 1));
            },
        }
    }
}

/// `unlocked` through one more level.
proof fn lemma_unlocked_step(flags: FeatureFlags, from: int, to: int)
    requires
        from < to,
    ensures
        unlocked(flags, from, to) == (match feature_for_level(to) {
            Some(f) => unlocked(flags, from, to - 1).spec_with(f),
            None => unlocked(flags, from, to - 1),
        }),
        music_tracks(from, to) == (match music_for_level(to) {
            Some(t) => music_tracks(from, to - 1).push(t),
            None => music_tracks(from, to - 1),
        }),
{
}

impl LevelState {
    /// The level state that `new` creates.
    pub open spec fn spec_new() -> LevelState {
        LevelState {
            start_level: 1,
            end_level: 10,
            current_level: 1,
            multiplier: 1,
            placed_pieces: 0,
            rows_deleted: 0,
            total_points: 0,
            features: FeatureFlags::spec_new(),
        }
    }

    /// The level reached after `rows` deleted rows: one level per five rows from the start
    /// level, capped at the end level.
    pub open spec fn level_for_rows(self, rows: int) -> int {
        let raw = self.start_level + rows / 5;
        if self.end_level < raw {
            self.end_level as int
        } else {
            raw
        }
    }

    /// The state after `count` more rows were deleted.
    pub open spec fn after_rows_deleted(self, count: u32) -> LevelState {
        let rows = if self.rows_deleted + count > u32::MAX {
            u32::MAX
        } else {
            (self.rows_deleted + count) as u32
        };
        let level = self.level_for_rows(rows as int);
        LevelState {
            rows_deleted: rows,
            current_level: level as u8,
            features: unlocked(self.features, self.current_level as int, level),
            ..self
        }
    }

    /// The music tracks requested when `count` more rows are deleted, in order.
    pub open spec fn music_after_rows_deleted(self, count: u32) -> Seq<u8> {
        let next = self.after_rows_deleted(count);
        music_tracks(self.current_level as int, next.current_level as int)
    }

    /// The state after one more piece was placed.
    pub open spec fn after_piece_placed(self) -> LevelState {
        let points = self.total_points + self.current_level * self.multiplier;
        LevelState {
            placed_pieces: if self.placed_pieces + 1 > u32::MAX {
                u32::MAX
            } else {
                (self.placed_pieces + 1) as u32
            },
            total_points: if points > u32::MAX {
                u32::MAX
            } else {
                points as u32
            },
            ..self
        }
    }

    /// Creates the default level state.
    pub fn new() -> (s: Self)
        ensures
            s == Self::spec_new(),
            s.features@ == set![Feature::Minimum],
    {
        LevelState {
            start_level: 1,
            end_level: 10,
            current_level: 1,
            multiplier: 1,
            placed_pieces: 0,
            rows_deleted: 0,
            total_points: 0,
            features: FeatureFlags::new(),
        }
    }

    /// Rows remaining until the next level boundary, always in `1..=5`.
    pub fn next_level_in_rows(&self) -> (n: u32)
        ensures
            n == 5 - self.rows_deleted % 5,
            1 <= n <= 5,
    {
        5 - (self.rows_deleted % 5)
    }

    /// Current gravity interval in milliseconds: `400 - 25 * level`, but never below 50.
    pub fn level_speed_seconds(&self) -> (ms: u32)
        ensures
            ms == (if 400 - 25 * self.current_level < 50 {
                50
            } else {
                400 - 25 * self.current_level
            }),
            50 <= ms <= 400,
    {
        let speed_millis: i32 = 400i32 - (self.current_level as i32 * 25i32);
        if speed_millis < 50 {
            50
        } else {
            speed_millis as u32
        }
    }

    /// Updates the rows count, level and features after `count` rows were deleted, and
    /// returns the music tracks that the levels passed request, in order.
    pub fn record_rows_deleted(&mut self, count: u32) -> (tracks: Vec<u8>)
        ensures
            *final(self) == old(self).after_rows_deleted(count),
            tracks@ == old(self).music_after_rows_deleted(count),
            final(self).features@ == old(self).features@ + features_between(
                old(self).current_level as int,
                final(self).current_level as int,
            ),
    {
        let ghost start = *self;
        proof {
            lemma_unlocked_view(start.features, start.current_level as int,
                start.after_rows_deleted(count).current_level as int);
        }
        self.rows_deleted = self.rows_deleted.saturating_add(count);
        let old_level = self.current_level;
        let raw: u32 = self.start_level as u32 + self.rows_deleted / 5;
        let new_level: u8 = if (self.end_level as u32) < raw {
            self.end_level
        } else {
            raw as u8
        };
        self.current_level = new_level;
        let mut tracks: Vec<u8> = Vec::new();
        if new_level <= old_level {
            return tracks;
        }
        let mut lvl: u32 = old_level as u32 + 1;
        while lvl <= new_level as u32
            invariant
                old_level < new_level,
                old_level == start.current_level,
                new_level == start.after_rows_deleted(count).current_level,
                old_level + 1 <= lvl <= new_level + 1,
                *self == (LevelState { features: self.features, ..start.after_rows_deleted(count) }),
                self.features == unlocked(start.features, old_level as int, lvl - 1),
                tracks@ == music_tracks(old_level as int, lvl - 1),
            decreases new_level + 1 - lvl,
        {
            proof {
                lemma_unlocked_step(start.features, old_level as int, lvl as int);
            }
            if lvl == 2 {
                self.features.insert(Feature::Colors);
            } else if lvl == 3 {
                self.features.insert(Feature::Music);
                tracks.push(0);
            } else if lvl == 4 {
                self.features.insert(Feature::Preview);
            } else if lvl == 5 {
                self.features.insert(Feature::Rotation);
            } else if lvl == 6 {
                self.features.insert(Feature::ForwardBackward);
            } else if lvl == 7 {
                self.features.insert(Feature::Flashlight);
                tracks.push(1);
            } else if lvl == 8 {
                self.features.insert(Feature::SpinUpgrade);
            } else if lvl == 9 {
                self.features.insert(Feature::EvilBlocks);
            } else if lvl == 10 {
                self.features.insert(Feature::Shifted);
            }
            lvl = lvl + 1;
        }
        tracks
    }

    /// Updates level state after rows were deleted and requests music changes from
    /// `events`.
    pub fn on_rows_deleted<T: TetrisEvents>(&mut self, count: u32, events: &mut T)
        ensures
            *final(self) == old(self).after_rows_deleted(count),
            final(self).features@ == old(self).features@ + features_between(
                old(self).current_level as int,
                final(self).current_level as int,
            ),
    {
        let tracks = self.record_rows_deleted(count);
        let mut i: usize = 0;
        while i < tracks.len()
            invariant
                0 <= i <= tracks.len(),
            decreases tracks.len() - i,
        {
            events.on_music(tracks[i]);
            i = i + 1;
        }
    }

    /// Updates score and placed-piece count after a piece locks: one more piece, and
    /// `current_level * multiplier` more points, both saturating.
    pub fn on_piece_placed(&mut self)
        ensures
            *final(self) == old(self).after_piece_placed(),
    {
        self.placed_pieces = self.placed_pieces.saturating_add(1);
        let level = self.current_level as u32;
        let mult = self.multiplier as u32;
        assert(level * mult <= 255 * 65535) by (nonlinear_arith)
            requires
                level <= 255,
                mult <= 65535,
        ;
        let gain: u32 = level * mult;
        self.total_points = self.total_points.saturating_add(gain);
    }
}

/// Deleting rows never takes the level above the end level, and never disables a feature.
pub proof fn lemma_rows_deleted_bounded(l: LevelState, count: u32)
    ensures
        l.after_rows_deleted(count).current_level <= l.end_level,
        l.features@ <= l.after_rows_deleted(count).features@,
        l.after_rows_deleted(count).rows_deleted >= l.rows_deleted,
{
    lemma_unlocked_view(l.features, l.current_level as int, l.after_rows_deleted(count).current_level as int);
}

proof fn lemma_unlocked_compose(flags: FeatureFlags, a: int, b: int, c: int)
    requires
        a <= b <= c,
    ensures
        unlocked(unlocked(flags, a, b), b, c) == unlocked(flags, a, c),
        music_tracks(a, b) + music_tracks(b, c) == music_tracks(a, c),
    decreases c - b,
{
    if c > b {
        lemma_unlocked_compose(flags, a, b, c - 1);
        assert((music_tracks(a, b) + music_tracks(b, c - 1)).push(1u8) =~= music_tracks(a, b) + music_tracks(b, c - 1).push(1u8));
        assert((music_tracks(a, b) + music_tracks(b, c - 1)).push(0u8) =~= music_tracks(a, b) + music_tracks(b, c - 1).push(0u8));
    } else {
        assert(music_tracks(a, b) + music_tracks(b, c) =~= music_tracks(a, b));
    }
}

/// Deleting `a` rows and then `b` rows is the same as deleting `a + b` rows at once, and
/// requests the same music, for a level state whose level matches its row count.
pub proof fn lemma_rows_deleted_compose(l: LevelState, a: u32, b: u32)
    requires
        l.current_level as int == l.level_for_rows(l.rows_deleted as int),
        a + b <= u32::MAX,
    ensures
        l.after_rows_deleted(a).after_rows_deleted(b) == l.after_rows_deleted((a + b) as u32),
        l.music_after_rows_deleted(a) + l.after_rows_deleted(a).music_after_rows_deleted(b)
            == l.music_after_rows_deleted((a + b) as u32),
{
    let m = l.after_rows_deleted(a);
    let r0 = l.rows_deleted as int;
    let r1 = m.rows_deleted as int;
    let r2 = l.after_rows_deleted((a + b) as u32).rows_deleted as int;
    assert(r0 <= r1 <= r2);
    assert(r0 / 5 <= r1 / 5 <= r2 / 5) by (nonlinear_arith)
        requires
            0 <= r0 <= r1 <= r2,
    ;
    lemma_unlocked_compose(
        l.features,
        l.current_level as int,
        m.current_level as int,
        l.after_rows_deleted((a + b) as u32).current_level as int,
    );
}

/// Deleting rows unlocks, for each level passed (above the old level, up to the new one),
/// that level's feature: level 2 Colors, 3 Music, 4 Preview, 5 Rotation, 6 ForwardBackward,
/// 7 Flashlight, 8 SpinUpgrade, 9 EvilBlocks, 10 Shifted. No other feature changes.
pub proof fn lemma_level_unlocks(l: LevelState, count: u32)
    ensures
        ({
            let before = l.features@;
            let after = l.after_rows_deleted(count).features@;
            let lo = l.current_level as int;
            let hi = l.after_rows_deleted(count).current_level as int;
            &&& after.contains(Feature::Minimum) == before.contains(Feature::Minimum)
            &&& after.contains(Feature::Colors) == (before.contains(Feature::Colors) || lo < 2 <= hi)
            &&& after.contains(Feature::Music) == (before.contains(Feature::Music) || lo < 3 <= hi)
            &&& after.contains(Feature::Preview) == (before.contains(Feature::Preview) || lo < 4 <= hi)
            &&& after.contains(Feature::Rotation) == (before.contains(Feature::Rotation) || lo < 5 <= hi)
            &&& after.contains(Feature::ForwardBackward) == (before.contains(Feature::ForwardBackward)
                || lo < 6 <= hi)
            &&& after.contains(Feature::Flashlight) == (before.contains(Feature::Flashlight) || lo < 7
                <= hi)
            &&& after.contains(Feature::SpinUpgrade) == (before.contains(Feature::SpinUpgrade) || lo < 8
                <= hi)
            &&& after.contains(Feature::EvilBlocks) == (before.contains(Feature::EvilBlocks) || lo < 9
                <= hi)
            &&& after.contains(Feature::Shifted) == (before.contains(Feature::Shifted) || lo < 10 <= hi)
        }),
{
    let lo = l.current_level as int;
    let hi = l.after_rows_deleted(count).current_level as int;
    lemma_unlocked_view(l.features, lo, hi);
    let fb = features_between(lo, hi);
    assert(fb.contains(Feature::Minimum) == false);
    assert(fb.contains(Feature::Colors) == (lo < 2 <= hi)) by {
        if lo < 2 <= hi {
            assert(feature_for_level(2) == Some(Feature::Colors));
        }
    }
    assert(fb.contains(Feature::Music) == (lo < 3 <= hi)) by {
        if lo < 3 <= hi {
            assert(feature_for_level(3) == Some(Feature::Music));
        }
    }
    assert(fb.contains(Feature::Preview) == (lo < 4 <= hi)) by {
        if lo < 4 <= hi {
            assert(feature_for_level(4) == Some(Feature::Preview));
        }
    }
    assert(fb.contains(Feature::Rotation) == (lo < 5 <= hi)) by {
        if lo < 5 <= hi {
            assert(feature_for_level(5) == Some(Feature::Rotation));
        }
    }
    assert(fb.contains(Feature::ForwardBackward) == (lo < 6 <= hi)) by {
        if lo < 6 <= hi {
            assert(feature_for_level(6) == Some(Feature::ForwardBackward));
        }
    }
    assert(fb.contains(Feature::Flashlight) == (lo < 7 <= hi)) by {
        if lo < 7 <= hi {
            assert(feature_for_level(7) == Some(Feature::Flashlight));
        }
    }
    assert(fb.contains(Feature::SpinUpgrade) == (lo < 8 <= hi)) by {
        if lo < 8 <= hi {
            assert(feature_for_level(8) == Some(Feature::SpinUpgrade));
        }
    }
    assert(fb.contains(Feature::EvilBlocks) == (lo < 9 <= hi)) by {
        if lo < 9 <= hi {
            assert(feature_for_level(9) == Some(Feature::EvilBlocks));
        }
    }
    assert(fb.contains(Feature::Shifted) == (lo < 10 <= hi)) by {
        if lo < 10 <= hi {
            assert(feature_for_level(10) == Some(Feature::Shifted));
        }
    }
}

/// Placing a piece counts it and never lowers the score.
pub proof fn lemma_piece_placed_monotone(l: LevelState)
    ensures
        l.after_piece_placed().total_points >= l.total_points,
        l.after_piece_placed().placed_pieces >= l.placed_pieces,
        l.placed_pieces < u32::MAX ==> l.after_piece_placed().placed_pieces == l.placed_pieces + 1,
{
}

impl Default for LevelState {
    /// The same as [`LevelState::new`].
    fn default() -> (s: Self)
        ensures
            s == Self::spec_new(),
            s.features@ == set![Feature::Minimum],
    {
        Self::new()
    }
}

} // verus!

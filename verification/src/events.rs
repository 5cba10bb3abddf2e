//! What the platform hands the engine (randomness) and what the engine hands
//! back (event callbacks).

use vstd::prelude::*;

use crate::color::Rgb8;

verus! {

/// Event hooks emitted by the engine. Every hook does nothing by default.
pub trait TetrisEvents {
    /// Called for each block written to the board when a piece locks.
    fn on_block_placed(&mut self, _color: Rgb8, _x: usize, _y: usize) {
    }

    /// Called when level progression requests a music change.
    fn on_music(&mut self, _track_id: u8) {
    }

    /// Called before a full row is removed.
    fn on_row_deleted(&mut self, _row: usize, _colors: &[Option<Rgb8>]) {
    }

    /// Called when the game reaches a terminal game-over state.
    fn on_game_over(&mut self) {
    }
}

/// Event sink that ignores every callback.
pub struct NoopEvents;

impl TetrisEvents for NoopEvents {

}

/// Random source used by the engine for piece kinds and shades.
pub trait RandomSource {
    /// Returns the next random `u32`.
    fn next_u32(&mut self) -> u32;
}

/// Tiny deterministic linear-congruential random source.
#[derive(Clone, Copy, Debug)]
pub struct Lcg32 {
    state: u32,
}

/// One step of the generator: `state * 1664525 + 1013904223` modulo `2^32`.
pub open spec fn lcg_step(state: u32) -> u32 {
    ((state as int * 1664525 + 1013904223) % 0x1_0000_0000) as u32
}

/// The state after `n` steps from `seed`.
pub open spec fn lcg_iter(seed: u32, n: nat) -> u32
    decreases n,
{
    if n == 0 {
        seed
    } else {
        lcg_step(lcg_iter(seed, (n - 1) as nat))
    }
}

proof fn lemma_lcg_stream_at(seed: u32, run: Seq<Lcg32>, i: int)
    requires
        0 <= i < run.len(),
        run[0].state() == seed,
        forall|k: int| 0 <= k < run.len() - 1 ==> #[trigger] run[k + 1].state() == lcg_step(run[k].state()),
    ensures
        run[i].state() == lcg_iter(seed, i as nat),
    decreases i,
{
    if i > 0 {
        lemma_lcg_stream_at(seed, run, i - 1);
        assert(run[(i - 1) + 1].state() == lcg_step(run[i - 1].state()));
    }
}

/// A run of generators, each one step after the one before (as `next_u32` leaves it),
/// starting from `seed`, passes through the states `lcg_iter(seed, i)`: the stream depends
/// on the seed alone, so two generators made from the same seed give the same values.
pub proof fn lemma_lcg_stream(seed: u32, run: Seq<Lcg32>)
    requires
        run.len() >= 1,
        run[0].state() == seed,
        forall|i: int| 0 <= i < run.len() - 1 ==> #[trigger] run[i + 1].state() == lcg_step(run[i].state()),
    ensures
        forall|i: int| 0 <= i < run.len() ==> #[trigger] run[i].state() == lcg_iter(seed, i as nat),
{
    assert forall|i: int| 0 <= i < run.len() implies #[trigger] run[i].state() == lcg_iter(seed, i as nat) by {
        lemma_lcg_stream_at(seed, run, i);
    }
}

impl Lcg32 {
    /// The generator's current state.
    pub closed spec fn state(self) -> u32 {
        self.state
    }

    /// Creates a new generator from `seed`.
    pub fn new(seed: u32) -> (g: Self)
        ensures
            g.state() == seed,
    {
        Lcg32 { state: seed }
    }
}

impl RandomSource for Lcg32 {
    /// Advances the state by one step and returns the new state.
    fn next_u32(&mut self) -> (r: u32)
        ensures
            r == lcg_step(old(self).state()),
            final(self).state() == r,
    {
        let next = self.state.wrapping_mul(1664525).wrapping_add(1013904223);
        proof {
            let x = self.state as int * 1664525;
            let m = x % 0x1_0000_0000;
            vstd::arithmetic::div_mod::lemma_add_mod_noop(x, 1013904223, 0x1_0000_0000);
            assert(m + 1013904223 < 2 * 0x1_0000_0000);
            assert(next == (m + 1013904223) % 0x1_0000_0000);
        }
        self.state = next;
        next
    }
}

} // verus!

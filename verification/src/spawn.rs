//! Choosing the kind and color of a newly spawned piece from random rolls.

use vstd::prelude::*;

use crate::color::Rgb8;
use crate::piece::PieceKind;

verus! {

/// The piece kinds in spawn order: `ALL[i]`.
pub open spec fn kind_at(i: int) -> PieceKind {
    if i == 0 {
        PieceKind::Line
    } else if i == 1 {
        PieceKind::ZigZag
    } else if i == 2 {
        PieceKind::L
    } else if i == 3 {
        PieceKind::Square
    } else if i == 4 {
        PieceKind::Tee
    } else if i == 5 {
        PieceKind::Dot
    } else if i == 6 {
        PieceKind::J
    } else {
        PieceKind::Evil
    }
}

/// The kind a roll picks: uniformly by remainder among all eight kinds when evil blocks
/// are allowed, else among the seven others.
pub open spec fn kind_for_roll(allow_evil: bool, roll: u32) -> PieceKind {
    if allow_evil {
        kind_at(roll as int % 8)
    } else {
        kind_at(roll as int % 7)
    }
}

/// Rolls pick kinds from the spawn tables: without evil blocks roll `r` picks
/// `NON_EVIL[r % 7]` and never the evil block, with them it picks `ALL[r % 8]`; every
/// kind the table holds is picked by some roll (roll 6 picks a J either way).
pub proof fn lemma_rolls_cover_kinds(roll: u32, kind: PieceKind)
    ensures
        kind_for_roll(false, roll) == PieceKind::NON_EVIL[roll as int % 7],
        kind_for_roll(true, roll) == PieceKind::ALL[roll as int % 8],
        kind_for_roll(false, roll) != PieceKind::Evil,
        kind != PieceKind::Evil ==> exists|r: u32| kind_for_roll(false, r) == kind,
        exists|r: u32| kind_for_roll(true, r) == kind,
        kind_for_roll(false, 6) == PieceKind::J,
        kind_for_roll(true, 6) == PieceKind::J,
{
    assert(kind_for_roll(false, 0) == PieceKind::Line);
    assert(kind_for_roll(false, 1) == PieceKind::ZigZag);
    assert(kind_for_roll(false, 2) == PieceKind::L);
    assert(kind_for_roll(false, 3) == PieceKind::Square);
    assert(kind_for_roll(false, 4) == PieceKind::Tee);
    assert(kind_for_roll(false, 5) == PieceKind::Dot);
    assert(kind_for_roll(false, 6) == PieceKind::J);
    assert(kind_for_roll(true, 0) == PieceKind::Line);
    assert(kind_for_roll(true, 1) == PieceKind::ZigZag);
    assert(kind_for_roll(true, 2) == PieceKind::L);
    assert(kind_for_roll(true, 3) == PieceKind::Square);
    assert(kind_for_roll(true, 4) == PieceKind::Tee);
    assert(kind_for_roll(true, 5) == PieceKind::Dot);
    assert(kind_for_roll(true, 6) == PieceKind::J);
    assert(kind_for_roll(true, 7) == PieceKind::Evil);
}

/// The kind a roll picks, as [`kind_for_roll`] states.
pub fn kind_from_roll(allow_evil: bool, roll: u32) -> (kind: PieceKind)
    ensures
        kind == kind_for_roll(allow_evil, roll),
{
    if allow_evil {
        let i = (roll as usize) % 8;
        PieceKind::ALL[i]
    } else {
        let i = (roll as usize) % 7;
        PieceKind::NON_EVIL[i]
    }
}


/// The full-brightness color of each kind.
pub open spec fn base_color(kind: PieceKind) -> (u8, u8, u8) {
    match kind {
        PieceKind::Line => (0u8, 0u8, 255u8),
        PieceKind::ZigZag => (0u8, 255u8, 0u8),
        PieceKind::L => (255u8, 0u8, 0u8),
        PieceKind::Square => (255u8, 255u8, 0u8),
        PieceKind::Tee => (255u8, 0u8, 255u8),
        PieceKind::Dot => (0u8, 255u8, 255u8),
        PieceKind::J => (255u8, 128u8, 0u8),
        PieceKind::Evil => (200u8, 200u8, 200u8),
    }
}

/// `base` darkened by `5 * step` percent (never below zero percent), rounded down.
pub open spec fn shaded(base: u8, step: u8) -> u8 {
    let factor = if 5 * step > 100 {
        0
    } else {
        100 - 5 * step
    };
    (base * factor / 100) as u8
}

/// The color a shade roll gives a piece of `kind`: its base color darkened by one of six
/// steps, `roll % 6`.
pub open spec fn color_for_roll(kind: PieceKind, roll: u32) -> Rgb8 {
    let step = (roll % 6) as u8;
    let base = base_color(kind);
    Rgb8 { r: shaded(base.0, step), g: shaded(base.1, step), b: shaded(base.2, step) }
}

/// Shading only darkens, by at most a quarter: a shade roll that is a multiple of 6 keeps
/// the base color, a higher shade step never gives a brighter channel, and every channel
/// stays between three quarters of its base value (rounded down) and the base value.
pub proof fn lemma_shading_darkens(base: u8, s1: u8, s2: u8)
    requires
        s1 <= s2 < 6,
    ensures
        shaded(base, 0) == base,
        shaded(base, s2) <= shaded(base, s1) <= base,
        base * 3 / 4 <= shaded(base, s2),
{
    let f1 = 100 - 5 * s1;
    let f2 = 100 - 5 * s2;
    assert(base * 100 / 100 == base);
    assert(base * f2 / 100 <= base * f1 / 100 <= base) by (nonlinear_arith)
        requires
            0 <= base,
            75 <= f2 <= f1 <= 100,
    ;
    assert(base * 3 / 4 <= base * f2 / 100) by (nonlinear_arith)
        requires
            0 <= base,
            75 <= f2,
    ;
}

/// `base` darkened by `5 * step` percent.
fn shade_channel(base: u8, step: u8) -> (c: u8)
    ensures
        c == shaded(base, step),
{
    let factor: u16 = 100u16.saturating_sub(step as u16 * 5);
    assert(base as u16 * factor <= 255 * 100) by (nonlinear_arith)
        requires
            base <= 255,
            factor <= 100,
    ;
    let v: u16 = (base as u16 * factor) / 100;
    assert(v <= base) by (nonlinear_arith)
        requires
            v == (base as int * factor) / 100,
            factor <= 100,
            base >= 0,
    ;
    v as u8
}

/// The color a shade roll gives a piece of `kind`, as [`color_for_roll`] states.
pub fn color_from_roll(kind: PieceKind, roll: u32) -> (c: Rgb8)
    ensures
        c == color_for_roll(kind, roll),
{
    let (r, g, b): (u8, u8, u8) = match kind {
        PieceKind::Line => (0, 0, 255),
        PieceKind::ZigZag => (0, 255, 0),
        PieceKind::L => (255, 0, 0),
        PieceKind::Square => (255, 255, 0),
        PieceKind::Tee => (255, 0, 255),
        PieceKind::Dot => (0, 255, 255),
        PieceKind::J => (255, 128, 0),
        PieceKind::Evil => (200, 200, 200),
    };
    let step = (roll % 6) as u8;
    Rgb8::new(shade_channel(r, step), shade_channel(g, step), shade_channel(b, step))
}

} // verus!

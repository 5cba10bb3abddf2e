//! Piece shapes, their rotations, and the active piece.

use vstd::prelude::*;

use crate::color::Rgb8;

verus! {

/// Tetris-like piece shape.
#[derive(Clone, Copy, Debug, PartialEq, Eq, Structural)]
pub enum PieceKind {
    Line,
    ZigZag,
    L,
    Square,
    Tee,
    Dot,
    J,
    Evil,
}

impl PieceKind {
    /// All standard non-evil pieces.
    pub const NON_EVIL: [PieceKind; 7] = [
        PieceKind::Line,
        PieceKind::ZigZag,
        PieceKind::L,
        PieceKind::Square,
        PieceKind::Tee,
        PieceKind::Dot,
        PieceKind::J,
    ];

    /// Every piece this engine can spawn, including the optional evil block.
    pub const ALL: [PieceKind; 8] = [
        PieceKind::Line,
        PieceKind::ZigZag,
        PieceKind::L,
        PieceKind::Square,
        PieceKind::Tee,
        PieceKind::Dot,
        PieceKind::J,
        PieceKind::Evil,
    ];
}

/// Rotation direction for Tetris-like pieces.
#[derive(Clone, Copy, Debug, PartialEq, Eq, Structural)]
pub enum Rotation {
    /// Clockwise rotation.
    Cw,
    /// Counter-clockwise rotation.
    Ccw,
}

/// A cell offset inside a piece's 4x4 bounding box.
#[derive(Clone, Copy, Debug, PartialEq, Eq, Structural)]
pub(crate) struct Point {
    pub(crate) x: i16,
    pub(crate) y: i16,
}

/// The offsets held in a vector of points, as pairs of integers.
pub(crate) open spec fn offsets_of(v: Seq<Point>) -> Seq<(int, int)> {
    Seq::new(v.len(), |i: int| (v[i].x as int, v[i].y as int))
}

/// Number of cells a piece of `kind` occupies.
pub open spec fn spec_cell_count(kind: PieceKind) -> int {
    match kind {
        PieceKind::Evil => 8,
        PieceKind::Dot => 1,
        _ => 4,
    }
}

/// The cells of an unrotated piece, as (x, y) offsets with y pointing down.
pub open spec fn base_offsets(kind: PieceKind) -> Seq<(int, int)> {
    match kind {
        PieceKind::Line => seq![(1int, 0int), (1, 1), (1, 2), (1, 3)],
        PieceKind::ZigZag => seq![(0int, 0int), (0, 1), (1, 1), (2, 1)],
        PieceKind::L => seq![(0int, 0int), (0, 1), (0, 2), (1, 2)],
        PieceKind::Square => seq![(0int, 0int), (1, 0), (0, 1), (1, 1)],
        PieceKind::Tee => seq![(1int, 0int), (0, 1), (1, 1), (2, 1)],
        PieceKind::Dot => seq![(0int, 0int)],
        PieceKind::J => seq![(1int, 0int), (1, 1), (1, 2), (0, 2)],
        PieceKind::Evil => seq![
            (0int, 0int),
            (1, 0),
            (2, 0),
            (0, 1),
            (2, 1),
            (0, 2),
            (1, 2),
            (2, 2),
        ],
    }
}

/// `p` turned `t` quarter turns clockwise inside the 4x4 box: `(x, y)` goes to `(3 - y, x)`.
pub open spec fn turn(p: (int, int), t: nat) -> (int, int)
    decreases t,
{
    if t == 0 {
        p
    } else {
        let q = turn(p, (t - 1) as nat);
        (3 - q.1, q.0)
    }
}

/// Smallest x among the offsets of a non-empty sequence.
pub open spec fn min_x(s: Seq<(int, int)>) -> int
    decreases s.len(),
{
    if s.len() <= 1 {
        s[0].0
    } else {
        let m = min_x(s.drop_last());
        if s.last().0 < m {
            s.last().0
        } else {
            m
        }
    }
}

/// Smallest y among the offsets of a non-empty sequence.
pub open spec fn min_y(s: Seq<(int, int)>) -> int
    decreases s.len(),
{
    if s.len() <= 1 {
        s[0].1
    } else {
        let m = min_y(s.drop_last());
        if s.last().1 < m {
            s.last().1
        } else {
            m
        }
    }
}

/// The offsets shifted so that the smallest x and the smallest y are both zero.
pub open spec fn normalized(s: Seq<(int, int)>) -> Seq<(int, int)> {
    Seq::new(s.len(), |i: int| (s[i].0 - min_x(s), s[i].1 - min_y(s)))
}

/// The cells of a piece of `kind` at rotation index `rotation`: the base cells turned
/// `rotation % 4` quarter turns and moved back to the top-left corner. Squares and dots
/// do not turn.
pub open spec fn piece_offsets(kind: PieceKind, rotation: u8) -> Seq<(int, int)> {
    let t = (rotation % 4) as nat;
    let base = base_offsets(kind);
    if t == 0 || kind == PieceKind::Square || kind == PieceKind::Dot {
        base
    } else {
        normalized(Seq::new(base.len(), |i: int| turn(base[i], t)))
    }
}

/// All offsets lie in the 4x4 box.
pub open spec fn in_box(s: Seq<(int, int)>) -> bool {
    forall|i: int| 0 <= i < s.len() ==> 0 <= #[trigger] s[i].0 <= 3 && 0 <= s[i].1 <= 3
}

proof fn lemma_turn_in_box(p: (int, int), t: nat)
    requires
        0 <= p.0 <= 3,
        0 <= p.1 <= 3,
    ensures
        0 <= turn(p, t).0 <= 3,
        0 <= turn(p, t).1 <= 3,
    decreases t,
{
    if t > 0 {
        lemma_turn_in_box(p, (t - 1) as nat);
    }
}

proof fn lemma_min_bounds(s: Seq<(int, int)>)
    requires
        s.len() >= 1,
        in_box(s),
    ensures
        0 <= min_x(s) <= 3,
        0 <= min_y(s) <= 3,
        forall|i: int| 0 <= i < s.len() ==> min_x(s) <= #[trigger] s[i].0 && min_y(s) <= s[i].1,
    decreases s.len(),
{
    if s.len() > 1 {
        let t = s.drop_last();
        assert(in_box(t)) by {
            assert forall|i: int| 0 <= i < t.len() implies 0 <= #[trigger] t[i].0 <= 3 && 0 <= t[i].1
                <= 3 by {
                assert(t[i] == s[i]);
            }
        }
        lemma_min_bounds(t);
        assert forall|i: int| 0 <= i < s.len() implies min_x(s) <= #[trigger] s[i].0 && min_y(s)
            <= s[i].1 by {
            if i < s.len() - 1 {
                assert(t[i] == s[i]);
            }
        }
    }
}

/// Every piece has `spec_cell_count` cells, all inside the 4x4 box.
pub proof fn lemma_offsets_in_box(kind: PieceKind, rotation: u8)
    ensures
        piece_offsets(kind, rotation).len() == spec_cell_count(kind),
        in_box(piece_offsets(kind, rotation)),
{
    let base = base_offsets(kind);
    assert(base.len() == spec_cell_count(kind));
    assert(in_box(base));
    let t = (rotation % 4) as nat;
    if !(t == 0 || kind == PieceKind::Square || kind == PieceKind::Dot) {
        let turned = Seq::new(base.len(), |i: int| turn(base[i], t));
        assert forall|i: int| 0 <= i < turned.len() implies 0 <= #[trigger] turned[i].0 <= 3 && 0
            <= turned[i].1 <= 3 by {
            lemma_turn_in_box(base[i], t);
        }
        lemma_min_bounds(turned);
    }
}

/// Number of cells a piece of `kind` occupies.
pub(crate) fn cell_count(kind: PieceKind) -> (n: usize)
    ensures
        n == spec_cell_count(kind),
{
    match kind {
        PieceKind::Evil => 8,
        PieceKind::Dot => 1,
        _ => 4,
    }
}

impl Point {
    fn new(x: i16, y: i16) -> (p: Point)
        ensures
            p == (Point { x, y }),
    {
        Point { x, y }
    }
}

/// The cells of an unrotated piece.
fn base_cells(kind: PieceKind) -> (v: Vec<Point>)
    ensures
        offsets_of(v@) == base_offsets(kind),
        v.len() == spec_cell_count(kind),
{
    let v = match kind {
        PieceKind::Line => vec![Point::new(1, 0), Point::new(1, 1), Point::new(1, 2), Point::new(1, 3)],
        PieceKind::ZigZag => vec![Point::new(0, 0), Point::new(0, 1), Point::new(1, 1), Point::new(2, 1)],
        PieceKind::L => vec![Point::new(0, 0), Point::new(0, 1), Point::new(0, 2), Point::new(1, 2)],
        PieceKind::Square => vec![Point::new(0, 0), Point::new(1, 0), Point::new(0, 1), Point::new(1, 1)],
        PieceKind::Tee => vec![Point::new(1, 0), Point::new(0, 1), Point::new(1, 1), Point::new(2, 1)],
        PieceKind::Dot => vec![Point::new(0, 0)],
        PieceKind::J => vec![Point::new(1, 0), Point::new(1, 1), Point::new(1, 2), Point::new(0, 2)],
        PieceKind::Evil => vec![
            Point::new(0, 0),
            Point::new(1, 0),
            Point::new(2, 0),
            Point::new(0, 1),
            Point::new(2, 1),
            Point::new(0, 2),
            Point::new(1, 2),
            Point::new(2, 2),
        ],
    };
    assert(offsets_of(v@) =~= base_offsets(kind));
    v
}

/// The offsets shifted left by `dx` and up by `dy`.
pub open spec fn shifted(s: Seq<(int, int)>, dx: int, dy: int) -> Seq<(int, int)> {
    Seq::new(s.len(), |i: int| (s[i].0 - dx, s[i].1 - dy))
}

/// The smallest x and the smallest y of a non-empty sequence are values it holds, and no
/// element lies below them.
pub proof fn lemma_min_attained(s: Seq<(int, int)>)
    requires
        s.len() >= 1,
    ensures
        forall|i: int| 0 <= i < s.len() ==> min_x(s) <= #[trigger] s[i].0 && min_y(s) <= s[i].1,
        exists|i: int| 0 <= i < s.len() && #[trigger] s[i].0 == min_x(s),
        exists|i: int| 0 <= i < s.len() && #[trigger] s[i].1 == min_y(s),
    decreases s.len(),
{
    if s.len() > 1 {
        let t = s.drop_last();
        lemma_min_attained(t);
        assert forall|i: int| 0 <= i < s.len() implies min_x(s) <= #[trigger] s[i].0 && min_y(s)
            <= s[i].1 by {
            if i < s.len() - 1 {
                assert(t[i] == s[i]);
            }
        }
        let jx = choose|i: int| 0 <= i < t.len() && #[trigger] t[i].0 == min_x(t);
        let jy = choose|i: int| 0 <= i < t.len() && #[trigger] t[i].1 == min_y(t);
        assert(s[jx] == t[jx]);
        assert(s[jy] == t[jy]);
        assert(s[s.len() - 1] == s.last());
        if s.last().1 < min_y(t) {
            assert(s[s.len() - 1].1 == min_y(s));
        } else {
            assert(s[jy].1 == min_y(s));
        }
        if s.last().0 < min_x(t) {
            assert(s[s.len() - 1].0 == min_x(s));
        } else {
            assert(s[jx].0 == min_x(s));
        }
    } else {
        assert(s[0].0 == min_x(s));
        assert(s[0].1 == min_y(s));
    }
}

proof fn lemma_min_shifted(s: Seq<(int, int)>, dx: int, dy: int)
    requires
        s.len() >= 1,
    ensures
        min_x(shifted(s, dx, dy)) == min_x(s) - dx,
        min_y(shifted(s, dx, dy)) == min_y(s) - dy,
    decreases s.len(),
{
    if s.len() > 1 {
        lemma_min_shifted(s.drop_last(), dx, dy);
        assert(shifted(s, dx, dy).drop_last() =~= shifted(s.drop_last(), dx, dy));
    }
}

/// Normalizing twice is the same as normalizing once: afterwards the smallest x and the
/// smallest y are zero.
pub proof fn lemma_normalized_twice(s: Seq<(int, int)>)
    requires
        s.len() >= 1,
    ensures
        min_x(normalized(s)) == 0,
        min_y(normalized(s)) == 0,
        normalized(normalized(s)) == normalized(s),
{
    lemma_min_shifted(s, min_x(s), min_y(s));
    assert(normalized(s) =~= shifted(s, min_x(s), min_y(s)));
    assert(normalized(normalized(s)) =~= normalized(s));
}

/// Shifts the points so that their smallest x and smallest y become zero.
fn normalize_points(points: &mut Vec<Point>)
    requires
        old(points).len() >= 1,
        forall|i: int|
            0 <= i < old(points).len() ==> #[trigger] offsets_of(old(points)@)[i].0 - min_x(
                offsets_of(old(points)@),
            ) <= i16::MAX && offsets_of(old(points)@)[i].1 - min_y(offsets_of(old(points)@))
                <= i16::MAX,
    ensures
        offsets_of(final(points)@) == normalized(offsets_of(old(points)@)),
{
    let ghost s = offsets_of(points@);
    let count = points.len();
    proof {
        lemma_min_attained(s);
    }
    let mut lo_x: i16 = i16::MAX;
    let mut lo_y: i16 = i16::MAX;
    let mut i: usize = 0;
    while i < count
        invariant
            count == points.len(),
            s == offsets_of(points@),
            s.len() >= 1,
            0 <= i <= count,
            i == 0 ==> lo_x == i16::MAX && lo_y == i16::MAX,
            i > 0 ==> lo_x == min_x(s.take(i as int)) && lo_y == min_y(s.take(i as int)),
        decreases count - i,
    {
        let p = points[i];
        proof {
            let t = s.take(i as int + 1);
            assert(t.drop_last() =~= s.take(i as int));
            assert(t.last() == s[i as int]);
        }
        if p.x < lo_x {
            lo_x = p.x;
        }
        if p.y < lo_y {
            lo_y = p.y;
        }
        i = i + 1;
    }
    assert(s.take(count as int) =~= s);
    let mut j: usize = 0;
    while j < count
        invariant
            count == points.len(),
            s.len() == count,
            s.len() >= 1,
            lo_x == min_x(s),
            lo_y == min_y(s),
            forall|k: int| 0 <= k < s.len() ==> min_x(s) <= #[trigger] s[k].0 && min_y(s) <= s[k].1,
            forall|k: int|
                0 <= k < s.len() ==> #[trigger] s[k].0 - min_x(s) <= i16::MAX && s[k].1 - min_y(s)
                    <= i16::MAX,
            0 <= j <= count,
            forall|k: int|
                0 <= k < j ==> #[trigger] offsets_of(points@)[k] == normalized(s)[k],
            forall|k: int| j <= k < count ==> #[trigger] offsets_of(points@)[k] == s[k],
        decreases count - j,
    {
        let p = points[j];
        let ghost prev = points@;
        assert(offsets_of(points@)[j as int] == s[j as int]);
        assert(p.x as int == s[j as int].0 && p.y as int == s[j as int].1);
        points.set(j, Point { x: p.x - lo_x, y: p.y - lo_y });
        assert forall|k: int| 0 <= k < count && k != j implies #[trigger] offsets_of(points@)[k]
            == offsets_of(prev)[k] by {
            assert(points@[k] == prev[k]);
        }
        j = j + 1;
    }
    assert(offsets_of(points@) =~= normalized(s));
}

/// The cells of a piece of `kind` at rotation index `rotation`.
pub(crate) fn rotated_cells(kind: PieceKind, rotation: u8) -> (v: Vec<Point>)
    ensures
        offsets_of(v@) == piece_offsets(kind, rotation),
{
    let mut out = base_cells(kind);
    let ghost base = base_offsets(kind);
    let count = cell_count(kind);
    let turns: u8 = rotation & 3;
    assert(rotation & 3 == rotation % 4) by (bit_vector);
    if turns == 0 || kind == PieceKind::Square || kind == PieceKind::Dot {
        return out;
    }
    let mut t: u8 = 0;
    while t < turns
        invariant
            0 <= t <= turns,
            turns < 4,
            count == out.len(),
            base == base_offsets(kind),
            base.len() == count,
            in_box(base),
            forall|k: int| 0 <= k < count ==> #[trigger] offsets_of(out@)[k] == turn(base[k], t as nat),
        decreases turns - t,
    {
        let mut i: usize = 0;
        while i < count
            invariant
                0 <= i <= count,
                count == out.len(),
                base.len() == count,
                in_box(base),
                forall|k: int|
                    0 <= k < i ==> #[trigger] offsets_of(out@)[k] == turn(base[k], (t + 1) as nat),
                forall|k: int| i <= k < count ==> #[trigger] offsets_of(out@)[k] == turn(base[k], t as nat),
            decreases count - i,
        {
            let p = out[i];
            let ghost prev = out@;
            proof {
                assert(offsets_of(out@)[i as int] == turn(base[i as int], t as nat));
                lemma_turn_in_box(base[i as int], t as nat);
            }
            out.set(i, Point { x: 3 - p.y, y: p.x });
            assert forall|k: int| 0 <= k < count && k != i implies #[trigger] offsets_of(out@)[k]
                == offsets_of(prev)[k] by {
                assert(out@[k] == prev[k]);
            }
            i = i + 1;
        }
        t = t + 1;
    }
    proof {
        assert forall|k: int| 0 <= k < count implies 0 <= #[trigger] offsets_of(out@)[k].0 <= 3 && 0
            <= offsets_of(out@)[k].1 <= 3 by {
            lemma_turn_in_box(base[k], turns as nat);
        }
        assert(offsets_of(out@) =~= Seq::new(base.len(), |i: int| turn(base[i], turns as nat)));
        lemma_min_bounds(offsets_of(out@));
    }
    normalize_points(&mut out);
    out
}

/// Active Tetris-like piece.
#[derive(Clone, Copy, Debug, PartialEq, Eq, Structural)]
pub struct Piece {
    /// Shape.
    pub kind: PieceKind,
    /// Board-space x position.
    pub x: i16,
    /// Board-space y position.
    pub y: i16,
    /// Rotation index.
    pub rotation: u8,
    /// Display color.
    pub color: Rgb8,
}

/// The rotation index after turning once in direction `dir`.
pub open spec fn rotated_index(rotation: u8, dir: Rotation) -> u8 {
    match dir {
        Rotation::Cw => ((rotation + 1) % 4) as u8,
        Rotation::Ccw => ((rotation + 3) % 4) as u8,
    }
}

impl Piece {
    /// The cell offsets of this piece.
    pub open spec fn offsets(self) -> Seq<(int, int)> {
        piece_offsets(self.kind, self.rotation)
    }

    /// Board position of cell `i` of this piece.
    pub open spec fn cell(self, i: int) -> (int, int) {
        (self.x + self.offsets()[i].0, self.y + self.offsets()[i].1)
    }

    /// Whether some cell of this piece is at (x, y).
    pub open spec fn covers(self, x: int, y: int) -> bool {
        exists|i: int| 0 <= i < spec_cell_count(self.kind) && #[trigger] self.cell(i) == (x, y)
    }

    /// Creates a piece at the given board position, unrotated.
    pub fn new(kind: PieceKind, x: i16, y: i16, color: Rgb8) -> (p: Self)
        ensures
            p == (Piece { kind, x, y, rotation: 0, color }),
    {
        Piece { kind, x, y, rotation: 0, color }
    }

    /// Turns the piece once in direction `dir`; the rotation index stays in `0..4`.
    pub fn rotate(&mut self, dir: Rotation)
        requires
            match dir {
                Rotation::Cw => old(self).rotation + 1 <= u8::MAX,
                Rotation::Ccw => old(self).rotation + 3 <= u8::MAX,
            },
        ensures
            *final(self) == (Piece { rotation: rotated_index(old(self).rotation, dir), ..*old(self) }),
    {
        let r = self.rotation;
        self.rotation = match dir {
            Rotation::Cw => {
                let n: u8 = r + 1;
                assert(n & 3 == n % 4) by (bit_vector);
                n & 3
            },
            Rotation::Ccw => {
                let n: u8 = r + 3;
                assert(n & 3 == n % 4) by (bit_vector);
                n & 3
            },
        };
    }

    /// The cell offsets of this piece, relative to its position.
    pub(crate) fn cells(&self) -> (v: Vec<Point>)
        ensures
            offsets_of(v@) == self.offsets(),
            v.len() == spec_cell_count(self.kind),
            in_box(offsets_of(v@)),
    {
        proof {
            lemma_offsets_in_box(self.kind, self.rotation);
        }
        rotated_cells(self.kind, self.rotation)
    }

    /// Number of cells this piece occupies.
    pub fn cell_count(&self) -> (n: usize)
        ensures
            n == spec_cell_count(self.kind),
    {
        cell_count(self.kind)
    }
}

/// `a` is `b` turned a quarter turn clockwise, `(x, y)` to `(-y, x)`, and then moved by
/// `(dx, dy)`, cell by cell.
pub open spec fn turned_by(a: Seq<(int, int)>, b: Seq<(int, int)>, dx: int, dy: int) -> bool {
    &&& a.len() == b.len()
    &&& forall|i: int| 0 <= i < a.len() ==> #[trigger] a[i] == (dx - b[i].1, dy + b[i].0)
}

proof fn lemma_turn_four(p: (int, int))
    ensures
        turn(p, 4) == p,
{
    reveal_with_fuel(turn, 5);
}

/// Rotating a piece is a rigid quarter turn: the cells at rotation index `r + 1` are the
/// cells at index `r` turned clockwise and moved as a whole, so a piece is never mirrored;
/// except when the index comes back to a multiple of 4, the turned cells sit in the
/// top-left corner (smallest x and smallest y are zero). Squares and dots keep their cells.
pub proof fn lemma_rotation_is_quarter_turn(kind: PieceKind, r: u8)
    requires
        r < 255,
    ensures
        kind != PieceKind::Square && kind != PieceKind::Dot ==> exists|dx: int, dy: int|
            #[trigger] turned_by(piece_offsets(kind, (r + 1) as u8), piece_offsets(kind, r), dx, dy),
        kind != PieceKind::Square && kind != PieceKind::Dot && (r + 1) % 4 != 0 ==> min_x(
            piece_offsets(kind, (r + 1) as u8),
        ) == 0 && min_y(piece_offsets(kind, (r + 1) as u8)) == 0,
        kind == PieceKind::Square || kind == PieceKind::Dot ==> piece_offsets(kind, r) == base_offsets(kind),
{
    if kind != PieceKind::Square && kind != PieceKind::Dot {
        let base = base_offsets(kind);
        let n = base.len();
        let t = (r % 4) as nat;
        let r1 = (r + 1) as u8;
        let t1 = (r1 % 4) as nat;
        let old = piece_offsets(kind, r);
        let new = piece_offsets(kind, r1);
        if t == 0 {
            assert(t1 == 1);
            let s1 = Seq::new(n, |i: int| turn(base[i], 1));
            assert(new == normalized(s1));
            let dx = 3 - min_x(s1);
            let dy = 0 - min_y(s1);
            assert forall|i: int| 0 <= i < new.len() implies #[trigger] new[i] == (dx - old[i].1, dy
                + old[i].0) by {
                assert(turn(base[i], 1) == (3 - turn(base[i], 0).1, turn(base[i], 0).0));
            }
            assert(turned_by(new, old, dx, dy));
            lemma_normalized_twice(s1);
        } else if t == 3 {
            assert(t1 == 0);
            let s3 = Seq::new(n, |i: int| turn(base[i], 3));
            assert(old == normalized(s3));
            let dx = 3 - min_y(s3);
            let dy = min_x(s3);
            assert forall|i: int| 0 <= i < new.len() implies #[trigger] new[i] == (dx - old[i].1, dy
                + old[i].0) by {
                lemma_turn_four(base[i]);
                assert(turn(base[i], 4) == (3 - turn(base[i], 3).1, turn(base[i], 3).0));
            }
            assert(turned_by(new, old, dx, dy));
        } else {
            assert(t1 == t + 1);
            let st = Seq::new(n, |i: int| turn(base[i], t));
            let su = Seq::new(n, |i: int| turn(base[i], t + 1));
            assert(old == normalized(st));
            assert(new == normalized(su));
            let dx = 3 - min_y(st) - min_x(su);
            let dy = min_x(st) - min_y(su);
            assert forall|i: int| 0 <= i < new.len() implies #[trigger] new[i] == (dx - old[i].1, dy
                + old[i].0) by {
                assert(turn(base[i], t + 1) == (3 - turn(base[i], t).1, turn(base[i], t).0));
            }
            assert(turned_by(new, old, dx, dy));
            lemma_normalized_twice(su);
        }
    }
}

/// Turning clockwise and then counter-clockwise gives back the same piece.
pub proof fn lemma_rotate_round_trip(p: Piece)
    requires
        p.rotation < 4,
    ensures
        rotated_index(rotated_index(p.rotation, Rotation::Cw), Rotation::Ccw) == p.rotation,
        rotated_index(rotated_index(p.rotation, Rotation::Ccw), Rotation::Cw) == p.rotation,
{
}

/// Four turns in the same direction give back the same rotation index.
pub proof fn lemma_four_turns(r: u8, dir: Rotation)
    requires
        r < 4,
    ensures
        rotated_index(rotated_index(rotated_index(rotated_index(r, dir), dir), dir), dir) == r,
{
}

} // verus!

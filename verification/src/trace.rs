//! Point-to-point line tracing: the glyph table and the tracer.

use vstd::prelude::*;

use crate::grid::{Cell, Point};
use crate::grid::Segment;

verus! {

/// The distance between two coordinates.
pub open spec fn dist(a: int, b: int) -> nat {
    if a >= b {
        (a - b) as nat
    } else {
        (b - a) as nat
    }
}

/// The Chebyshev distance between two points: the number of steps a trace
/// takes when each step may move both axes at once.
pub open spec fn cheb(a: Point, b: Point) -> nat {
    if dist(a.x as int, b.x as int) >= dist(a.y as int, b.y as int) {
        dist(a.x as int, b.x as int)
    } else {
        dist(a.y as int, b.y as int)
    }
}

/// One step from `cur` toward `to`: each axis that differs moves one unit
/// toward the target, so a step is diagonal whenever both axes differ.
pub open spec fn step_toward(cur: Point, to: Point) -> Point {
    Point {
        x: if cur.x > to.x {
            (cur.x - 1) as u16
        } else if cur.x < to.x {
            (cur.x + 1) as u16
        } else {
            cur.x
        },
        y: if cur.y > to.y {
            (cur.y - 1) as u16
        } else if cur.y < to.y {
            (cur.y + 1) as u16
        } else {
            cur.y
        },
    }
}

/// The glyphs a tracer draws with, one per direction of movement. The
/// direction names follow the comparison table of `glyph`; with the default
/// table the vertical pair and the horizontal pair render alike, so only the
/// table itself is authoritative.
#[derive(Clone, Copy, Debug, PartialEq, Eq, Structural)]
pub struct CharSet {
    pub stationary: char,
    pub up: char,
    pub down: char,
    pub left: char,
    pub right: char,
    pub diagonal_back: char,
    pub diagonal_forward: char,
}

impl CharSet {
    /// The glyph for the step that moved `from` to `to`: the vertical glyphs
    /// where only `y` changed, the horizontal ones where only `x` changed,
    /// `diagonal_back` where both moved with the same sign, and
    /// `diagonal_forward` where they moved with opposite signs.
    pub open spec fn glyph(self, from: Point, to: Point) -> char {
        if from.x == to.x && from.y < to.y {
            self.up
        } else if from.x == to.x && from.y > to.y {
            self.down
        } else if from.x < to.x && from.y == to.y {
            self.left
        } else if from.x > to.x && from.y == to.y {
            self.right
        } else if (from.x > to.x && from.y > to.y) || (from.x < to.x && from.y < to.y) {
            self.diagonal_back
        } else if (from.x > to.x && from.y < to.y) || (from.x < to.x && from.y > to.y) {
            self.diagonal_forward
        } else {
            self.stationary
        }
    }

    /// Select the glyph for one step of movement.
    pub fn next(&self, from: Point, to: Point) -> (c: char)
        ensures
            c == self.glyph(from, to),
    {
        if from.x == to.x && from.y < to.y {
            self.up
        } else if from.x == to.x && from.y > to.y {
            self.down
        } else if from.x < to.x && from.y == to.y {
            self.left
        } else if from.x > to.x && from.y == to.y {
            self.right
        } else if (from.x > to.x && from.y > to.y) || (from.x < to.x && from.y < to.y) {
            self.diagonal_back
        } else if (from.x > to.x && from.y < to.y) || (from.x < to.x && from.y > to.y) {
            self.diagonal_forward
        } else {
            self.stationary
        }
    }
}

impl Default for CharSet {
    /// The default table: `.` stationary, `|` vertical, `_` horizontal,
    /// `\` diagonal-back, `/` diagonal-forward.
    fn default() -> (cs: Self)
        ensures
            cs == (CharSet {
                stationary: '.',
                up: '|',
                down: '|',
                left: '_',
                right: '_',
                diagonal_back: '\\',
                diagonal_forward: '/',
            }),
    {
        Self {
            stationary: '.',
            up: '|',
            down: '|',
            left: '_',
            right: '_',
            diagonal_back: '\\',
            diagonal_forward: '/',
        }
    }
}

/// The cells visited when walking from `from` to `to`, one step toward the
/// target at a time: each visited position paired with the glyph of the
/// direction just taken. The starting point itself yields no cell.
pub open spec fn trace(cs: CharSet, from: Point, to: Point) -> Seq<Cell>
    decreases cheb(from, to),
{
    if from == to {
        Seq::<Cell>::empty()
    } else {
        let next = step_toward(from, to);
        seq![Cell { pos: next, content: cs.glyph(from, next) }] + trace(cs, next, to)
    }
}

/// Connecting a point to itself yields an empty trace.
pub proof fn lemma_trace_self_empty(cs: CharSet, p: Point)
    ensures
        trace(cs, p, p) == Seq::<Cell>::empty(),
{
}

/// A trace from `from` to `to` holds exactly `max(|from.x - to.x|,
/// |from.y - to.y|)` cells: every step moves each differing axis one unit
/// toward the target, so the larger axis distance counts the steps.
pub proof fn lemma_trace_len(cs: CharSet, from: Point, to: Point)
    ensures
        trace(cs, from, to).len() == cheb(from, to),
    decreases cheb(from, to),
{
    if from == to {
    } else {
        lemma_trace_len(cs, step_toward(from, to), to);
    }
}

/// The capability of connecting two grid points with a stroke. Open for
/// alternative tracers: an implementation fixes, as `traced`, which cells its
/// strokes consist of, and `connect` delivers exactly those.
pub trait Connect {
    /// The cells this tracer draws between two points.
    spec fn traced(&self, from: Point, to: Point) -> Seq<Cell>;

    /// Produce the stroke between `from` and `to`.
    fn connect(&self, from: Point, to: Point) -> (seg: Segment)
        ensures
            seg@ == self.traced(from, to),
    ;
}

/// The default tracer: walks toward the target one step at a time, moving
/// both axes at once where both differ, and draws with its glyph table.
pub struct Tracer {
    pub char_set: CharSet,
}

impl Connect for Tracer {
    open spec fn traced(&self, from: Point, to: Point) -> Seq<Cell> {
        trace(self.char_set, from, to)
    }

    fn connect(&self, from: Point, to: Point) -> (seg: Segment)
        ensures
            seg@ == trace(self.char_set, from, to),
    {
        let mut segment = Segment::new();
        let mut cursor = from;
        while cursor != to
            invariant
                trace(self.char_set, from, to) == segment@ + trace(self.char_set, cursor, to),
            decreases cheb(cursor, to),
        {
            let current = cursor;
            if cursor.y > to.y {
                cursor.move_up();
            } else if cursor.y < to.y {
                cursor.move_down();
            }
            if cursor.x > to.x {
                cursor.move_left();
            } else if cursor.x < to.x {
                cursor.move_right();
            }
            proof {
                assert(cursor == step_toward(current, to));
            }
            let glyph = self.char_set.next(current, cursor);
            segment.add(Cell::new(cursor, glyph));
            proof {
                assert(trace(self.char_set, from, to) == segment@ + trace(
                    self.char_set,
                    cursor,
                    to,
                ));
            }
        }
        segment
    }
}

impl Default for Tracer {
    /// A tracer drawing with the default glyph table.
    fn default() -> (t: Self)
        ensures
            t.char_set == (CharSet {
                stationary: '.',
                up: '|',
                down: '|',
                left: '_',
                right: '_',
                diagonal_back: '\\',
                diagonal_forward: '/',
            }),
    {
        Self { char_set: CharSet::default() }
    }
}

} // verus!


//! The grid data model: points, glyph cells and segments.

use vstd::prelude::*;

use crate::Error;
use crate::sink::Sink;

verus! {

/// A 2D grid coordinate, 1-indexed to match terminal conventions; the origin
/// is `(1, 1)`. The unit-step mutators saturate at the type minimum instead of
/// wrapping or faulting: the canvas clamps input above a reserved top margin,
/// so a decrement past the origin is never legitimately requested.
#[derive(Clone, Copy, Debug, PartialEq, Eq, Structural, Hash)]
pub struct Point {
    pub x: u16,
    pub y: u16,
}

impl Point {
    pub fn new(x: u16, y: u16) -> (p: Self)
        ensures
            p == (Point { x, y }),
    {
        Self { x, y }
    }

    pub fn x(self) -> (r: u16)
        ensures
            r == self.x,
    {
        self.x
    }

    pub fn y(self) -> (r: u16)
        ensures
            r == self.y,
    {
        self.y
    }

    pub fn move_to(&mut self, x: u16, y: u16)
        ensures
            *final(self) == (Point { x, y }),
    {
        self.x = x;
        self.y = y;
    }

    /// One step toward smaller `y`; saturates at the minimum.
    pub fn move_up(&mut self)
        ensures
            final(self).x == old(self).x,
            final(self).y == if old(self).y > 0 { (old(self).y - 1) as u16 } else { 0u16 },
    {
        if self.y > 0 {
            self.y = self.y - 1;
        }
    }

    /// One step toward larger `y`; saturates at the maximum.
    pub fn move_down(&mut self)
        ensures
            final(self).x == old(self).x,
            final(self).y == if old(self).y < u16::MAX { (old(self).y + 1) as u16 } else {
                u16::MAX
            },
    {
        if self.y < u16::MAX {
            self.y = self.y + 1;
        }
    }

    /// One step toward smaller `x`; saturates at the minimum.
    pub fn move_left(&mut self)
        ensures
            final(self).y == old(self).y,
            final(self).x == if old(self).x > 0 { (old(self).x - 1) as u16 } else { 0u16 },
    {
        if self.x > 0 {
            self.x = self.x - 1;
        }
    }

    /// One step toward larger `x`; saturates at the maximum.
    pub fn move_right(&mut self)
        ensures
            final(self).y == old(self).y,
            final(self).x == if old(self).x < u16::MAX { (old(self).x + 1) as u16 } else {
                u16::MAX
            },
    {
        if self.x < u16::MAX {
            self.x = self.x + 1;
        }
    }
}

impl Default for Point {
    /// The origin `(1, 1)`.
    fn default() -> (p: Self)
        ensures
            p == (Point { x: 1u16, y: 1u16 }),
    {
        Self { x: 1, y: 1 }
    }
}

/// The glyph written where a cell has been erased.
pub const BLANK: char = ' ';

/// One grid position paired with the glyph rendered there. A cell doubles as
/// a render instruction: position plus glyph.
#[derive(Clone, Copy, Debug, PartialEq, Eq, Structural)]
pub struct Cell {
    pub pos: Point,
    pub content: char,
}

/// The erased form of a cell: the same position, rendered blank.
pub open spec fn blank_of(cell: Cell) -> Cell {
    Cell { pos: cell.pos, content: BLANK }
}

/// The erased form of a run of cells, position for position.
pub open spec fn blanked(cells: Seq<Cell>) -> Seq<Cell> {
    cells.map(|i: int, c: Cell| blank_of(c))
}

/// The state an interrupted erasure leaves behind. Erasing blanks each cell
/// in memory and then renders it; when the write for some cell fails, that
/// cell and all before it are blank, the rest keep their glyphs, and the
/// sink has grown by exactly the blanks whose writes succeeded.
pub open spec fn erase_interrupted(
    orig: Seq<Cell>,
    now: Seq<Cell>,
    before: Seq<Cell>,
    after: Seq<Cell>,
) -> bool {
    exists|k: int|
        {
            &&& 0 <= k < orig.len()
            &&& now == blanked(orig).take(k + 1) + orig.skip(k + 1)
            &&& after == before + blanked(orig).take(k)
        }
}

/// The sink grew by some prefix of the planned instruction run: writes
/// already accepted are never rolled back, and nothing else was written.
pub open spec fn wrote_prefix(planned: Seq<Cell>, before: Seq<Cell>, after: Seq<Cell>) -> bool {
    exists|k: int| 0 <= k <= planned.len() && after == before + planned.take(k)
}

/// An interrupted erasure in particular grew the sink by a prefix of the
/// blanked cells.
pub proof fn lemma_interrupted_wrote_prefix(
    orig: Seq<Cell>,
    now: Seq<Cell>,
    before: Seq<Cell>,
    after: Seq<Cell>,
)
    requires
        erase_interrupted(orig, now, before, after),
    ensures
        wrote_prefix(blanked(orig), before, after),
{
    let k = choose|k: int|
        {
            &&& 0 <= k < orig.len()
            &&& now == blanked(orig).take(k + 1) + orig.skip(k + 1)
            &&& after == before + blanked(orig).take(k)
        };
    assert(0 <= k <= blanked(orig).len() && after == before + blanked(orig).take(k));
}

impl Cell {
    pub fn new(pos: Point, content: char) -> (c: Self)
        ensures
            c == (Cell { pos, content }),
    {
        Self { pos, content }
    }

    pub fn pos(&self) -> (r: &Point)
        ensures
            r == self.pos,
    {
        &self.pos
    }

    pub fn content(self) -> (r: char)
        ensures
            r == self.content,
    {
        self.content
    }

    /// This cell as one positioning-plus-glyph instruction:
    /// `ESC [ y ; x H glyph`.
    pub fn render(&self) -> (r: String)
        ensures
            r@ == ansi_of(*self),
    {
        let mut out: Vec<char> = Vec::new();
        out.push('\x1B');
        out.push('[');
        push_decimal(&mut out, self.pos.y);
        out.push(';');
        push_decimal(&mut out, self.pos.x);
        out.push('H');
        out.push(self.content);
        proof {
            assert(out@ =~= ansi_of(*self));
        }
        chars_to_string(&out)
    }
}

/// The character for one decimal digit.
pub open spec fn digit_char(d: int) -> char {
    if d == 0 {
        '0'
    } else if d == 1 {
        '1'
    } else if d == 2 {
        '2'
    } else if d == 3 {
        '3'
    } else if d == 4 {
        '4'
    } else if d == 5 {
        '5'
    } else if d == 6 {
        '6'
    } else if d == 7 {
        '7'
    } else if d == 8 {
        '8'
    } else {
        '9'
    }
}

/// The decimal digits of a non-negative number, most significant first, with
/// no leading zeros (zero itself is the single digit `0`).
pub open spec fn dec_digits(n: int) -> Seq<char>
    decreases n,
{
    if n < 10 {
        seq![digit_char(n)]
    } else {
        dec_digits(n / 10).push(digit_char(n % 10))
    }
}

/// The render instruction for a cell, as the bytes a terminal understands:
/// an absolute cursor-position escape sequence addressed row-then-column,
/// followed by the one glyph: `ESC [ y ; x H glyph`.
pub open spec fn ansi_of(cell: Cell) -> Seq<char> {
    seq!['\x1B', '['] + dec_digits(cell.pos.y as int) + seq![';'] + dec_digits(cell.pos.x as int)
        + seq!['H', cell.content]
}

fn digit_of(d: u16) -> (c: char)
    requires
        d < 10,
    ensures
        c == digit_char(d as int),
{
    if d == 0 {
        '0'
    } else if d == 1 {
        '1'
    } else if d == 2 {
        '2'
    } else if d == 3 {
        '3'
    } else if d == 4 {
        '4'
    } else if d == 5 {
        '5'
    } else if d == 6 {
        '6'
    } else if d == 7 {
        '7'
    } else if d == 8 {
        '8'
    } else {
        '9'
    }
}

/// Append the decimal digits of `n`, most significant first.
fn push_decimal(out: &mut Vec<char>, n: u16)
    ensures
        final(out)@ == old(out)@ + dec_digits(n as int),
{
    let mut digits: Vec<char> = Vec::new();
    let mut m: u16 = n;
    if m == 0 {
        out.push('0');
        return ;
    }
    while m > 0
        invariant
            m > 0 ==> dec_digits(n as int) == dec_digits(m as int) + digits@.reverse(),
            m == 0 ==> dec_digits(n as int) == digits@.reverse(),
        decreases m,
    {
        let d = m % 10;
        digits.push(digit_of(d));
        proof {
            assert(digits@.reverse() =~= seq![digit_char(d as int)] + digits@.drop_last().reverse());
        }
        m = m / 10;
    }
    let mut k: usize = digits.len();
    while k > 0
        invariant
            0 <= k <= digits@.len(),
            dec_digits(n as int) == digits@.reverse(),
            out@ == old(out)@ + digits@.reverse().take(digits@.len() - k),
        decreases k,
    {
        k = k - 1;
        let c = digits[k];
        out.push(c);
        proof {
            assert(digits@.reverse()[digits@.len() - k - 1] == digits@[k as int]);
            assert(out@ =~= old(out)@ + digits@.reverse().take(digits@.len() - k));
        }
    }
    proof {
        assert(digits@.reverse().take(digits@.len() as int) =~= digits@.reverse());
    }
}

/// Render a cell's position as blank, so the sink no longer shows it.
pub fn clear_cell<S: Sink>(cell: Cell, sink: &mut S) -> (r: Result<(), Error>)
    ensures
        r is Ok ==> final(sink).contents() == old(sink).contents().push(blank_of(cell)),
        r is Err ==> final(sink).contents() == old(sink).contents(),
{
    sink.put(Cell { pos: cell.pos, content: BLANK })
}

/// The capability of erasing oneself from the sink: render blanks over the
/// value's positions so the sink no longer shows its glyphs. Open for
/// alternative renderers: an implementation fixes, as `blanks`, exactly which
/// instructions its erasure emits.
pub trait Erase {
    /// The instructions a successful erasure sends to the sink, in order.
    spec fn blanks(&self) -> Seq<Cell>;

    /// Blank this value's positions on the sink.
    fn erase<S: Sink>(&mut self, sink: &mut S) -> (r: Result<(), Error>)
        ensures
            r is Ok ==> final(sink).contents() == old(sink).contents() + old(self).blanks(),
    ;
}

impl Erase for Cell {
    open spec fn blanks(&self) -> Seq<Cell> {
        seq![blank_of(*self)]
    }

    /// Set the content to blank and re-emit the cell, so the sink reflects
    /// the removal.
    fn erase<S: Sink>(&mut self, sink: &mut S) -> (r: Result<(), Error>)
        ensures
            *final(self) == blank_of(*old(self)),
    {
        self.content = BLANK;
        let r = sink.put(*self);
        proof {
            if r is Ok {
                assert(sink.contents() =~= old(sink).contents() + old(self).blanks());
            }
        }
        r
    }
}

/// An ordered run of cells forming one stroke, overlay or trace. The order is
/// insertion order and is semantically meaningful: in block serialization the
/// first cell at a position wins, while on the sink the instruction rendered
/// last wins.
pub struct Segment {
    cells: Vec<Cell>,
}

impl View for Segment {
    type V = Seq<Cell>;

    closed spec fn view(&self) -> Seq<Cell> {
        self.cells@
    }
}

impl Segment {
    pub fn new() -> (s: Self)
        ensures
            s@ == Seq::<Cell>::empty(),
    {
        Self { cells: Vec::new() }
    }

    /// Lay out each character of `text` as one cell, advancing one column to
    /// the right per character, starting at `start`.
    pub fn from_str(start: Point, text: &str) -> (s: Self)
        requires
            start.x + text@.len() <= u16::MAX,
        ensures
            s@.len() == text@.len(),
            forall|i: int|
                0 <= i < text@.len() ==> #[trigger] s@[i] == (Cell {
                    pos: Point { x: (start.x + i) as u16, y: start.y },
                    content: text@[i],
                }),
    {
        let mut cells: Vec<Cell> = Vec::new();
        let mut cursor = start;
        let n = text.unicode_len();
        let mut i: usize = 0;
        while i < n
            invariant
                n == text@.len(),
                start.x + text@.len() <= u16::MAX,
                0 <= i <= n,
                cursor == (Point { x: (start.x + i) as u16, y: start.y }),
                cells@.len() == i,
                forall|j: int|
                    0 <= j < i ==> #[trigger] cells@[j] == (Cell {
                        pos: Point { x: (start.x + j) as u16, y: start.y },
                        content: text@[j],
                    }),
            decreases n - i,
        {
            let c = text.get_char(i);
            cells.push(Cell::new(cursor, c));
            cursor.move_right();
            i = i + 1;
        }
        Self { cells }
    }

    /// Append one cell at the end.
    pub fn add(&mut self, cell: Cell)
        ensures
            final(self)@ == old(self)@.push(cell),
    {
        self.cells.push(cell);
    }

    /// Empty the segment. Erase it from the sink first, or its glyphs stay
    /// visible there forever.
    pub fn clear(&mut self)
        ensures
            final(self)@ == Seq::<Cell>::empty(),
    {
        self.cells.clear();
    }

    /// In-place concatenation: `other`'s cells come after this segment's own.
    pub fn concat(&mut self, other: Segment)
        ensures
            final(self)@ == old(self)@ + other@,
    {
        let mut rhs = other;
        self.cells.append(&mut rhs.cells);
    }

    /// The cells, in insertion order.
    pub fn cells(&self) -> (r: &Vec<Cell>)
        ensures
            r@ == self@,
    {
        &self.cells
    }

    /// How many cells the segment holds.
    pub fn len(&self) -> (n: usize)
        ensures
            n == self@.len(),
    {
        self.cells.len()
    }
}

impl Erase for Segment {
    open spec fn blanks(&self) -> Seq<Cell> {
        blanked(self@)
    }

    /// For every cell in order: set its content to blank, then render it to
    /// the sink. On a failing write the error returns at once, with no retry
    /// and no rollback: the cells up to and including the failing one are
    /// blanked in memory, the rest keep their glyphs, and the sink holds the
    /// blanks whose writes succeeded.
    fn erase<S: Sink>(&mut self, sink: &mut S) -> (r: Result<(), Error>)
        ensures
            old(self)@.len() == 0 ==> r is Ok,
            r is Ok ==> final(self)@ == blanked(old(self)@),
            r is Err ==> erase_interrupted(
                old(self)@,
                final(self)@,
                old(sink).contents(),
                final(sink).contents(),
            ),
    {
        let ghost orig = self@;
        let ghost goal = blanked(orig);
        let n = self.cells.len();
        let mut done: Vec<Cell> = Vec::new();
        let mut i: usize = 0;
        while i < n
            invariant
                orig == old(self)@,
                self@ == orig,
                goal == blanked(orig),
                n == orig.len(),
                0 <= i <= n,
                done@ == goal.take(i as int),
                sink.contents() == old(sink).contents() + goal.take(i as int),
            decreases n - i,
        {
            let c = self.cells[i];
            let b = Cell { pos: c.pos, content: BLANK };
            done.push(b);
            proof {
                assert(done@ =~= goal.take(i + 1));
            }
            match sink.put(b) {
                Ok(u) => u,
                Err(e) => {
                    let ghost stop = i as int;
                    let ghost entry = old(sink).contents() + goal.take(stop);
                    let mut j: usize = i + 1;
                    while j < n
                        invariant
                            orig == old(self)@,
                            self@ == orig,
                            goal == blanked(orig),
                            n == orig.len(),
                            0 <= stop < n,
                            stop + 1 <= j <= n,
                            done@ == goal.take(stop + 1) + orig.subrange(stop + 1, j as int),
                            sink.contents() == entry,
                            entry == old(sink).contents() + goal.take(stop),
                        decreases n - j,
                    {
                        let keep = self.cells[j];
                        done.push(keep);
                        j = j + 1;
                        proof {
                            assert(done@ =~= goal.take(stop + 1) + orig.subrange(
                                stop + 1,
                                j as int,
                            ));
                        }
                    }
                    self.cells = done;
                    proof {
                        assert(orig.subrange(stop + 1, orig.len() as int) =~= orig.skip(stop + 1));
                        assert(self@ == blanked(orig).take(stop + 1) + orig.skip(stop + 1));
                        assert(sink.contents() == old(sink).contents() + blanked(orig).take(stop));
                        assert(erase_interrupted(
                            orig,
                            self@,
                            old(sink).contents(),
                            sink.contents(),
                        ));
                    }
                    return Err(e);
                },
            }
            i = i + 1;
            proof {
                assert(sink.contents() =~= old(sink).contents() + goal.take(i as int));
            }
        }
        proof {
            assert(goal.take(orig.len() as int) =~= goal);
        }
        self.cells = done;
        Ok(())
    }
}

/// The least `x` among the cells' positions. Meaningful only for a non-empty
/// run of cells.
pub open spec fn min_x(cells: Seq<Cell>) -> int
    decreases cells.len(),
{
    if cells.len() == 0 {
        0
    } else if cells.len() == 1 {
        cells[0].pos.x as int
    } else {
        let m = min_x(cells.drop_last());
        if (cells.last().pos.x as int) < m {
            cells.last().pos.x as int
        } else {
            m
        }
    }
}

/// The greatest `x` among the cells' positions.
pub open spec fn max_x(cells: Seq<Cell>) -> int
    decreases cells.len(),
{
    if cells.len() == 0 {
        0
    } else if cells.len() == 1 {
        cells[0].pos.x as int
    } else {
        let m = max_x(cells.drop_last());
        if (cells.last().pos.x as int) > m {
            cells.last().pos.x as int
        } else {
            m
        }
    }
}

/// The least `y` among the cells' positions.
pub open spec fn min_y(cells: Seq<Cell>) -> int
    decreases cells.len(),
{
    if cells.len() == 0 {
        0
    } else if cells.len() == 1 {
        cells[0].pos.y as int
    } else {
        let m = min_y(cells.drop_last());
        if (cells.last().pos.y as int) < m {
            cells.last().pos.y as int
        } else {
            m
        }
    }
}

/// The greatest `y` among the cells' positions.
pub open spec fn max_y(cells: Seq<Cell>) -> int
    decreases cells.len(),
{
    if cells.len() == 0 {
        0
    } else if cells.len() == 1 {
        cells[0].pos.y as int
    } else {
        let m = max_y(cells.drop_last());
        if (cells.last().pos.y as int) > m {
            cells.last().pos.y as int
        } else {
            m
        }
    }
}

/// Every cell lies inside the bounding box spanned by the four extrema.
pub proof fn lemma_bbox_bounds(cells: Seq<Cell>, i: int)
    requires
        0 <= i < cells.len(),
    ensures
        min_x(cells) <= cells[i].pos.x as int <= max_x(cells),
        min_y(cells) <= cells[i].pos.y as int <= max_y(cells),
    decreases cells.len(),
{
    if cells.len() > 1 && i < cells.len() - 1 {
        lemma_bbox_bounds(cells.drop_last(), i);
    }
}

/// The extrema of a non-empty run of cells are coordinates of its cells, so
/// they fit the coordinate type and each minimum is at most its maximum.
pub proof fn lemma_bbox_fits(cells: Seq<Cell>)
    requires
        cells.len() > 0,
    ensures
        0 <= min_x(cells) <= u16::MAX,
        0 <= max_x(cells) <= u16::MAX,
        0 <= min_y(cells) <= u16::MAX,
        0 <= max_y(cells) <= u16::MAX,
        min_x(cells) <= max_x(cells),
        min_y(cells) <= max_y(cells),
    decreases cells.len(),
{
    if cells.len() > 1 {
        lemma_bbox_fits(cells.drop_last());
    }
}

/// A single-cell segment's bounding box collapses to that cell's position:
/// both corners equal it.
pub proof fn lemma_bbox_single(cells: Seq<Cell>)
    requires
        cells.len() == 1,
    ensures
        min_x(cells) == cells[0].pos.x as int,
        max_x(cells) == cells[0].pos.x as int,
        min_y(cells) == cells[0].pos.y as int,
        max_y(cells) == cells[0].pos.y as int,
{
}

/// The glyph shown at position `p` when the cells are laid out as a block:
/// the first cell in sequence order at that position wins; a position no
/// cell occupies is blank.
pub open spec fn cell_at(cells: Seq<Cell>, p: Point) -> char
    decreases cells.len(),
{
    if cells.len() == 0 {
        BLANK
    } else if cells[0].pos == p {
        cells[0].content
    } else {
        cell_at(cells.drop_first(), p)
    }
}

/// Where duplicates share a position, the first-inserted cell is the one a
/// block shows: `cell_at` returns the content of the earliest cell there.
pub proof fn lemma_cell_at_found(cells: Seq<Cell>, p: Point, k: int)
    requires
        0 <= k < cells.len(),
        cells[k].pos == p,
        forall|j: int| 0 <= j < k ==> cells[j].pos != p,
    ensures
        cell_at(cells, p) == cells[k].content,
    decreases k,
{
    if k == 0 {
    } else {
        assert(cells[0].pos != p);
        let rest = cells.drop_first();
        assert forall|j: int| 0 <= j < k - 1 implies rest[j].pos != p by {
            assert(rest[j] == cells[j + 1]);
        }
        assert(rest[k - 1] == cells[k]);
        lemma_cell_at_found(rest, p, k - 1);
    }
}

/// A position no cell occupies renders blank.
pub proof fn lemma_cell_at_absent(cells: Seq<Cell>, p: Point)
    requires
        forall|j: int| 0 <= j < cells.len() ==> cells[j].pos != p,
    ensures
        cell_at(cells, p) == BLANK,
    decreases cells.len(),
{
    if cells.len() > 0 {
        let rest = cells.drop_first();
        assert forall|j: int| 0 <= j < rest.len() implies rest[j].pos != p by {
            assert(rest[j] == cells[j + 1]);
        }
        lemma_cell_at_absent(rest, p);
    }
}

/// One block row: the glyphs at `y` for each column of `x_lo ..= x_hi`.
pub open spec fn block_row(cells: Seq<Cell>, y: int, x_lo: int, x_hi: int) -> Seq<char>
    decreases x_hi + 1 - x_lo,
{
    if x_lo > x_hi {
        Seq::<char>::empty()
    } else {
        seq![cell_at(cells, Point { x: x_lo as u16, y: y as u16 })] + block_row(
            cells,
            y,
            x_lo + 1,
            x_hi,
        )
    }
}

/// The rows `y_lo ..= y_hi` of a block, each followed by a line break.
pub open spec fn block_rows(cells: Seq<Cell>, y_lo: int, y_hi: int, x_lo: int, x_hi: int) -> Seq<
    char,
>
    decreases y_hi + 1 - y_lo,
{
    if y_lo > y_hi {
        Seq::<char>::empty()
    } else {
        block_row(cells, y_lo, x_lo, x_hi) + seq!['\n'] + block_rows(
            cells,
            y_lo + 1,
            y_hi,
            x_lo,
            x_hi,
        )
    }
}

/// The block-text form of a run of cells: row-major across the bounding box,
/// unoccupied positions blank, the first cell at a position winning. Empty
/// cells give the empty text.
pub open spec fn block_of(cells: Seq<Cell>) -> Seq<char> {
    if cells.len() == 0 {
        Seq::<char>::empty()
    } else {
        block_rows(cells, min_y(cells), max_y(cells), min_x(cells), max_x(cells))
    }
}

/// A block row spans exactly one glyph per column of the box.
pub proof fn lemma_block_row_len(cells: Seq<Cell>, y: int, x_lo: int, x_hi: int)
    ensures
        block_row(cells, y, x_lo, x_hi).len() == if x_lo > x_hi {
            0int
        } else {
            x_hi + 1 - x_lo
        },
    decreases x_hi + 1 - x_lo,
{
    if x_lo <= x_hi {
        lemma_block_row_len(cells, y, x_lo + 1, x_hi);
    }
}

/// A block holds exactly `y_hi - y_lo + 1` rows of `x_hi - x_lo + 1` glyphs,
/// each row closed by one line break: its length is their product.
pub proof fn lemma_block_dims(cells: Seq<Cell>, y_lo: int, y_hi: int, x_lo: int, x_hi: int)
    requires
        x_lo <= x_hi,
    ensures
        block_rows(cells, y_lo, y_hi, x_lo, x_hi).len() == if y_lo > y_hi {
            0int
        } else {
            (y_hi + 1 - y_lo) * (x_hi + 2 - x_lo)
        },
    decreases y_hi + 1 - y_lo,
{
    if y_lo <= y_hi {
        lemma_block_dims(cells, y_lo + 1, y_hi, x_lo, x_hi);
        lemma_block_row_len(cells, y_lo, x_lo, x_hi);
        let w = x_hi + 2 - x_lo;
        let rest = block_rows(cells, y_lo + 1, y_hi, x_lo, x_hi);
        assert(block_rows(cells, y_lo, y_hi, x_lo, x_hi).len() == (w - 1) + 1 + rest.len());
        if y_lo == y_hi {
            assert(rest.len() == 0);
            assert((y_hi + 1 - y_lo) * w == w) by (nonlinear_arith)
                requires
                    y_lo == y_hi,
            ;
        } else {
            assert(rest.len() == (y_hi - y_lo) * w);
            assert((y_hi + 1 - y_lo) * w == w + (y_hi - y_lo) * w) by (nonlinear_arith);
        }
    }
}

/// Relies on String's FromIterator<char> implementation: collecting
/// characters yields a string holding exactly those characters in order.
#[verifier::external_body]
fn chars_to_string(chars: &Vec<char>) -> (r: String)
    ensures
        r@ == chars@,
{
    chars.iter().collect()
}

impl Segment {
    /// The bounding box of the cells: `None` for an empty segment, otherwise
    /// the corner of least coordinates and the corner of greatest ones.
    pub fn boundaries(&self) -> (r: Option<(Point, Point)>)
        ensures
            r is None <==> self@.len() == 0,
            self@.len() > 0 ==> r == Some(
                (
                    Point { x: min_x(self@) as u16, y: min_y(self@) as u16 },
                    Point { x: max_x(self@) as u16, y: max_y(self@) as u16 },
                ),
            ),
    {
        if self.cells.len() == 0 {
            return None;
        }
        let first = self.cells[0];
        let mut lo_x = first.pos.x;
        let mut lo_y = first.pos.y;
        let mut hi_x = first.pos.x;
        let mut hi_y = first.pos.y;
        let mut i: usize = 1;
        while i < self.cells.len()
            invariant
                1 <= i <= self.cells@.len(),
                lo_x as int == min_x(self.cells@.take(i as int)),
                lo_y as int == min_y(self.cells@.take(i as int)),
                hi_x as int == max_x(self.cells@.take(i as int)),
                hi_y as int == max_y(self.cells@.take(i as int)),
            decreases self.cells@.len() - i,
        {
            let c = self.cells[i];
            if c.pos.x < lo_x {
                lo_x = c.pos.x;
            }
            if c.pos.y < lo_y {
                lo_y = c.pos.y;
            }
            if c.pos.x > hi_x {
                hi_x = c.pos.x;
            }
            if c.pos.y > hi_y {
                hi_y = c.pos.y;
            }
            i = i + 1;
            proof {
                assert(self.cells@.take(i as int).drop_last() =~= self.cells@.take(i - 1));
            }
        }
        proof {
            assert(self.cells@.take(self.cells@.len() as int) =~= self.cells@);
        }
        Some((Point::new(lo_x, lo_y), Point::new(hi_x, hi_y)))
    }

    /// The glyph a block shows at `p`: the first cell there, else blank.
    pub fn glyph_at(&self, p: Point) -> (c: char)
        ensures
            c == cell_at(self@, p),
    {
        let mut k: usize = 0;
        while k < self.cells.len()
            invariant
                0 <= k <= self.cells@.len(),
                forall|j: int| 0 <= j < k ==> self.cells@[j].pos != p,
            decreases self.cells@.len() - k,
        {
            let c = self.cells[k];
            if c.pos == p {
                proof {
                    lemma_cell_at_found(self.cells@, p, k as int);
                }
                return c.content;
            }
            k = k + 1;
        }
        proof {
            lemma_cell_at_absent(self.cells@, p);
        }
        BLANK
    }

    /// Serialize to a rectangular text block spanning the bounding box, rows
    /// separated by line breaks, unoccupied positions blank, duplicates
    /// resolved first-write-wins.
    pub fn to_block(&self) -> (r: String)
        ensures
            r@ == block_of(self@),
    {
        let bounds = self.boundaries();
        match bounds {
            None => {
                let out: Vec<char> = Vec::new();
                chars_to_string(&out)
            },
            Some((lo, hi)) => {
                proof {
                    lemma_bbox_fits(self@);
                }
                let ghost target = block_of(self@);
                let mut out: Vec<char> = Vec::new();
                let mut y: u32 = lo.y as u32;
                while y <= hi.y as u32
                    invariant
                        self@.len() > 0,
                        lo.y as int == min_y(self@),
                        lo.x as int == min_x(self@),
                        hi.y as int == max_y(self@),
                        hi.x as int == max_x(self@),
                        lo.x as int <= hi.x as int,
                        lo.y as int <= y as int <= hi.y as int + 1,
                        target == block_of(self@),
                        out@ + block_rows(self@, y as int, hi.y as int, lo.x as int, hi.x as int)
                            == target,
                    decreases hi.y as int + 1 - y as int,
                {
                    let mut x: u32 = lo.x as u32;
                    while x <= hi.x as u32
                        invariant
                            self@.len() > 0,
                            lo.y as int == min_y(self@),
                            lo.x as int == min_x(self@),
                            hi.y as int == max_y(self@),
                            hi.x as int == max_x(self@),
                            lo.y as int <= y as int <= hi.y as int,
                            lo.x as int <= hi.x as int,
                            lo.x as int <= x as int <= hi.x as int + 1,
                            target == block_of(self@),
                            out@ + block_row(self@, y as int, x as int, hi.x as int)
                                + seq!['\n'] + block_rows(
                                self@,
                                y as int + 1,
                                hi.y as int,
                                lo.x as int,
                                hi.x as int,
                            ) == target,
                        decreases hi.x as int + 1 - x as int,
                    {
                        let glyph = self.glyph_at(Point::new(x as u16, y as u16));
                        out.push(glyph);
                        x = x + 1;
                        proof {
                            assert(out@ + block_row(self@, y as int, x as int, hi.x as int)
                                + seq!['\n'] + block_rows(
                                self@,
                                y as int + 1,
                                hi.y as int,
                                lo.x as int,
                                hi.x as int,
                            ) =~= target);
                        }
                    }
                    out.push('\n');
                    y = y + 1;
                    proof {
                        assert(out@ + block_rows(
                            self@,
                            y as int,
                            hi.y as int,
                            lo.x as int,
                            hi.x as int,
                        ) =~= target);
                    }
                }
                chars_to_string(&out)
            },
        }
    }
}

impl Default for Segment {
    /// The empty segment.
    fn default() -> (s: Self)
        ensures
            s@ == Seq::<Cell>::empty(),
    {
        Self { cells: Vec::new() }
    }
}

impl Clone for Segment {
    /// An exact copy: the same cells in the same order.
    fn clone(&self) -> (s: Self)
        ensures
            s@ == self@,
    {
        let mut cells: Vec<Cell> = Vec::new();
        let mut i: usize = 0;
        while i < self.cells.len()
            invariant
                0 <= i <= self.cells.len(),
                cells@ == self.cells@.take(i as int),
            decreases self.cells.len() - i,
        {
            cells.push(self.cells[i]);
            i = i + 1;
            proof {
                assert(cells@ =~= self.cells@.take(i as int));
            }
        }
        proof {
            assert(cells@ =~= self.cells@);
        }
        Self { cells }
    }
}

/// Render every cell of `segment` as blank on the sink. On a failing write
/// the error returns at once; the sink keeps the blanks written before it.
pub fn clear_segment<S: Sink>(segment: Segment, sink: &mut S) -> (r: Result<(), Error>)
    ensures
        segment@.len() == 0 ==> r is Ok,
        r is Ok ==> final(sink).contents() == old(sink).contents() + blanked(segment@),
        r is Err ==> wrote_prefix(blanked(segment@), old(sink).contents(), final(sink).contents()),
{
    let mut seg = segment;
    let r = seg.erase(sink);
    proof {
        if r is Err {
            lemma_interrupted_wrote_prefix(
                segment@,
                seg@,
                old(sink).contents(),
                sink.contents(),
            );
        }
    }
    r
}

} // verus!

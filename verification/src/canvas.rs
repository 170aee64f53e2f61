//! The canvas state machine: committed strokes, the in-progress stroke, a
//! pinned overlay, and the render sink they are kept consistent with.

use vstd::prelude::*;

use crate::Error;
use crate::grid::{blanked, erase_interrupted, wrote_prefix, Cell, Erase, Point, Segment};
use crate::sink::Sink;
use crate::trace::Connect;

verus! {

/// Rows with `y` below this boundary are reserved for external toolbar
/// rendering; drag events there are ignored entirely.
pub const TOOLBAR_BOUNDARY: u16 = 3;

/// How drag events are interpreted: freehand accumulation or an anchored
/// line preview.
#[derive(Clone, Copy, Debug, PartialEq, Eq, Structural)]
pub enum Style {
    Plot,
    Line,
}

impl Default for Style {
    fn default() -> (s: Self)
        ensures
            s is Plot,
    {
        Style::Plot
    }
}

impl From<char> for Style {
    /// The selector code `'2'` chooses Line; every other code chooses Plot.
    fn from(code: char) -> (s: Self) {
        if code == '2' {
            Style::Line
        } else {
            Style::Plot
        }
    }
}

impl vstd::std_specs::convert::FromSpecImpl<char> for Style {
    open spec fn obeys_from_spec() -> bool {
        true
    }

    open spec fn from_spec(code: char) -> Style {
        if code == '2' {
            Style::Line
        } else {
            Style::Plot
        }
    }
}

/// What a mouse did at a position.
#[derive(Clone, Copy, Debug, PartialEq, Eq, Structural)]
pub enum MouseAction {
    Press,
    Drag,
    Release,
}

/// A typed mouse event, as the external input decoder delivers it.
#[derive(Clone, Copy, Debug, PartialEq, Eq, Structural)]
pub struct MouseEvent {
    pub action: MouseAction,
    pub pos: Point,
}

/// The cells a run of segments puts on the sink, in rendering order.
pub open spec fn rendered(segs: Seq<Seq<Cell>>) -> Seq<Cell>
    decreases segs.len(),
{
    if segs.len() == 0 {
        Seq::<Cell>::empty()
    } else {
        rendered(segs.drop_last()) + segs.last()
    }
}

/// The cells erasing a run of segments puts on the sink, in order.
pub open spec fn blanked_all(segs: Seq<Seq<Cell>>) -> Seq<Cell>
    decreases segs.len(),
{
    if segs.len() == 0 {
        Seq::<Cell>::empty()
    } else {
        blanked_all(segs.drop_last()) + blanked(segs.last())
    }
}

proof fn lemma_rendered_take_snoc(segs: Seq<Seq<Cell>>, i: int)
    requires
        0 <= i < segs.len(),
    ensures
        rendered(segs.take(i + 1)) == rendered(segs.take(i)) + segs[i],
{
    assert(segs.take(i + 1).drop_last() =~= segs.take(i));
    assert(segs.take(i + 1).last() == segs[i]);
}

proof fn lemma_blanked_all_take_snoc(segs: Seq<Seq<Cell>>, i: int)
    requires
        0 <= i < segs.len(),
    ensures
        blanked_all(segs.take(i + 1)) == blanked_all(segs.take(i)) + blanked(segs[i]),
{
    assert(segs.take(i + 1).drop_last() =~= segs.take(i));
    assert(segs.take(i + 1).last() == segs[i]);
}

proof fn lemma_blanked_all_take_prefix(segs: Seq<Seq<Cell>>, j: int)
    requires
        0 <= j <= segs.len(),
    ensures
        blanked_all(segs.take(j)).is_prefix_of(blanked_all(segs)),
    decreases segs.len() - j,
{
    if j == segs.len() {
        assert(segs.take(j) =~= segs);
    } else {
        lemma_blanked_all_take_prefix(segs, j + 1);
        lemma_blanked_all_take_snoc(segs, j);
        let a = blanked_all(segs.take(j));
        let b = blanked_all(segs.take(j + 1));
        let c = blanked_all(segs);
        assert(a.is_prefix_of(b));
        assert forall|m: int| 0 <= m < a.len() implies a[m] == c[m] by {
            assert(a[m] == b[m]);
            assert(b[m] == c[m]);
        }
        assert(a =~= c.subrange(0, a.len() as int));
    }
}

/// Issue every cell of `seg` to the sink, in order.
fn put_cells<S: Sink>(sink: &mut S, seg: &Segment) -> (r: Result<(), Error>)
    ensures
        r is Ok ==> final(sink).contents() == old(sink).contents() + seg@,
{
    let cells = seg.cells();
    let mut i: usize = 0;
    while i < cells.len()
        invariant
            cells@ == seg@,
            0 <= i <= cells@.len(),
            sink.contents() == old(sink).contents() + seg@.take(i as int),
        decreases cells@.len() - i,
    {
        match sink.put(cells[i]) {
            Ok(u) => u,
            Err(e) => {
                return Err(e);
            },
        }
        i = i + 1;
        proof {
            assert(sink.contents() =~= old(sink).contents() + seg@.take(i as int));
        }
    }
    proof {
        assert(seg@.take(seg@.len() as int) =~= seg@);
    }
    Ok(())
}

/// Issue the erased form of every cell of `seg` to the sink, in order,
/// leaving the segment itself as it was. On a failing write the error
/// returns at once; the blanks already accepted stay with the sink.
fn blank_cells<S: Sink>(sink: &mut S, seg: &Segment) -> (r: Result<(), Error>)
    ensures
        seg@.len() == 0 ==> r is Ok,
        r is Ok ==> final(sink).contents() == old(sink).contents() + blanked(seg@),
        r is Err ==> wrote_prefix(blanked(seg@), old(sink).contents(), final(sink).contents()),
{
    let cells = seg.cells();
    let mut i: usize = 0;
    while i < cells.len()
        invariant
            cells@ == seg@,
            0 <= i <= cells@.len(),
            sink.contents() == old(sink).contents() + blanked(seg@).take(i as int),
        decreases cells@.len() - i,
    {
        let c = cells[i];
        match sink.put(Cell { pos: c.pos, content: crate::grid::BLANK }) {
            Ok(u) => u,
            Err(e) => {
                proof {
                    assert(0 <= i < seg@.len() && sink.contents() == old(sink).contents()
                        + blanked(seg@).take(i as int));
                    assert(wrote_prefix(blanked(seg@), old(sink).contents(), sink.contents()));
                }
                return Err(e);
            },
        }
        i = i + 1;
        proof {
            assert(sink.contents() =~= old(sink).contents() + blanked(seg@).take(i as int));
        }
    }
    proof {
        assert(blanked(seg@).take(seg@.len() as int) =~= blanked(seg@));
    }
    Ok(())
}

/// The stateful drawing surface. It owns the committed stroke history
/// (`base`, undone in LIFO order), the single in-progress stroke (`sketch`),
/// one pinned overlay never subject to undo or commit, the current drawing
/// style, the last known cursor, and the sink every mutation renders to.
pub struct Canvas<S, B> where S: Sink, B: Connect {
    writer: S,
    brush: B,
    style: Style,
    base: Vec<Segment>,
    overlay: Segment,
    sketch: Segment,
    cursor: Point,
}

impl<S, B> Canvas<S, B> where S: Sink, B: Connect {
    /// The instructions the owned sink has accepted so far.
    pub closed spec fn out(&self) -> Seq<Cell> {
        self.writer.contents()
    }

    /// The committed strokes, in commit order.
    pub closed spec fn base_view(&self) -> Seq<Seq<Cell>> {
        self.base@.map_values(|s: Segment| s@)
    }

    /// The in-progress stroke.
    pub closed spec fn sketch_view(&self) -> Seq<Cell> {
        self.sketch@
    }

    /// The pinned overlay.
    pub closed spec fn overlay_view(&self) -> Seq<Cell> {
        self.overlay@
    }

    /// The last known cursor position.
    pub closed spec fn cursor_at(&self) -> Point {
        self.cursor
    }

    /// The current drawing style.
    pub closed spec fn style_now(&self) -> Style {
        self.style
    }

    /// The tracer drag events draw with.
    pub closed spec fn brushing(&self) -> B {
        self.brush
    }

    /// A canvas over `writer`, drawing with `brush`: empty history, empty
    /// sketch and overlay, Plot style, cursor at the origin.
    pub fn new(writer: S, brush: B) -> (c: Self)
        ensures
            c.out() == writer.contents(),
            c.base_view() == Seq::<Seq<Cell>>::empty(),
            c.sketch_view() == Seq::<Cell>::empty(),
            c.overlay_view() == Seq::<Cell>::empty(),
            c.cursor_at() == (Point { x: 1u16, y: 1u16 }),
            c.style_now() is Plot,
            c.brushing() == brush,
    {
        let c = Self {
            writer,
            brush,
            style: Style::default(),
            base: Vec::new(),
            overlay: Segment::new(),
            sketch: Segment::new(),
            cursor: Point::default(),
        };
        proof {
            assert(c.base_view() =~= Seq::<Seq<Cell>>::empty());
        }
        c
    }

    /// Replace the overlay wholesale. No rendering side effect by itself;
    /// the new overlay shows on the next `draw`.
    pub fn pin(&mut self, overlay: Segment)
        ensures
            final(self).overlay_view() == overlay@,
            final(self).out() == old(self).out(),
            final(self).base_view() == old(self).base_view(),
            final(self).sketch_view() == old(self).sketch_view(),
            final(self).cursor_at() == old(self).cursor_at(),
            final(self).style_now() == old(self).style_now(),
            final(self).brushing() == old(self).brushing(),
    {
        self.overlay = overlay;
    }

    /// Switch the drawing style. Never mutates existing strokes.
    pub fn alt_style(&mut self, style: Style)
        ensures
            final(self).style_now() == style,
            final(self).out() == old(self).out(),
            final(self).base_view() == old(self).base_view(),
            final(self).sketch_view() == old(self).sketch_view(),
            final(self).overlay_view() == old(self).overlay_view(),
            final(self).cursor_at() == old(self).cursor_at(),
            final(self).brushing() == old(self).brushing(),
    {
        self.style = style;
    }

    /// Consume one mouse event.
    ///
    /// Press moves the cursor only. Drag below the toolbar boundary is
    /// ignored entirely. Otherwise a Plot drag appends the trace from the
    /// cursor to the event position onto the sketch and advances the cursor,
    /// while a Line drag erases the rendered sketch from the sink and
    /// replaces it with a fresh trace from the unchanged anchor cursor.
    /// Release commits the sketch into the history and empties it.
    ///
    /// Only the Line drag writes to the sink, so every other event succeeds,
    /// as does a Line drag with nothing to erase. A failing write propagates
    /// at once with no retry: the interrupted erasure leaves the sketch
    /// blanked up to and including the failing cell, and the blanks already
    /// accepted stay with the sink.
    pub fn update(&mut self, event: MouseEvent) -> (r: Result<(), Error>)
        ensures
            final(self).style_now() == old(self).style_now(),
            final(self).overlay_view() == old(self).overlay_view(),
            final(self).brushing() == old(self).brushing(),
            event.action is Press ==> ({
                &&& r is Ok
                &&& final(self).cursor_at() == event.pos
                &&& final(self).sketch_view() == old(self).sketch_view()
                &&& final(self).base_view() == old(self).base_view()
                &&& final(self).out() == old(self).out()
            }),
            event.action is Release ==> ({
                &&& r is Ok
                &&& final(self).base_view() == old(self).base_view().push(old(self).sketch_view())
                &&& final(self).sketch_view() == Seq::<Cell>::empty()
                &&& final(self).cursor_at() == old(self).cursor_at()
                &&& final(self).out() == old(self).out()
            }),
            event.action is Drag && event.pos.y < TOOLBAR_BOUNDARY ==> ({
                &&& r is Ok
                &&& *final(self) == *old(self)
            }),
            event.action is Drag && event.pos.y >= TOOLBAR_BOUNDARY && old(self).style_now()
                is Plot ==> ({
                &&& r is Ok
                &&& final(self).sketch_view() == old(self).sketch_view() + old(
                    self,
                ).brushing().traced(old(self).cursor_at(), event.pos)
                &&& final(self).cursor_at() == event.pos
                &&& final(self).base_view() == old(self).base_view()
                &&& final(self).out() == old(self).out()
            }),
            event.action is Drag && event.pos.y >= TOOLBAR_BOUNDARY && old(self).style_now()
                is Line ==> ({
                &&& final(self).cursor_at() == old(self).cursor_at()
                &&& final(self).base_view() == old(self).base_view()
                &&& old(self).sketch_view().len() == 0 ==> r is Ok
                &&& (r is Ok ==> final(self).sketch_view() == old(self).brushing().traced(
                    old(self).cursor_at(),
                    event.pos,
                ) && final(self).out() == old(self).out() + blanked(old(self).sketch_view()))
                &&& (r is Err ==> erase_interrupted(
                    old(self).sketch_view(),
                    final(self).sketch_view(),
                    old(self).out(),
                    final(self).out(),
                ))
            }),
    {
        match event.action {
            MouseAction::Press => {
                self.cursor.move_to(event.pos.x, event.pos.y);
                Ok(())
            },
            MouseAction::Drag => {
                if event.pos.y < TOOLBAR_BOUNDARY {
                    return Ok(());
                }
                match self.style {
                    Style::Plot => {
                        let stroke = self.brush.connect(self.cursor, event.pos);
                        self.sketch.concat(stroke);
                        self.cursor.move_to(event.pos.x, event.pos.y);
                        Ok(())
                    },
                    Style::Line => {
                        match self.sketch.erase(&mut self.writer) {
                            Ok(u) => u,
                            Err(e) => {
                                return Err(e);
                            },
                        }
                        self.sketch = self.brush.connect(self.cursor, event.pos);
                        Ok(())
                    },
                }
            },
            MouseAction::Release => {
                self.base.push(self.sketch.clone());
                self.sketch.clear();
                proof {
                    assert(self.base_view() =~= old(self).base_view().push(
                        old(self).sketch_view(),
                    ));
                }
                Ok(())
            },
        }
    }

    /// Render the whole state to the sink: every committed stroke in commit
    /// order, then the sketch, then the overlay, and flush once. The overlay
    /// is rendered last so it wins at shared positions.
    pub fn draw(&mut self) -> (r: Result<(), Error>)
        ensures
            final(self).base_view() == old(self).base_view(),
            final(self).sketch_view() == old(self).sketch_view(),
            final(self).overlay_view() == old(self).overlay_view(),
            final(self).cursor_at() == old(self).cursor_at(),
            final(self).style_now() == old(self).style_now(),
            final(self).brushing() == old(self).brushing(),
            r is Ok ==> final(self).out() == old(self).out() + rendered(old(self).base_view())
                + old(self).sketch_view() + old(self).overlay_view(),
    {
        let ghost segs = self.base_view();
        let mut i: usize = 0;
        while i < self.base.len()
            invariant
                self.base == old(self).base,
                self.sketch == old(self).sketch,
                self.overlay == old(self).overlay,
                self.cursor == old(self).cursor,
                self.style == old(self).style,
                self.brush == old(self).brush,
                segs == old(self).base_view(),
                0 <= i <= self.base@.len(),
                segs.len() == self.base@.len(),
                self.writer.contents() == old(self).writer.contents() + rendered(
                    segs.take(i as int),
                ),
            decreases self.base@.len() - i,
        {
            match put_cells(&mut self.writer, &self.base[i]) {
                Ok(u) => u,
                Err(e) => {
                    return Err(e);
                },
            }
            proof {
                lemma_rendered_take_snoc(segs, i as int);
            }
            i = i + 1;
        }
        proof {
            assert(segs.take(self.base@.len() as int) =~= segs);
        }
        match put_cells(&mut self.writer, &self.sketch) {
            Ok(u) => u,
            Err(e) => {
                return Err(e);
            },
        }
        match put_cells(&mut self.writer, &self.overlay) {
            Ok(u) => u,
            Err(e) => {
                return Err(e);
            },
        }
        self.writer.flush()
    }

    /// A copy of the committed history for an external consumer; the canvas
    /// keeps its own.
    pub fn snapshot(&self) -> (r: Vec<Segment>)
        ensures
            r@.len() == self.base_view().len(),
            forall|i: int| 0 <= i < r@.len() ==> #[trigger] r@[i]@ == self.base_view()[i],
    {
        let mut copy: Vec<Segment> = Vec::new();
        let mut i: usize = 0;
        while i < self.base.len()
            invariant
                0 <= i <= self.base@.len(),
                copy@.len() == i,
                forall|j: int| 0 <= j < i ==> #[trigger] copy@[j]@ == self.base_view()[j],
            decreases self.base@.len() - i,
        {
            copy.push(self.base[i].clone());
            i = i + 1;
        }
        copy
    }

    /// Pop the most recently committed stroke and erase it from the sink.
    /// An empty history is not an error: nothing is popped and nothing is
    /// written to the sink. The pop itself is never rolled back: on a
    /// failing write the stroke is gone from the history and the sink keeps
    /// the blanks already accepted.
    pub fn undo(&mut self) -> (r: Result<(), Error>)
        ensures
            final(self).sketch_view() == old(self).sketch_view(),
            final(self).overlay_view() == old(self).overlay_view(),
            final(self).cursor_at() == old(self).cursor_at(),
            final(self).style_now() == old(self).style_now(),
            final(self).brushing() == old(self).brushing(),
            old(self).base_view().len() == 0 ==> r is Ok && final(self).base_view() == old(
                self,
            ).base_view() && final(self).out() == old(self).out(),
            old(self).base_view().len() > 0 ==> ({
                &&& final(self).base_view() == old(self).base_view().drop_last()
                &&& old(self).base_view().last().len() == 0 ==> r is Ok
                &&& (r is Ok ==> final(self).out() == old(self).out() + blanked(
                    old(self).base_view().last(),
                ))
                &&& (r is Err ==> wrote_prefix(
                    blanked(old(self).base_view().last()),
                    old(self).out(),
                    final(self).out(),
                ))
            }),
    {
        let popped = self.base.pop();
        match popped {
            None => Ok(()),
            Some(mut segment) => {
                proof {
                    assert(self.base_view() =~= old(self).base_view().drop_last());
                    assert(segment@ == old(self).base_view().last());
                }
                match segment.erase(&mut self.writer) {
                    Ok(u) => Ok(u),
                    Err(e) => {
                        proof {
                            crate::grid::lemma_interrupted_wrote_prefix(
                                old(self).base_view().last(),
                                segment@,
                                old(self).writer.contents(),
                                self.writer.contents(),
                            );
                        }
                        Err(e)
                    },
                }
            },
        }
    }

    /// Erase every committed stroke and the sketch from the sink, then empty
    /// both containers. The overlay is unaffected. The containers are
    /// emptied only after every erase landed: on a failing write the error
    /// returns at once, history and sketch keep their strokes, and the sink
    /// keeps the blanks already accepted.
    pub fn clear(&mut self) -> (r: Result<(), Error>)
        ensures
            final(self).overlay_view() == old(self).overlay_view(),
            final(self).cursor_at() == old(self).cursor_at(),
            final(self).style_now() == old(self).style_now(),
            final(self).brushing() == old(self).brushing(),
            old(self).base_view().len() == 0 && old(self).sketch_view().len() == 0 ==> r is Ok,
            r is Ok ==> ({
                &&& final(self).base_view() == Seq::<Seq<Cell>>::empty()
                &&& final(self).sketch_view() == Seq::<Cell>::empty()
                &&& final(self).out() == old(self).out() + blanked_all(old(self).base_view())
                    + blanked(old(self).sketch_view())
            }),
            r is Err ==> ({
                &&& final(self).base_view() == old(self).base_view()
                &&& final(self).sketch_view() == old(self).sketch_view()
                &&& wrote_prefix(
                    blanked_all(old(self).base_view()) + blanked(old(self).sketch_view()),
                    old(self).out(),
                    final(self).out(),
                )
            }),
    {
        let ghost segs = self.base_view();
        let mut i: usize = 0;
        while i < self.base.len()
            invariant
                self.base == old(self).base,
                self.sketch == old(self).sketch,
                self.overlay == old(self).overlay,
                self.cursor == old(self).cursor,
                self.style == old(self).style,
                self.brush == old(self).brush,
                segs == old(self).base_view(),
                0 <= i <= self.base@.len(),
                segs.len() == self.base@.len(),
                self.writer.contents() == old(self).writer.contents() + blanked_all(
                    segs.take(i as int),
                ),
            decreases self.base@.len() - i,
        {
            match blank_cells(&mut self.writer, &self.base[i]) {
                Ok(u) => u,
                Err(e) => {
                    proof {
                        let sk = old(self).sketch_view();
                        let w = blanked_all(segs) + blanked(sk);
                        let a = blanked_all(segs.take(i as int));
                        let bseg = segs[i as int];
                        let k0 = choose|k0: int|
                            0 <= k0 <= blanked(bseg).len() && self.writer.contents() == (old(
                                self,
                            ).writer.contents() + a) + blanked(bseg).take(k0);
                        lemma_blanked_all_take_snoc(segs, i as int);
                        lemma_blanked_all_take_prefix(segs, i as int + 1);
                        let b1 = blanked_all(segs.take(i as int + 1));
                        let kk = a.len() + k0;
                        assert forall|m: int| 0 <= m < kk implies #[trigger] (a + blanked(
                            bseg,
                        ).take(k0))[m] == w[m] by {
                            assert((a + blanked(bseg).take(k0))[m] == b1[m]);
                            assert(b1[m] == blanked_all(segs).subrange(0, b1.len() as int)[m]);
                            assert(w[m] == blanked_all(segs)[m]);
                        }
                        assert(a + blanked(bseg).take(k0) =~= w.take(kk));
                        assert(self.writer.contents() == old(self).writer.contents() + w.take(kk));
                        assert(0 <= kk <= w.len());
                        assert(wrote_prefix(w, old(self).writer.contents(), self.writer.contents()));
                    }
                    return Err(e);
                },
            }
            proof {
                lemma_blanked_all_take_snoc(segs, i as int);
            }
            i = i + 1;
        }
        proof {
            assert(segs.take(self.base@.len() as int) =~= segs);
        }
        match blank_cells(&mut self.writer, &self.sketch) {
            Ok(u) => u,
            Err(e) => {
                proof {
                    let sk = old(self).sketch_view();
                    let w = blanked_all(segs) + blanked(sk);
                    let k0 = choose|k0: int|
                        0 <= k0 <= blanked(sk).len() && self.writer.contents() == (old(
                            self,
                        ).writer.contents() + blanked_all(segs)) + blanked(sk).take(k0);
                    let kk = blanked_all(segs).len() + k0;
                    assert(blanked_all(segs) + blanked(sk).take(k0) =~= w.take(kk));
                    assert(self.writer.contents() == old(self).writer.contents() + w.take(kk));
                    assert(0 <= kk <= w.len());
                    assert(wrote_prefix(w, old(self).writer.contents(), self.writer.contents()));
                }
                return Err(e);
            },
        }
        self.base.clear();
        self.sketch.clear();
        proof {
            assert(self.base_view() =~= Seq::<Seq<Cell>>::empty());
        }
        Ok(())
    }

    /// The last known cursor position.
    pub fn cursor(&self) -> (p: Point)
        ensures
            p == self.cursor_at(),
    {
        self.cursor
    }

    /// The current drawing style.
    pub fn style(&self) -> (s: Style)
        ensures
            s == self.style_now(),
    {
        self.style
    }

    /// The in-progress stroke.
    pub fn sketch(&self) -> (s: &Segment)
        ensures
            s@ == self.sketch_view(),
    {
        &self.sketch
    }

    /// The pinned overlay.
    pub fn overlay(&self) -> (s: &Segment)
        ensures
            s@ == self.overlay_view(),
    {
        &self.overlay
    }

    /// The owned sink, for inspection.
    pub fn writer(&self) -> (w: &S)
        ensures
            w.contents() == self.out(),
    {
        &self.writer
    }
}

} // verus!

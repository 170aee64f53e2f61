use sketchpad::canvas::{Canvas, MouseAction, MouseEvent, Style};
use sketchpad::grid::{clear_cell, clear_segment, Cell, Erase, Point, Segment};
use sketchpad::sink::{BufferSink, Sink};
use sketchpad::trace::{CharSet, Connect, Tracer};
use sketchpad::Error;
use vstd::prelude::Seq;

fn event(action: MouseAction, x: u16, y: u16) -> MouseEvent {
    MouseEvent { action, pos: Point::new(x, y) }
}

fn fresh_canvas() -> Canvas<BufferSink, Tracer> {
    Canvas::new(BufferSink::new(), Tracer::default())
}

/// A sink that refuses every instruction with a fixed error.
struct FailingSink {
    error: Error,
}

impl Sink for FailingSink {
    fn contents(&self) -> Seq<Cell> {
        unreachable!()
    }

    fn put(&mut self, _cell: Cell) -> Result<(), Error> {
        Err(self.error)
    }

    fn flush(&mut self) -> Result<(), Error> {
        Ok(())
    }
}

/// A sink that accepts a limited number of instructions, then refuses.
struct LimitedSink {
    accepted: Vec<Cell>,
    limit: usize,
}

impl Sink for LimitedSink {
    fn contents(&self) -> Seq<Cell> {
        unreachable!()
    }

    fn put(&mut self, cell: Cell) -> Result<(), Error> {
        if self.accepted.len() < self.limit {
            self.accepted.push(cell);
            Ok(())
        } else {
            Err(Error::Io)
        }
    }

    fn flush(&mut self) -> Result<(), Error> {
        Ok(())
    }
}

#[test]
fn point_accessors_and_moves() {
    let mut p = Point::new(4, 7);
    assert_eq!(p.x(), 4);
    assert_eq!(p.y(), 7);
    p.move_up();
    assert_eq!((p.x(), p.y()), (4, 6));
    p.move_down();
    p.move_down();
    assert_eq!((p.x(), p.y()), (4, 8));
    p.move_left();
    assert_eq!((p.x(), p.y()), (3, 8));
    p.move_right();
    p.move_right();
    assert_eq!((p.x(), p.y()), (5, 8));
    p.move_to(1, 1);
    assert_eq!((p.x(), p.y()), (1, 1));
}

#[test]
fn point_decrement_saturates_at_minimum() {
    let mut p = Point::new(0, 0);
    p.move_up();
    p.move_left();
    assert_eq!((p.x(), p.y()), (0, 0));
}

#[test]
fn cell_accessors() {
    let c = Cell::new(Point::new(2, 3), '#');
    assert_eq!(*c.pos(), Point::new(2, 3));
    assert_eq!(c.content(), '#');
}

#[test]
fn segment_add_concat_clear_len() {
    let mut a = Segment::new();
    assert_eq!(a.len(), 0);
    a.add(Cell::new(Point::new(1, 1), 'a'));
    a.add(Cell::new(Point::new(2, 1), 'b'));
    let mut b = Segment::new();
    b.add(Cell::new(Point::new(3, 1), 'c'));
    a.concat(b);
    assert_eq!(a.len(), 3);
    assert_eq!(a.cells()[2].content, 'c');
    assert_eq!(a.cells()[0].content, 'a');
    a.clear();
    assert_eq!(a.len(), 0);
}

#[test]
fn segment_from_str_lays_out_columns() {
    let s = Segment::from_str(Point::new(5, 2), "hi!");
    assert_eq!(s.len(), 3);
    assert_eq!(s.cells()[0], Cell::new(Point::new(5, 2), 'h'));
    assert_eq!(s.cells()[1], Cell::new(Point::new(6, 2), 'i'));
    assert_eq!(s.cells()[2], Cell::new(Point::new(7, 2), '!'));
}

#[test]
fn boundaries_of_empty_segment_is_none() {
    let s = Segment::new();
    assert!(s.boundaries().is_none());
}

#[test]
fn boundaries_of_single_cell_collapses_to_its_position() {
    let mut s = Segment::new();
    s.add(Cell::new(Point::new(9, 4), '*'));
    let (lo, hi) = s.boundaries().unwrap();
    assert_eq!(lo, Point::new(9, 4));
    assert_eq!(hi, Point::new(9, 4));
}

#[test]
fn boundaries_spans_all_cells() {
    let mut s = Segment::new();
    s.add(Cell::new(Point::new(4, 9), 'a'));
    s.add(Cell::new(Point::new(2, 5), 'b'));
    s.add(Cell::new(Point::new(7, 6), 'c'));
    let (lo, hi) = s.boundaries().unwrap();
    assert_eq!(lo, Point::new(2, 5));
    assert_eq!(hi, Point::new(7, 9));
}

#[test]
fn block_of_empty_segment_is_empty() {
    let s = Segment::new();
    assert_eq!(s.to_block(), "");
}

#[test]
fn block_has_bounding_box_shape_and_blank_fill() {
    let mut s = Segment::new();
    s.add(Cell::new(Point::new(2, 1), 'a'));
    s.add(Cell::new(Point::new(4, 3), 'b'));
    let block = s.to_block();
    // Three rows of three columns, each row closed by a line break.
    assert_eq!(block, "a  \n   \n  b\n");
}

#[test]
fn block_duplicate_position_first_write_wins() {
    let mut s = Segment::new();
    s.add(Cell::new(Point::new(1, 1), 'x'));
    s.add(Cell::new(Point::new(1, 1), 'y'));
    assert_eq!(s.to_block(), "x\n");
}

#[test]
fn cell_erase_blanks_itself_and_writes() {
    let mut c = Cell::new(Point::new(6, 2), 'w');
    let mut sink = BufferSink::new();
    c.erase(&mut sink).unwrap();
    assert_eq!(c, Cell::new(Point::new(6, 2), ' '));
    assert_eq!(sink.received()[0], Cell::new(Point::new(6, 2), ' '));
}

#[test]
fn cell_render_is_position_escape_plus_glyph() {
    assert_eq!(Cell::new(Point::new(4, 2), 'x').render(), "\x1B[2;4Hx");
    assert_eq!(Cell::new(Point::new(345, 12), '#').render(), "\x1B[12;345H#");
    assert_eq!(Cell::new(Point::new(0, 0), ' ').render(), "\x1B[0;0H ");
    assert_eq!(Cell::new(Point::new(65535, 10000), '/').render(), "\x1B[10000;65535H/");
}

#[test]
fn segment_erase_blanks_cells_and_writes_them() {
    let mut s = Segment::new();
    s.add(Cell::new(Point::new(3, 4), 'q'));
    s.add(Cell::new(Point::new(4, 4), 'r'));
    let mut sink = BufferSink::new();
    s.erase(&mut sink).unwrap();
    assert_eq!(s.len(), 2);
    assert_eq!(s.cells()[0], Cell::new(Point::new(3, 4), ' '));
    assert_eq!(s.cells()[1], Cell::new(Point::new(4, 4), ' '));
    let got = sink.received();
    assert_eq!(got.len(), 2);
    assert_eq!(got[0], Cell::new(Point::new(3, 4), ' '));
    assert_eq!(got[1], Cell::new(Point::new(4, 4), ' '));
}

#[test]
fn clear_cell_and_clear_segment_write_blanks() {
    let mut sink = BufferSink::new();
    clear_cell(Cell::new(Point::new(8, 8), 'z'), &mut sink).unwrap();
    assert_eq!(sink.received()[0], Cell::new(Point::new(8, 8), ' '));

    let mut seg = Segment::new();
    seg.add(Cell::new(Point::new(1, 2), 'k'));
    clear_segment(seg, &mut sink).unwrap();
    assert_eq!(sink.received().len(), 2);
    assert_eq!(sink.received()[1], Cell::new(Point::new(1, 2), ' '));
}

#[test]
fn charset_next_follows_the_literal_table() {
    let cs = CharSet::default();
    let from = Point::new(5, 5);
    // No horizontal change.
    assert_eq!(cs.next(from, Point::new(5, 6)), '|');
    assert_eq!(cs.next(from, Point::new(5, 4)), '|');
    // No vertical change.
    assert_eq!(cs.next(from, Point::new(6, 5)), '_');
    assert_eq!(cs.next(from, Point::new(4, 5)), '_');
    // Both moved with the same sign.
    assert_eq!(cs.next(from, Point::new(6, 6)), '\\');
    assert_eq!(cs.next(from, Point::new(4, 4)), '\\');
    // Both moved with opposite signs.
    assert_eq!(cs.next(from, Point::new(6, 4)), '/');
    assert_eq!(cs.next(from, Point::new(4, 6)), '/');
    // No movement at all.
    assert_eq!(cs.next(from, from), '.');
}

#[test]
fn connect_point_to_itself_is_empty() {
    let tracer = Tracer::default();
    let seg = tracer.connect(Point::new(7, 7), Point::new(7, 7));
    assert_eq!(seg.len(), 0);
}

#[test]
fn connect_length_is_chebyshev_distance() {
    let tracer = Tracer::default();
    assert_eq!(tracer.connect(Point::new(1, 1), Point::new(5, 3)).len(), 4);
    assert_eq!(tracer.connect(Point::new(5, 3), Point::new(1, 1)).len(), 4);
    assert_eq!(tracer.connect(Point::new(2, 9), Point::new(2, 4)).len(), 5);
}

#[test]
fn connect_horizontal_line_matches_the_table() {
    let tracer = Tracer::default();
    let seg = tracer.connect(Point::new(1, 1), Point::new(4, 1));
    let cells = seg.cells();
    assert_eq!(cells.len(), 3);
    assert_eq!(cells[0], Cell::new(Point::new(2, 1), '_'));
    assert_eq!(cells[1], Cell::new(Point::new(3, 1), '_'));
    assert_eq!(cells[2], Cell::new(Point::new(4, 1), '_'));
}

#[test]
fn connect_diagonal_steps_move_both_axes() {
    let tracer = Tracer::default();
    let seg = tracer.connect(Point::new(2, 5), Point::new(6, 8));
    let cells = seg.cells();
    assert_eq!(cells.len(), 4);
    assert_eq!(cells[0], Cell::new(Point::new(3, 6), '\\'));
    assert_eq!(cells[1], Cell::new(Point::new(4, 7), '\\'));
    assert_eq!(cells[2], Cell::new(Point::new(5, 8), '\\'));
    assert_eq!(cells[3], Cell::new(Point::new(6, 8), '_'));
}

#[test]
fn style_selector_code() {
    assert_eq!(Style::from('2'), Style::Line);
    assert_eq!(Style::from('1'), Style::Plot);
    assert_eq!(Style::from('x'), Style::Plot);
    assert_eq!(Style::default(), Style::Plot);
}

#[test]
fn new_canvas_is_empty_at_origin() {
    let canvas = fresh_canvas();
    assert_eq!(canvas.cursor(), Point::new(1, 1));
    assert_eq!(canvas.style(), Style::Plot);
    assert_eq!(canvas.sketch().len(), 0);
    assert_eq!(canvas.overlay().len(), 0);
    assert!(canvas.snapshot().is_empty());
}

#[test]
fn press_moves_cursor_only() {
    let mut canvas = fresh_canvas();
    canvas.update(event(MouseAction::Press, 5, 5)).unwrap();
    assert_eq!(canvas.cursor(), Point::new(5, 5));
    assert_eq!(canvas.sketch().len(), 0);
    assert!(canvas.snapshot().is_empty());
}

#[test]
fn plot_drag_then_release_commits_the_stroke() {
    let mut canvas = fresh_canvas();
    canvas.update(event(MouseAction::Press, 5, 5)).unwrap();
    canvas.update(event(MouseAction::Drag, 8, 5)).unwrap();
    {
        let cells = canvas.sketch().cells();
        assert_eq!(cells.len(), 3);
        assert_eq!(cells[0].pos, Point::new(6, 5));
        assert_eq!(cells[1].pos, Point::new(7, 5));
        assert_eq!(cells[2].pos, Point::new(8, 5));
        assert!(cells.iter().all(|c| c.pos.y() == 5));
    }
    assert_eq!(canvas.cursor(), Point::new(8, 5));
    canvas.update(event(MouseAction::Release, 8, 5)).unwrap();
    let base = canvas.snapshot();
    assert_eq!(base.len(), 1);
    assert_eq!(base[0].len(), 3);
    assert_eq!(canvas.sketch().len(), 0);
}

#[test]
fn plot_drags_accumulate_onto_the_sketch() {
    let mut canvas = fresh_canvas();
    canvas.update(event(MouseAction::Press, 3, 4)).unwrap();
    canvas.update(event(MouseAction::Drag, 5, 4)).unwrap();
    canvas.update(event(MouseAction::Drag, 5, 6)).unwrap();
    assert_eq!(canvas.sketch().len(), 4);
    assert_eq!(canvas.cursor(), Point::new(5, 6));
}

#[test]
fn drag_in_toolbar_margin_is_ignored() {
    let mut canvas = fresh_canvas();
    canvas.update(event(MouseAction::Press, 5, 5)).unwrap();
    canvas.update(event(MouseAction::Drag, 9, 2)).unwrap();
    assert_eq!(canvas.cursor(), Point::new(5, 5));
    assert_eq!(canvas.sketch().len(), 0);
    assert!(canvas.snapshot().is_empty());
    canvas.draw().unwrap();
    let drawn = canvas.writer().received();
    assert!(drawn.is_empty());
}

#[test]
fn line_drag_re_anchors_from_the_press_point() {
    let mut canvas = fresh_canvas();
    canvas.alt_style(Style::Line);
    canvas.update(event(MouseAction::Press, 2, 5)).unwrap();
    canvas.update(event(MouseAction::Drag, 6, 5)).unwrap();
    assert_eq!(canvas.cursor(), Point::new(2, 5));
    assert_eq!(canvas.sketch().len(), 4);
    canvas.update(event(MouseAction::Drag, 6, 8)).unwrap();
    assert_eq!(canvas.cursor(), Point::new(2, 5));
    // The sink received the erasure of the first preview before anything of
    // the second one is drawn.
    let received = canvas.writer().received();
    assert_eq!(received.len(), 4);
    assert_eq!(received[0], Cell::new(Point::new(3, 5), ' '));
    assert_eq!(received[1], Cell::new(Point::new(4, 5), ' '));
    assert_eq!(received[2], Cell::new(Point::new(5, 5), ' '));
    assert_eq!(received[3], Cell::new(Point::new(6, 5), ' '));
    // The replacement preview traces from the unchanged anchor.
    {
        let cells = canvas.sketch().cells();
        assert_eq!(cells.len(), 4);
        assert_eq!(cells[0].pos, Point::new(3, 6));
        assert_eq!(cells[3].pos, Point::new(6, 8));
    }
    // Drawing the frame appends the second trace only after the erasure.
    canvas.draw().unwrap();
    let received = canvas.writer().received();
    assert_eq!(received.len(), 8);
    assert!(received[..4].iter().all(|c| c.content == ' '));
    assert_eq!(received[4], Cell::new(Point::new(3, 6), '\\'));
    assert_eq!(received[7], Cell::new(Point::new(6, 8), '_'));
}

#[test]
fn draw_renders_base_then_sketch_then_overlay() {
    let mut canvas = fresh_canvas();
    canvas.update(event(MouseAction::Press, 4, 4)).unwrap();
    canvas.update(event(MouseAction::Drag, 5, 4)).unwrap();
    canvas.update(event(MouseAction::Release, 5, 4)).unwrap();
    canvas.update(event(MouseAction::Press, 1, 6)).unwrap();
    canvas.update(event(MouseAction::Drag, 2, 6)).unwrap();
    let mut overlay = Segment::new();
    overlay.add(Cell::new(Point::new(9, 9), 'o'));
    canvas.pin(overlay);
    canvas.draw().unwrap();
    let received = canvas.writer().received();
    assert_eq!(received.len(), 3);
    assert_eq!(received[0], Cell::new(Point::new(5, 4), '_'));
    assert_eq!(received[1], Cell::new(Point::new(2, 6), '_'));
    assert_eq!(received[2], Cell::new(Point::new(9, 9), 'o'));
}

#[test]
fn undo_on_empty_base_succeeds_with_no_sink_writes() {
    let mut canvas = fresh_canvas();
    assert!(canvas.undo().is_ok());
    let received = canvas.writer().received();
    assert!(received.is_empty());
    assert!(canvas.snapshot().is_empty());
}

#[test]
fn undo_pops_and_erases_the_last_stroke() {
    let mut canvas = fresh_canvas();
    canvas.update(event(MouseAction::Press, 4, 4)).unwrap();
    canvas.update(event(MouseAction::Drag, 6, 4)).unwrap();
    canvas.update(event(MouseAction::Release, 6, 4)).unwrap();
    canvas.update(event(MouseAction::Press, 1, 7)).unwrap();
    canvas.update(event(MouseAction::Drag, 1, 8)).unwrap();
    canvas.update(event(MouseAction::Release, 1, 8)).unwrap();
    assert_eq!(canvas.snapshot().len(), 2);
    canvas.undo().unwrap();
    let base = canvas.snapshot();
    assert_eq!(base.len(), 1);
    assert_eq!(base[0].cells()[0].pos, Point::new(5, 4));
    let received = canvas.writer().received();
    assert_eq!(received.len(), 1);
    assert_eq!(received[0], Cell::new(Point::new(1, 8), ' '));
}

#[test]
fn clear_erases_history_and_sketch_but_keeps_overlay() {
    let mut canvas = fresh_canvas();
    let mut overlay = Segment::new();
    overlay.add(Cell::new(Point::new(9, 9), 'o'));
    canvas.pin(overlay);
    canvas.update(event(MouseAction::Press, 4, 4)).unwrap();
    canvas.update(event(MouseAction::Drag, 5, 4)).unwrap();
    canvas.update(event(MouseAction::Release, 5, 4)).unwrap();
    canvas.update(event(MouseAction::Press, 3, 6)).unwrap();
    canvas.update(event(MouseAction::Drag, 3, 7)).unwrap();
    canvas.clear().unwrap();
    assert!(canvas.snapshot().is_empty());
    assert_eq!(canvas.sketch().len(), 0);
    assert_eq!(canvas.overlay().len(), 1);
    let received = canvas.writer().received();
    assert_eq!(received.len(), 2);
    assert_eq!(received[0], Cell::new(Point::new(5, 4), ' '));
    assert_eq!(received[1], Cell::new(Point::new(3, 7), ' '));
}

#[test]
fn snapshot_is_a_copy_in_commit_order() {
    let mut canvas = fresh_canvas();
    canvas.update(event(MouseAction::Press, 4, 4)).unwrap();
    canvas.update(event(MouseAction::Drag, 5, 4)).unwrap();
    canvas.update(event(MouseAction::Release, 5, 4)).unwrap();
    let first = canvas.snapshot();
    let second = canvas.snapshot();
    assert_eq!(first.len(), 1);
    assert_eq!(second.len(), 1);
    assert_eq!(first[0].cells()[0], second[0].cells()[0]);
}

#[test]
fn interrupted_erase_blanks_up_to_the_failing_write() {
    let mut s = Segment::new();
    s.add(Cell::new(Point::new(1, 1), 'a'));
    s.add(Cell::new(Point::new(2, 1), 'b'));
    s.add(Cell::new(Point::new(3, 1), 'c'));
    let mut sink = LimitedSink { accepted: Vec::new(), limit: 1 };
    assert_eq!(s.erase(&mut sink), Err(Error::Io));
    // The write for the second cell failed: it and the first are blank in
    // memory, the third keeps its glyph, and the sink holds one blank.
    assert_eq!(s.cells()[0], Cell::new(Point::new(1, 1), ' '));
    assert_eq!(s.cells()[1], Cell::new(Point::new(2, 1), ' '));
    assert_eq!(s.cells()[2], Cell::new(Point::new(3, 1), 'c'));
    assert_eq!(sink.accepted.len(), 1);
    assert_eq!(sink.accepted[0], Cell::new(Point::new(1, 1), ' '));
}

#[test]
fn interrupted_clear_keeps_history_and_sketch() {
    let mut canvas = Canvas::new(LimitedSink { accepted: Vec::new(), limit: 1 }, Tracer::default());
    canvas.update(event(MouseAction::Press, 4, 4)).unwrap();
    canvas.update(event(MouseAction::Drag, 6, 4)).unwrap();
    canvas.update(event(MouseAction::Release, 6, 4)).unwrap();
    canvas.update(event(MouseAction::Press, 1, 7)).unwrap();
    canvas.update(event(MouseAction::Drag, 1, 8)).unwrap();
    assert_eq!(canvas.clear(), Err(Error::Io));
    // The failure interrupted the erasure: nothing was emptied.
    assert_eq!(canvas.snapshot().len(), 1);
    assert_eq!(canvas.sketch().len(), 1);
}

#[test]
fn undo_of_an_empty_stroke_succeeds_on_a_failing_sink() {
    let mut canvas = Canvas::new(FailingSink { error: Error::Io }, Tracer::default());
    // Release with an empty sketch commits an empty stroke.
    canvas.update(event(MouseAction::Release, 1, 1)).unwrap();
    assert_eq!(canvas.snapshot().len(), 1);
    // Undoing it has nothing to write, so the failing sink is never asked.
    assert!(canvas.undo().is_ok());
    assert!(canvas.snapshot().is_empty());
}

#[test]
fn clear_of_an_empty_canvas_succeeds_on_a_failing_sink() {
    let mut canvas = Canvas::new(FailingSink { error: Error::Fmt }, Tracer::default());
    assert!(canvas.clear().is_ok());
}

#[test]
fn line_drag_propagates_a_failing_sink_error() {
    let mut canvas = Canvas::new(FailingSink { error: Error::Io }, Tracer::default());
    canvas.alt_style(Style::Line);
    canvas.update(event(MouseAction::Press, 2, 5)).unwrap();
    // The first drag has nothing to erase, so it succeeds.
    canvas.update(event(MouseAction::Drag, 4, 5)).unwrap();
    // The second must erase the preview and meets the failing sink.
    assert_eq!(canvas.update(event(MouseAction::Drag, 4, 7)), Err(Error::Io));

    let mut canvas = Canvas::new(FailingSink { error: Error::Fmt }, Tracer::default());
    canvas.update(event(MouseAction::Press, 4, 4)).unwrap();
    canvas.update(event(MouseAction::Drag, 5, 4)).unwrap();
    assert_eq!(canvas.draw(), Err(Error::Fmt));
}

//! The render sink: the destination for per-cell render instructions.
//!
//! A render instruction is one [`Cell`]: an absolute position plus the glyph
//! to show there. Erasure is rendering a blank glyph at the same position.
//! The canvas owns exactly one sink and issues instructions in a definite
//! order, because on a real terminal a later write to a coordinate physically
//! overwrites an earlier one.

use vstd::prelude::*;

use crate::Error;
use crate::grid::Cell;

verus! {

/// A destination for render instructions.
///
/// `contents` abstracts the instructions the sink has accepted so far, in
/// order. A write either lands as one whole instruction or fails without
/// effect; failures propagate to the caller and are never retried.
pub trait Sink {
    /// The instructions accepted so far, oldest first.
    spec fn contents(&self) -> Seq<Cell>;

    /// Accept one render instruction.
    fn put(&mut self, cell: Cell) -> (r: Result<(), Error>)
        ensures
            r is Ok ==> final(self).contents() == old(self).contents().push(cell),
            r is Err ==> final(self).contents() == old(self).contents(),
    ;

    /// Push any buffered output through; accepts no new instruction.
    fn flush(&mut self) -> (r: Result<(), Error>)
        ensures
            final(self).contents() == old(self).contents(),
    ;
}

/// A sink that records every instruction in memory and never fails.
pub struct BufferSink {
    cells: Vec<Cell>,
}

impl Sink for BufferSink {
    closed spec fn contents(&self) -> Seq<Cell> {
        self.cells@
    }

    fn put(&mut self, cell: Cell) -> (r: Result<(), Error>)
        ensures
            r is Ok,
    {
        self.cells.push(cell);
        Ok(())
    }

    fn flush(&mut self) -> (r: Result<(), Error>)
        ensures
            r is Ok,
    {
        Ok(())
    }
}

impl BufferSink {
    pub fn new() -> (s: Self)
        ensures
            s.contents() == Seq::<Cell>::empty(),
    {
        Self { cells: Vec::new() }
    }

    /// The recorded instructions, oldest first.
    pub fn received(&self) -> (r: &Vec<Cell>)
        ensures
            r@ == self.contents(),
    {
        &self.cells
    }
}

} // verus!

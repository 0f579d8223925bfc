//! The eraser: blanks the cells between the cell where a gesture began and
//! the cell under the pointer.

use vstd::prelude::*;
use crate::canvas::{BLANK, trace, traced};
use crate::grid::{Cell, PointerEvent, Pos, cell_at, cell_under};
use crate::tools::ToolControl;

verus! {

/// Clears cells along straight lines.
pub struct EraseTool {
    anchor: Option<Cell>,
}

impl EraseTool {
    /// An eraser with no gesture in progress.
    pub fn new() -> (tool: Self)
        ensures
            tool.anchor() is None,
    {
        EraseTool { anchor: None }
    }

    /// The cell where the gesture in progress began.
    pub fn anchor_cell(&self) -> (cell: Option<Cell>)
        ensures
            match cell {
                Some(c) => self.anchor() == Some(c@),
                None => self.anchor() is None,
            },
    {
        self.anchor
    }
}

impl ToolControl for EraseTool {
    closed spec fn anchor(&self) -> Option<Pos> {
        match self.anchor {
            Some(c) => Some(c@),
            None => None,
        }
    }

    open spec fn marker(&self) -> char {
        BLANK
    }

    fn start(&mut self, event: &PointerEvent, cell_size: (u64, u64), grid: (usize, usize))
        ensures
            final(self).anchor() == Some(cell_under(*event, cell_size, grid)),
    {
        self.anchor = Some(cell_at(event, cell_size, grid));
    }

    fn draw(
        &mut self,
        event: &PointerEvent,
        buffer: &mut Vec<char>,
        cell_size: (u64, u64),
        grid: (usize, usize),
    )
        ensures
            final(buffer)@ == traced(
                old(buffer)@,
                old(self).anchor(),
                cell_under(*event, cell_size, grid),
                grid,
                BLANK,
            ),
            final(self).anchor() == old(self).anchor(),
    {
        let head = cell_at(event, cell_size, grid);
        trace(buffer, self.anchor, head, grid, BLANK);
    }

    fn end(
        &mut self,
        event: &PointerEvent,
        buffer: &mut Vec<char>,
        cell_size: (u64, u64),
        grid: (usize, usize),
    )
        ensures
            final(buffer)@ == traced(
                old(buffer)@,
                old(self).anchor(),
                cell_under(*event, cell_size, grid),
                grid,
                BLANK,
            ),
            final(self).anchor() is None,
    {
        let head = cell_at(event, cell_size, grid);
        trace(buffer, self.anchor, head, grid, BLANK);
        self.anchor = None;
    }
}

} // verus!

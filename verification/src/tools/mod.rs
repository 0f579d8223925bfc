//! The tools that paint on the grid, and the manager that routes the phases
//! of a gesture to the one that is selected.

use vstd::prelude::*;
use crate::canvas::{BLANK, FILLED, traced};
use crate::grid::{Cell, PointerEvent, Pos, cell_under};
use crate::tools::erase::EraseTool;
use crate::tools::line::LineTool;

pub mod erase;
pub mod line;

verus! {

/// The kinds of tool.
#[derive(Clone, Copy, Debug, PartialEq, Eq, Structural)]
pub enum DrawingTools {
    Line,
    Eraser,
}

impl DrawingTools {
    /// The name that a tool is shown under.
    pub open spec fn label(self) -> Seq<char> {
        match self {
            DrawingTools::Line => "LINE"@,
            DrawingTools::Eraser => "ERASER"@,
        }
    }

    /// The marker that a tool of this kind writes.
    pub open spec fn marker(self) -> char {
        match self {
            DrawingTools::Line => FILLED,
            DrawingTools::Eraser => BLANK,
        }
    }

    /// The name that the tool is shown under: `LINE` or `ERASER`.
    pub fn to_string(&self) -> (name: String)
        ensures
            name@ == self.label(),
    {
        match self {
            DrawingTools::Line => "LINE".to_owned(),
            DrawingTools::Eraser => "ERASER".to_owned(),
        }
    }
}

/// The three phases of a pointer gesture, as a tool answers them.
///
/// A tool is idle or dragging. `start` fixes the anchor, the cell under the
/// pointer, and writes nothing. `draw` writes the tool's marker along the
/// segment from the anchor to the cell under the pointer, and `end` does the
/// same and then returns the tool to idle. An idle tool writes nothing. The
/// buffer holds the grid row by row.
pub trait ToolControl {
    /// The cell where the gesture in progress began; `None` while idle.
    spec fn anchor(&self) -> Option<Pos>;

    /// The marker that the tool writes.
    spec fn marker(&self) -> char;

    /// A gesture begins: the cell under the pointer becomes the anchor,
    /// whether or not an earlier gesture was ended.
    fn start(&mut self, event: &PointerEvent, cell_size: (u64, u64), grid: (usize, usize))
        ensures
            final(self).anchor() == Some(cell_under(*event, cell_size, grid)),
            final(self).marker() == old(self).marker(),
    ;

    /// The pointer has moved: the segment from the anchor to the cell under
    /// the pointer is painted.
    fn draw(
        &mut self,
        event: &PointerEvent,
        buffer: &mut Vec<char>,
        cell_size: (u64, u64),
        grid: (usize, usize),
    )
        requires
            old(buffer).len() == grid.0 * grid.1,
        ensures
            final(buffer)@ == traced(
                old(buffer)@,
                old(self).anchor(),
                cell_under(*event, cell_size, grid),
                grid,
                old(self).marker(),
            ),
            final(buffer).len() == old(buffer).len(),
            final(self).anchor() == old(self).anchor(),
            final(self).marker() == old(self).marker(),
    ;

    /// The gesture ends: the segment to the cell under the pointer is painted
    /// once more, and the anchor is dropped.
    fn end(
        &mut self,
        event: &PointerEvent,
        buffer: &mut Vec<char>,
        cell_size: (u64, u64),
        grid: (usize, usize),
    )
        requires
            old(buffer).len() == grid.0 * grid.1,
        ensures
            final(buffer)@ == traced(
                old(buffer)@,
                old(self).anchor(),
                cell_under(*event, cell_size, grid),
                grid,
                old(self).marker(),
            ),
            final(buffer).len() == old(buffer).len(),
            final(self).anchor() is None,
            final(self).marker() == old(self).marker(),
    ;
}

/// What a tool manager holds: the anchor of each tool and the kind that is
/// selected.
pub struct ManagerState {
    pub line: Option<Pos>,
    pub eraser: Option<Pos>,
    pub active: DrawingTools,
}

impl ManagerState {
    /// The anchor of the selected tool.
    pub open spec fn anchor(self) -> Option<Pos> {
        match self.active {
            DrawingTools::Line => self.line,
            DrawingTools::Eraser => self.eraser,
        }
    }

    /// The state with `tool` selected.
    pub open spec fn select(self, tool: DrawingTools) -> ManagerState {
        ManagerState { active: tool, ..self }
    }

    /// The state with the anchor of the selected tool replaced.
    pub open spec fn with_anchor(self, anchor: Option<Pos>) -> ManagerState {
        match self.active {
            DrawingTools::Line => ManagerState { line: anchor, ..self },
            DrawingTools::Eraser => ManagerState { eraser: anchor, ..self },
        }
    }
}

/// Holds one tool of each kind and routes the phases of a gesture to the one
/// that is selected. Towards its caller it is a tool itself.
pub struct ToolManager {
    line: LineTool,
    eraser: EraseTool,
    current: DrawingTools,
}

impl View for ToolManager {
    type V = ManagerState;

    closed spec fn view(&self) -> ManagerState {
        ManagerState {
            line: self.line.anchor(),
            eraser: self.eraser.anchor(),
            active: self.current,
        }
    }
}

impl ToolManager {
    /// A manager whose tools are idle, with the line tool selected.
    pub fn new() -> (manager: Self)
        ensures
            manager@ == (ManagerState { line: None, eraser: None, active: DrawingTools::Line }),
    {
        Self { line: LineTool::new(), eraser: EraseTool::new(), current: DrawingTools::Line }
    }

    /// Selects `tool`. A gesture in progress is not ended: each tool keeps
    /// its anchor until its own `end`.
    pub fn set_tool(&mut self, tool: DrawingTools)
        ensures
            final(self)@ == old(self)@.select(tool),
    {
        self.current = tool;
    }

    /// The kind of tool that is selected.
    pub fn get_active_tool(&self) -> (tool: DrawingTools)
        ensures
            tool == self@.active,
    {
        self.current
    }

    /// The cell where the selected tool's gesture in progress began.
    pub fn anchor_cell(&self) -> (cell: Option<Cell>)
        ensures
            match cell {
                Some(c) => self.anchor() == Some(c@),
                None => self.anchor() is None,
            },
    {
        match self.current {
            DrawingTools::Line => self.line.anchor_cell(),
            DrawingTools::Eraser => self.eraser.anchor_cell(),
        }
    }
}

impl ToolControl for ToolManager {
    open spec fn anchor(&self) -> Option<Pos> {
        self@.anchor()
    }

    open spec fn marker(&self) -> char {
        self@.active.marker()
    }

    fn start(&mut self, event: &PointerEvent, cell_size: (u64, u64), grid: (usize, usize))
        ensures
            final(self)@ == old(self)@.with_anchor(Some(cell_under(*event, cell_size, grid))),
    {
        match self.current {
            DrawingTools::Line => self.line.start(event, cell_size, grid),
            DrawingTools::Eraser => self.eraser.start(event, cell_size, grid),
        }
    }

    fn draw(
        &mut self,
        event: &PointerEvent,
        buffer: &mut Vec<char>,
        cell_size: (u64, u64),
        grid: (usize, usize),
    )
        ensures
            final(buffer)@ == traced(
                old(buffer)@,
                old(self)@.anchor(),
                cell_under(*event, cell_size, grid),
                grid,
                old(self)@.active.marker(),
            ),
            final(self)@ == old(self)@,
    {
        match self.current {
            DrawingTools::Line => self.line.draw(event, buffer, cell_size, grid),
            DrawingTools::Eraser => self.eraser.draw(event, buffer, cell_size, grid),
        }
    }

    fn end(
        &mut self,
        event: &PointerEvent,
        buffer: &mut Vec<char>,
        cell_size: (u64, u64),
        grid: (usize, usize),
    )
        ensures
            final(buffer)@ == traced(
                old(buffer)@,
                old(self)@.anchor(),
                cell_under(*event, cell_size, grid),
                grid,
                old(self)@.active.marker(),
            ),
            final(self)@ == old(self)@.with_anchor(None),
    {
        match self.current {
            DrawingTools::Line => self.line.end(event, buffer, cell_size, grid),
            DrawingTools::Eraser => self.eraser.end(event, buffer, cell_size, grid),
        }
    }
}

/// Selecting a tool hands the gestures that follow to that tool and to no
/// other: a gesture that begins on `press` paints the segment from `press` to
/// the head with the marker of the selected kind, and the anchor of the other
/// tool stays as it was.
pub proof fn lemma_selected_tool_is_driven(
    state: ManagerState,
    tool: DrawingTools,
    buf: Seq<char>,
    press: Pos,
    head: Pos,
    grid: (usize, usize),
)
    ensures
        ({
            let chosen = state.select(tool);
            let started = chosen.with_anchor(Some(press));
            let ended = started.with_anchor(None);
            &&& chosen.active == tool
            &&& started.active == tool
            &&& ended.active == tool
            &&& traced(buf, started.anchor(), head, grid, started.active.marker()) == traced(
                buf,
                Some(press),
                head,
                grid,
                tool.marker(),
            )
            &&& ended.anchor() is None
            &&& tool == DrawingTools::Line ==> started.eraser == state.eraser && ended.eraser
                == state.eraser
            &&& tool == DrawingTools::Eraser ==> started.line == state.line && ended.line
                == state.line
        }),
{
}

} // verus!

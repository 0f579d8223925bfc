use cell_canvas::canvas::{BLANK, FILLED};
use cell_canvas::grid::{Cell, PointerEvent};
use cell_canvas::tools::erase::EraseTool;
use cell_canvas::tools::line::LineTool;
use cell_canvas::tools::{DrawingTools, ToolControl, ToolManager};

const CELL: (u64, u64) = (10, 10);
const GRID: (usize, usize) = (10, 10);

fn at(x: i64, y: i64) -> PointerEvent {
    PointerEvent { x, y }
}

fn diagonal(on: char, off: char) -> Vec<char> {
    let mut buffer: Vec<char> = vec![off; 100];
    for i in 0..10 {
        buffer[i * 10 + i] = on;
    }
    buffer
}

fn gesture(tool: &mut dyn ToolControl, buffer: &mut Vec<char>, from: (i64, i64), to: (i64, i64)) {
    tool.start(&at(from.0, from.1), CELL, GRID);
    tool.draw(&at(to.0, to.1), buffer, CELL, GRID);
    tool.end(&at(to.0, to.1), buffer, CELL, GRID);
}

#[test]
fn tool_names() {
    assert_eq!(DrawingTools::Line.to_string(), "LINE");
    assert_eq!(DrawingTools::Eraser.to_string(), "ERASER");
}

#[test]
fn tool_kinds_compare() {
    assert_eq!(DrawingTools::Line, DrawingTools::Line);
    assert_ne!(DrawingTools::Line, DrawingTools::Eraser);
    let copy: DrawingTools = DrawingTools::Eraser;
    let other: DrawingTools = copy;
    assert_eq!(copy, other);
}

#[test]
fn new_manager_selects_the_line_tool_and_is_idle() {
    let manager = ToolManager::new();
    assert_eq!(manager.get_active_tool(), DrawingTools::Line);
    assert_eq!(manager.anchor_cell(), None);
}

#[test]
fn set_tool_changes_the_active_tool() {
    let mut manager = ToolManager::new();
    manager.set_tool(DrawingTools::Eraser);
    assert_eq!(manager.get_active_tool(), DrawingTools::Eraser);
    manager.set_tool(DrawingTools::Eraser);
    assert_eq!(manager.get_active_tool(), DrawingTools::Eraser);
    manager.set_tool(DrawingTools::Line);
    assert_eq!(manager.get_active_tool(), DrawingTools::Line);
}

#[test]
fn line_gesture_draws_the_diagonal() {
    let mut manager = ToolManager::new();
    let mut buffer: Vec<char> = vec![BLANK; 100];

    manager.start(&at(5, 5), CELL, GRID);
    assert_eq!(manager.anchor_cell(), Some(Cell { row: 0, col: 0 }));
    assert_eq!(buffer, vec![BLANK; 100]);

    manager.draw(&at(95, 95), &mut buffer, CELL, GRID);
    assert_eq!(buffer.iter().filter(|c| **c == FILLED).count(), 10);
    assert_eq!(buffer, diagonal(FILLED, BLANK));
    assert_eq!(manager.anchor_cell(), Some(Cell { row: 0, col: 0 }));

    let drawn: Vec<char> = buffer.clone();
    manager.end(&at(95, 95), &mut buffer, CELL, GRID);
    assert_eq!(buffer, drawn);
    assert_eq!(manager.anchor_cell(), None);
}

#[test]
fn eraser_gesture_clears_the_diagonal() {
    let mut manager = ToolManager::new();
    manager.set_tool(DrawingTools::Eraser);
    let mut buffer: Vec<char> = vec![FILLED; 100];

    manager.start(&at(5, 5), CELL, GRID);
    assert_eq!(manager.anchor_cell(), Some(Cell { row: 0, col: 0 }));
    assert_eq!(buffer, vec![FILLED; 100]);

    manager.draw(&at(95, 95), &mut buffer, CELL, GRID);
    assert_eq!(buffer.iter().filter(|c| **c == BLANK).count(), 10);
    assert_eq!(buffer, diagonal(BLANK, FILLED));

    manager.end(&at(95, 95), &mut buffer, CELL, GRID);
    assert_eq!(buffer, diagonal(BLANK, FILLED));
    assert_eq!(manager.anchor_cell(), None);
}

#[test]
fn line_tool_alone_draws_the_diagonal() {
    let mut tool = LineTool::new();
    assert_eq!(tool.anchor_cell(), None);
    let mut buffer: Vec<char> = vec![BLANK; 100];
    tool.start(&at(5, 5), CELL, GRID);
    assert_eq!(tool.anchor_cell(), Some(Cell { row: 0, col: 0 }));
    tool.draw(&at(95, 95), &mut buffer, CELL, GRID);
    assert_eq!(buffer, diagonal(FILLED, BLANK));
    tool.end(&at(95, 95), &mut buffer, CELL, GRID);
    assert_eq!(buffer, diagonal(FILLED, BLANK));
    assert_eq!(tool.anchor_cell(), None);
}

#[test]
fn erase_tool_alone_clears_the_diagonal() {
    let mut tool = EraseTool::new();
    assert_eq!(tool.anchor_cell(), None);
    let mut buffer: Vec<char> = vec![FILLED; 100];
    tool.start(&at(5, 5), CELL, GRID);
    assert_eq!(tool.anchor_cell(), Some(Cell { row: 0, col: 0 }));
    tool.draw(&at(95, 95), &mut buffer, CELL, GRID);
    assert_eq!(buffer, diagonal(BLANK, FILLED));
    tool.end(&at(95, 95), &mut buffer, CELL, GRID);
    assert_eq!(buffer, diagonal(BLANK, FILLED));
    assert_eq!(tool.anchor_cell(), None);
}

#[test]
fn end_draws_to_the_released_position() {
    let mut tool = LineTool::new();
    let mut buffer: Vec<char> = vec![BLANK; 100];
    tool.start(&at(5, 5), CELL, GRID);
    tool.end(&at(35, 5), &mut buffer, CELL, GRID);
    let mut expected: Vec<char> = vec![BLANK; 100];
    for col in 0..4 {
        expected[col] = FILLED;
    }
    assert_eq!(buffer, expected);
    assert_eq!(tool.anchor_cell(), None);
}

#[test]
fn idle_tool_writes_nothing() {
    let mut line = LineTool::new();
    let mut eraser = EraseTool::new();
    let mut manager = ToolManager::new();
    let mut buffer: Vec<char> = vec!['.'; 100];
    line.draw(&at(55, 55), &mut buffer, CELL, GRID);
    line.end(&at(55, 55), &mut buffer, CELL, GRID);
    eraser.draw(&at(55, 55), &mut buffer, CELL, GRID);
    eraser.end(&at(55, 55), &mut buffer, CELL, GRID);
    manager.draw(&at(55, 55), &mut buffer, CELL, GRID);
    manager.end(&at(55, 55), &mut buffer, CELL, GRID);
    assert_eq!(buffer, vec!['.'; 100]);
}

#[test]
fn draw_after_end_writes_nothing() {
    let mut tool = LineTool::new();
    let mut buffer: Vec<char> = vec![BLANK; 100];
    gesture(&mut tool, &mut buffer, (5, 5), (25, 5));
    let after: Vec<char> = buffer.clone();
    tool.draw(&at(95, 95), &mut buffer, CELL, GRID);
    assert_eq!(buffer, after);
}

#[test]
fn start_does_not_touch_the_buffer_and_restarts_a_gesture_that_never_ended() {
    let mut tool = LineTool::new();
    let mut buffer: Vec<char> = vec![BLANK; 100];
    tool.start(&at(5, 5), CELL, GRID);
    tool.draw(&at(25, 5), &mut buffer, CELL, GRID);
    // No end: the next start takes a new anchor.
    tool.start(&at(5, 95), CELL, GRID);
    assert_eq!(tool.anchor_cell(), Some(Cell { row: 9, col: 0 }));
    tool.draw(&at(25, 95), &mut buffer, CELL, GRID);
    let mut expected: Vec<char> = vec![BLANK; 100];
    for col in 0..3 {
        expected[col] = FILLED;
        expected[90 + col] = FILLED;
    }
    assert_eq!(buffer, expected);
}

#[test]
fn draw_then_erase_from_the_same_anchor_leaves_the_cells_blank() {
    let mut manager = ToolManager::new();
    let mut buffer: Vec<char> = vec![BLANK; 100];
    gesture(&mut manager, &mut buffer, (15, 85), (73, 22));
    assert!(buffer.contains(&FILLED));
    manager.set_tool(DrawingTools::Eraser);
    gesture(&mut manager, &mut buffer, (15, 85), (73, 22));
    assert_eq!(buffer, vec![BLANK; 100]);
}

#[test]
fn advancing_along_one_direction_keeps_what_was_drawn() {
    let mut tool = LineTool::new();
    let mut buffer: Vec<char> = vec![BLANK; 100];
    tool.start(&at(5, 5), CELL, GRID);
    let mut filled: Vec<usize> = Vec::new();
    // Two columns for each row: the head moves along one ray.
    for step in 1..5 {
        let x: i64 = 5 + 20 * step;
        let y: i64 = 5 + 10 * step;
        tool.draw(&at(x, y), &mut buffer, CELL, GRID);
        for i in &filled {
            assert_eq!(buffer[*i], FILLED);
        }
        filled = (0..100).filter(|i| buffer[*i] == FILLED).collect();
        assert_eq!(filled.len() as i64, 2 * step + 1);
    }
}

#[test]
fn moving_the_head_about_never_clears_a_filled_cell() {
    let mut tool = LineTool::new();
    let mut buffer: Vec<char> = vec![BLANK; 100];
    tool.start(&at(45, 45), CELL, GRID);
    let heads: [(i64, i64); 5] = [(95, 45), (95, 95), (5, 95), (5, 5), (60, 0)];
    let mut count: usize = 0;
    for head in heads {
        let before: Vec<char> = buffer.clone();
        tool.draw(&at(head.0, head.1), &mut buffer, CELL, GRID);
        for i in 0..100 {
            if before[i] == FILLED {
                assert_eq!(buffer[i], FILLED);
            }
        }
        let now: usize = buffer.iter().filter(|c| **c == FILLED).count();
        assert!(now > count);
        count = now;
    }
}

#[test]
fn pointer_outside_the_canvas_draws_up_to_the_edge() {
    let mut tool = LineTool::new();
    let mut buffer: Vec<char> = vec![BLANK; 100];
    tool.start(&at(55, 35), CELL, GRID);
    tool.draw(&at(1000, 35), &mut buffer, CELL, GRID);
    let mut expected: Vec<char> = vec![BLANK; 100];
    for col in 5..10 {
        expected[30 + col] = FILLED;
    }
    assert_eq!(buffer, expected);
    tool.draw(&at(-1000, 35), &mut buffer, CELL, GRID);
    for col in 0..10 {
        expected[30 + col] = FILLED;
    }
    assert_eq!(buffer, expected);
    assert_eq!(buffer.len(), 100);
}

#[test]
fn gesture_that_starts_outside_is_anchored_on_the_edge() {
    let mut tool = EraseTool::new();
    tool.start(&at(-40, 250), CELL, GRID);
    assert_eq!(tool.anchor_cell(), Some(Cell { row: 9, col: 0 }));
    tool.start(&at(250, -40), CELL, GRID);
    assert_eq!(tool.anchor_cell(), Some(Cell { row: 0, col: 9 }));
}

#[test]
fn selected_tool_is_the_one_that_paints() {
    let mut manager = ToolManager::new();
    let mut buffer: Vec<char> = vec![FILLED; 100];

    manager.set_tool(DrawingTools::Eraser);
    gesture(&mut manager, &mut buffer, (5, 5), (95, 95));
    assert_eq!(buffer, diagonal(BLANK, FILLED));

    manager.set_tool(DrawingTools::Line);
    gesture(&mut manager, &mut buffer, (5, 5), (95, 95));
    assert_eq!(buffer, vec![FILLED; 100]);
}

#[test]
fn switching_tools_in_a_gesture_leaves_the_new_tool_idle() {
    let mut manager = ToolManager::new();
    let mut buffer: Vec<char> = vec![FILLED; 100];
    manager.start(&at(5, 5), CELL, GRID);
    assert_eq!(manager.anchor_cell(), Some(Cell { row: 0, col: 0 }));

    // The eraser has had no start: it is idle and writes nothing.
    manager.set_tool(DrawingTools::Eraser);
    assert_eq!(manager.anchor_cell(), None);
    manager.draw(&at(95, 95), &mut buffer, CELL, GRID);
    manager.end(&at(95, 95), &mut buffer, CELL, GRID);
    assert_eq!(buffer, vec![FILLED; 100]);

    // The line tool still holds the anchor of the gesture that it began.
    manager.set_tool(DrawingTools::Line);
    assert_eq!(manager.anchor_cell(), Some(Cell { row: 0, col: 0 }));
    let mut blank: Vec<char> = vec![BLANK; 100];
    manager.draw(&at(95, 95), &mut blank, CELL, GRID);
    assert_eq!(blank, diagonal(FILLED, BLANK));
}

#[test]
fn geometry_is_taken_from_each_call() {
    let mut tool = LineTool::new();
    tool.start(&at(95, 95), CELL, GRID);
    assert_eq!(tool.anchor_cell(), Some(Cell { row: 9, col: 9 }));
    // The canvas has shrunk to 4 x 4 cells of 20 x 20.
    let mut buffer: Vec<char> = vec![BLANK; 16];
    tool.draw(&at(5, 70), &mut buffer, (20, 20), (4, 4));
    let expected: Vec<char> = "            ####".chars().collect();
    assert_eq!(buffer, expected);
}

#[test]
fn grid_without_cells_is_left_alone() {
    let mut manager = ToolManager::new();
    let mut buffer: Vec<char> = Vec::new();
    manager.start(&at(5, 5), CELL, (0, 0));
    manager.draw(&at(95, 95), &mut buffer, CELL, (0, 0));
    manager.end(&at(95, 95), &mut buffer, CELL, (0, 7));
    assert!(buffer.is_empty());
}

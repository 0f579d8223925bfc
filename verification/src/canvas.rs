//! Writing a marker along a segment of a row-major cell buffer.
//!
//! A stroke runs from an anchor, the cell where a gesture began, to a head,
//! the cell under the pointer. Both are clamped to the grid, and the marker
//! is written into every cell of the segment between them. Each stroke is
//! painted from its anchor anew.

use vstd::prelude::*;
use crate::grid::{
    Cell,
    Pos,
    cell_index,
    clamp_cell,
    in_grid,
    index_cell,
    index_of,
    lemma_cell_index_roundtrip,
    lemma_index_cell_roundtrip,
    nearest_cell,
};
use crate::raster::{
    extends,
    lemma_segment_ends,
    lemma_segment_in_grid,
    lemma_segment_prefix,
    lemma_segment_symmetric,
    on_segment,
    rasterize,
    reached,
    segment_cell,
    span,
};

verus! {

/// The marker of a cell that a line covers.
pub const FILLED: char = '#';

/// The marker of an empty cell.
pub const BLANK: char = ' ';

/// Whether a stroke from `anchor` to `head` touches place `i` of the buffer
/// of `grid`: there is an anchor, the grid has cells, and the cell at `i`
/// lies on the segment between the two ends, each clamped to the grid.
pub open spec fn touched(anchor: Option<Pos>, head: Pos, grid: (usize, usize), i: int) -> bool {
    match anchor {
        Some(a) => {
            &&& grid.0 > 0
            &&& grid.1 > 0
            &&& on_segment(
                nearest_cell(a, grid),
                nearest_cell(head, grid),
                index_cell(i, grid.1 as int),
            )
        },
        None => false,
    }
}

/// What a gesture phase leaves of `buf`: the places that the stroke touches
/// hold `mark`, all others hold what they held.
pub open spec fn traced(
    buf: Seq<char>,
    anchor: Option<Pos>,
    head: Pos,
    grid: (usize, usize),
    mark: char,
) -> Seq<char> {
    Seq::new(
        buf.len(),
        |i: int|
            if touched(anchor, head, grid, i) {
                mark
            } else {
                buf[i]
            },
    )
}

/// A gesture phase keeps the length of the buffer, changes no cell but to
/// the marker, and never takes the marker away from a cell that holds it.
/// Without an anchor, or on a grid without cells, it changes nothing.
pub proof fn lemma_trace_keeps_marked(
    buf: Seq<char>,
    anchor: Option<Pos>,
    head: Pos,
    grid: (usize, usize),
    mark: char,
)
    ensures
        traced(buf, anchor, head, grid, mark).len() == buf.len(),
        forall|i: int|
            0 <= i < buf.len() ==> {
                let cell = #[trigger] traced(buf, anchor, head, grid, mark)[i];
                &&& cell == mark || cell == buf[i]
                &&& buf[i] == mark ==> cell == mark
            },
        anchor is None || grid.0 == 0 || grid.1 == 0 ==> traced(buf, anchor, head, grid, mark)
            == buf,
{
    if anchor is None || grid.0 == 0 || grid.1 == 0 {
        assert(traced(buf, anchor, head, grid, mark) =~= buf);
    }
}

/// A stroke puts the marker on both of its ends.
pub proof fn lemma_trace_covers_ends(
    buf: Seq<char>,
    anchor: Pos,
    head: Pos,
    grid: (usize, usize),
    mark: char,
)
    requires
        buf.len() == grid.0 * grid.1,
        grid.0 > 0,
        grid.1 > 0,
    ensures
        ({
            let after = traced(buf, Some(anchor), head, grid, mark);
            &&& after[cell_index(nearest_cell(anchor, grid), grid.1 as int)] == mark
            &&& after[cell_index(nearest_cell(head, grid), grid.1 as int)] == mark
        }),
{
    let a = nearest_cell(anchor, grid);
    let b = nearest_cell(head, grid);
    lemma_segment_ends(a, b);
    lemma_cell_index_roundtrip(a, grid);
    lemma_cell_index_roundtrip(b, grid);
}

/// A stroke looks the same whichever of its ends it is painted from.
pub proof fn lemma_trace_symmetric(buf: Seq<char>, a: Pos, b: Pos, grid: (usize, usize), mark: char)
    ensures
        traced(buf, Some(a), b, grid, mark) == traced(buf, Some(b), a, grid, mark),
{
    let forward = traced(buf, Some(a), b, grid, mark);
    let backward = traced(buf, Some(b), a, grid, mark);
    assert forall|i: int| 0 <= i < buf.len() implies forward[i] == backward[i] by {
        lemma_segment_symmetric(
            nearest_cell(a, grid),
            nearest_cell(b, grid),
            index_cell(i, grid.1 as int),
        );
    }
}

/// A gesture phase that is repeated with the pointer where it was changes
/// nothing: a stroke is painted from its anchor each time, not added to.
pub proof fn lemma_trace_idempotent(
    buf: Seq<char>,
    anchor: Option<Pos>,
    head: Pos,
    grid: (usize, usize),
    mark: char,
)
    ensures
        traced(traced(buf, anchor, head, grid, mark), anchor, head, grid, mark) == traced(
            buf,
            anchor,
            head,
            grid,
            mark,
        ),
{
    assert(traced(traced(buf, anchor, head, grid, mark), anchor, head, grid, mark) =~= traced(
        buf,
        anchor,
        head,
        grid,
        mark,
    ));
}

/// A stroke of the eraser over a stroke of the line tool, from the same
/// anchor to the same head, leaves every cell that the strokes touch blank
/// and every other cell as it was before the line was drawn. A buffer that
/// was blank along the stroke is restored as a whole.
pub proof fn lemma_trace_erase_undoes_draw(
    buf: Seq<char>,
    anchor: Option<Pos>,
    head: Pos,
    grid: (usize, usize),
)
    ensures
        ({
            let drawn = traced(buf, anchor, head, grid, FILLED);
            let erased = traced(drawn, anchor, head, grid, BLANK);
            &&& erased.len() == buf.len()
            &&& forall|i: int|
                0 <= i < buf.len() ==> #[trigger] erased[i] == if touched(anchor, head, grid, i) {
                    BLANK
                } else {
                    buf[i]
                }
            &&& (forall|i: int|
                0 <= i < buf.len() && touched(anchor, head, grid, i) ==> buf[i] == BLANK) ==> erased
                == buf
        }),
{
    let drawn = traced(buf, anchor, head, grid, FILLED);
    let erased = traced(drawn, anchor, head, grid, BLANK);
    if forall|i: int| 0 <= i < buf.len() && touched(anchor, head, grid, i) ==> buf[i] == BLANK {
        assert(erased =~= buf);
    }
}

/// Moving the head further along the same ray only adds to the stroke: what
/// the shorter stroke touched is touched by the longer one too, so a cell
/// that the shorter stroke marked is marked after the longer one.
pub proof fn lemma_trace_extends(
    buf: Seq<char>,
    anchor: Pos,
    head: Pos,
    further: Pos,
    grid: (usize, usize),
    mark: char,
)
    requires
        extends(nearest_cell(anchor, grid), nearest_cell(head, grid), nearest_cell(further, grid)),
    ensures
        forall|i: int|
            touched(Some(anchor), head, grid, i) ==> touched(Some(anchor), further, grid, i),
        traced(traced(buf, Some(anchor), head, grid, mark), Some(anchor), further, grid, mark)
            == traced(buf, Some(anchor), further, grid, mark),
{
    let a = nearest_cell(anchor, grid);
    let b = nearest_cell(head, grid);
    let c = nearest_cell(further, grid);
    assert forall|i: int| touched(Some(anchor), head, grid, i) implies touched(
        Some(anchor),
        further,
        grid,
        i,
    ) by {
        let p = index_cell(i, grid.1 as int);
        let k = choose|k: int| 0 <= k <= span(a, b) && #[trigger] segment_cell(a, b, k) == p;
        lemma_segment_prefix(a, b, c, k);
    }
    let short = traced(buf, Some(anchor), head, grid, mark);
    assert(traced(short, Some(anchor), further, grid, mark) =~= traced(
        buf,
        Some(anchor),
        further,
        grid,
        mark,
    ));
}

/// The buffer after `mark` has been written into the cells that the segment
/// from `a` to `b` visits within its first `m` steps.
spec fn painted_through(
    buf: Seq<char>,
    a: Pos,
    b: Pos,
    m: int,
    cols: int,
    mark: char,
) -> Seq<char> {
    Seq::new(
        buf.len(),
        |i: int|
            if reached(a, b, m, index_cell(i, cols)) {
                mark
            } else {
                buf[i]
            },
    )
}

/// Before the first step nothing is painted.
proof fn lemma_paint_none(buf: Seq<char>, a: Pos, b: Pos, cols: int, mark: char)
    ensures
        painted_through(buf, a, b, -1, cols, mark) == buf,
{
    assert(painted_through(buf, a, b, -1, cols, mark) =~= buf);
}

/// Writing one more cell of a segment extends what is painted by one step.
proof fn lemma_paint_next(buf: Seq<char>, a: Pos, b: Pos, m: int, grid: (usize, usize), mark: char)
    requires
        buf.len() == grid.0 * grid.1,
        in_grid(a, grid),
        in_grid(b, grid),
        0 <= m <= span(a, b),
    ensures
        painted_through(buf, a, b, m - 1, grid.1 as int, mark).update(
            cell_index(segment_cell(a, b, m), grid.1 as int),
            mark,
        ) == painted_through(buf, a, b, m, grid.1 as int, mark),
{
    let cols = grid.1 as int;
    let p = segment_cell(a, b, m);
    let at = cell_index(p, cols);
    let before = painted_through(buf, a, b, m - 1, cols, mark);
    let after = painted_through(buf, a, b, m, cols, mark);
    lemma_segment_in_grid(a, b, m, grid);
    lemma_cell_index_roundtrip(p, grid);
    assert forall|i: int| 0 <= i < buf.len() implies before.update(at, mark)[i] == after[i] by {
        let c = index_cell(i, cols);
        if i != at && reached(a, b, m, c) {
            // Step `m` stands on the cell at `at`, so an earlier step visits `c`.
            let k = choose|k: int| 0 <= k <= m && #[trigger] segment_cell(a, b, k) == c;
            if k == m {
                lemma_index_cell_roundtrip(i, grid);
            }
            assert(reached(a, b, m - 1, c));
        }
    }
    assert(before.update(at, mark) =~= after);
}

/// Writes `mark` into every cell of the segment between two cells of the
/// grid.
fn paint_cells(buffer: &mut Vec<char>, a: Cell, b: Cell, grid: (usize, usize), mark: char)
    requires
        old(buffer).len() == grid.0 * grid.1,
        in_grid(a@, grid),
        in_grid(b@, grid),
    ensures
        final(buffer)@ == painted_through(old(buffer)@, a@, b@, span(a@, b@), grid.1 as int, mark),
{
    let ghost before = buffer@;
    let cells = rasterize(a, b);
    let mut k: usize = 0;
    proof {
        lemma_paint_none(before, a@, b@, grid.1 as int, mark);
    }
    while k < cells.len()
        invariant
            before.len() == grid.0 * grid.1,
            buffer.len() == before.len(),
            in_grid(a@, grid),
            in_grid(b@, grid),
            0 <= k <= cells.len(),
            cells.len() == span(a@, b@) + 1,
            forall|j: int|
                0 <= j <= span(a@, b@) ==> (#[trigger] cells[j])@ == segment_cell(a@, b@, j),
            buffer@ == painted_through(before, a@, b@, k - 1, grid.1 as int, mark),
        decreases cells.len() - k,
    {
        let cell = cells[k];
        proof {
            lemma_segment_in_grid(a@, b@, k as int, grid);
            lemma_paint_next(before, a@, b@, k as int, grid, mark);
        }
        let at = index_of(cell, grid);
        buffer.set(at, mark);
        k = k + 1;
    }
}

/// Writes `mark` into every cell of the segment from `a` to `b`. An end
/// that lies outside the grid is clamped to it first; on a grid without
/// cells nothing is written.
pub fn paint_segment(buffer: &mut Vec<char>, a: Cell, b: Cell, grid: (usize, usize), mark: char)
    requires
        old(buffer).len() == grid.0 * grid.1,
    ensures
        final(buffer)@ == traced(old(buffer)@, Some(a@), b@, grid, mark),
{
    if grid.0 > 0 && grid.1 > 0 {
        paint_cells(buffer, clamp_cell(a, grid), clamp_cell(b, grid), grid, mark);
    }
    assert(buffer@ =~= traced(old(buffer)@, Some(a@), b@, grid, mark));
}

/// One phase of a gesture: with a gesture in progress, writes `mark` along
/// the segment from its anchor to `head`; with none, writes nothing.
pub fn trace(
    buffer: &mut Vec<char>,
    anchor: Option<Cell>,
    head: Cell,
    grid: (usize, usize),
    mark: char,
)
    requires
        old(buffer).len() == grid.0 * grid.1,
    ensures
        final(buffer)@ == traced(
            old(buffer)@,
            match anchor {
                Some(a) => Some(a@),
                None => None,
            },
            head@,
            grid,
            mark,
        ),
{
    match anchor {
        Some(a) => paint_segment(buffer, a, head, grid, mark),
        None => {},
    }
}

} // verus!

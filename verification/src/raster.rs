//! The cells of a straight segment between two cells.
//!
//! A segment from `a` to `b` takes `span(a, b)` steps, the larger of its
//! extents along the two axes. After `k` steps it stands on the cell whose
//! coordinates are those of the ideal line rounded to the nearest integer,
//! a half rounding up. Along the longer axis every step moves by one cell;
//! along the other axis a step moves by one cell or stays. This is the line
//! that Bresenham's algorithm draws, stated in closed form.

use vstd::prelude::*;
use vstd::math::max;
use vstd::arithmetic::div_mod::{
    lemma_fundamental_div_mod,
    lemma_fundamental_div_mod_converse,
    lemma_mod_bound,
};
use crate::grid::{Cell, Pos, gap, in_grid};

verus! {

/// The number of steps from `a` to `b`: the larger of the two extents.
pub open spec fn span(a: Pos, b: Pos) -> int {
    max(gap(a.row, b.row), gap(a.col, b.col))
}

/// How far a coordinate has moved after `k` of `n` steps that move it by `d`
/// in all: `k * d / n` rounded to the nearest integer, a half rounding up.
pub open spec fn offset(k: int, d: int, n: int) -> int {
    if n > 0 {
        (2 * k * d + n) / (2 * n)
    } else {
        0
    }
}

/// The cell of the segment from `a` to `b` after `k` steps.
pub open spec fn segment_cell(a: Pos, b: Pos, k: int) -> Pos {
    Pos {
        row: a.row + offset(k, b.row - a.row, span(a, b)),
        col: a.col + offset(k, b.col - a.col, span(a, b)),
    }
}

/// Whether the segment from `a` to `b` visits `p` within its first `m` steps.
pub open spec fn reached(a: Pos, b: Pos, m: int, p: Pos) -> bool {
    exists|k: int| 0 <= k <= m && #[trigger] segment_cell(a, b, k) == p
}

/// Whether the segment from `a` to `b` visits `p`.
pub open spec fn on_segment(a: Pos, b: Pos, p: Pos) -> bool {
    reached(a, b, span(a, b), p)
}

/// The cells of the segment from `a` to `b`, in the order of the steps.
pub open spec fn segment(a: Pos, b: Pos) -> Seq<Pos> {
    Seq::new((span(a, b) + 1) as nat, |k: int| segment_cell(a, b, k))
}

/// Whether two cells touch by a side or a corner.
pub open spec fn adjacent(p: Pos, q: Pos) -> bool {
    max(gap(p.row, q.row), gap(p.col, q.col)) == 1
}

/// The offset is the one integer `q` with `q - 1/2 <= k * d / n < q + 1/2`.
pub proof fn lemma_offset_bounds(k: int, d: int, n: int)
    requires
        n > 0,
    ensures
        2 * n * offset(k, d, n) <= 2 * k * d + n < 2 * n * offset(k, d, n) + 2 * n,
{
    let x = 2 * k * d + n;
    let m = 2 * n;
    lemma_fundamental_div_mod(x, m);
    lemma_mod_bound(x, m);
    assert(m * (x / m) == 2 * n * (x / m)) by (nonlinear_arith)
        requires
            m == 2 * n,
    ;
}

/// An integer within a half of `k * d / n`, the upper half excluded, is the
/// offset.
pub proof fn lemma_offset_unique(k: int, d: int, n: int, q: int)
    requires
        n > 0,
        2 * n * q <= 2 * k * d + n < 2 * n * q + 2 * n,
    ensures
        offset(k, d, n) == q,
{
    let x = 2 * k * d + n;
    let m = 2 * n;
    assert(q * m == 2 * n * q) by (nonlinear_arith)
        requires
            m == 2 * n,
    ;
    lemma_fundamental_div_mod_converse(x, m, q, x - q * m);
}

/// A coordinate that moves by `d` in `n` steps has not moved after none of
/// them and has moved by `d` after all.
pub proof fn lemma_offset_ends(d: int, n: int)
    requires
        n > 0,
    ensures
        offset(0, d, n) == 0,
        offset(n, d, n) == d,
{
    assert(2 * 0 * d == 0) by (nonlinear_arith);
    lemma_offset_unique(0, d, n, 0);
    lemma_offset_unique(n, d, n, d);
}

/// Along the longer axis the coordinate moves by one cell at every step.
pub proof fn lemma_offset_full(k: int, d: int, n: int)
    requires
        n > 0,
        d == n || d == -n,
    ensures
        d == n ==> offset(k, d, n) == k,
        d == -n ==> offset(k, d, n) == -k,
{
    if d == n {
        assert(2 * n * k <= 2 * k * d + n < 2 * n * k + 2 * n) by (nonlinear_arith)
            requires
                n > 0,
                d == n,
        ;
        lemma_offset_unique(k, d, n, k);
    } else {
        assert(2 * n * (-k) <= 2 * k * d + n < 2 * n * (-k) + 2 * n) by (nonlinear_arith)
            requires
                n > 0,
                d == -n,
        ;
        lemma_offset_unique(k, d, n, -k);
    }
}

/// One more step moves a coordinate by one cell towards its end, or leaves
/// it where it is.
pub proof fn lemma_offset_step(k: int, d: int, n: int)
    requires
        n > 0,
        -n <= d <= n,
    ensures
        d >= 0 ==> offset(k, d, n) <= offset(k + 1, d, n) <= offset(k, d, n) + 1,
        d <= 0 ==> offset(k, d, n) - 1 <= offset(k + 1, d, n) <= offset(k, d, n),
{
    lemma_offset_bounds(k, d, n);
    lemma_offset_bounds(k + 1, d, n);
    let q = offset(k, d, n);
    let r = offset(k + 1, d, n);
    assert(2 * (k + 1) * d == 2 * k * d + 2 * d) by (nonlinear_arith);
    if d >= 0 {
        assert(q <= r <= q + 1) by (nonlinear_arith)
            requires
                n > 0,
                0 <= d <= n,
                2 * n * q <= 2 * k * d + n < 2 * n * q + 2 * n,
                2 * n * r <= 2 * k * d + 2 * d + n < 2 * n * r + 2 * n,
        ;
    }
    if d <= 0 {
        assert(q - 1 <= r <= q) by (nonlinear_arith)
            requires
                n > 0,
                -n <= d <= 0,
                2 * n * q <= 2 * k * d + n < 2 * n * q + 2 * n,
                2 * n * r <= 2 * k * d + 2 * d + n < 2 * n * r + 2 * n,
        ;
    }
}

/// During the steps a coordinate stays between its start and its end.
pub proof fn lemma_offset_between(k: int, d: int, n: int)
    requires
        n > 0,
        0 <= k <= n,
    ensures
        d >= 0 ==> 0 <= offset(k, d, n) <= d,
        d <= 0 ==> d <= offset(k, d, n) <= 0,
{
    lemma_offset_bounds(k, d, n);
    let q = offset(k, d, n);
    if d >= 0 {
        assert(0 <= q <= d) by (nonlinear_arith)
            requires
                n > 0,
                0 <= k <= n,
                d >= 0,
                2 * n * q <= 2 * k * d + n < 2 * n * q + 2 * n,
        ;
    }
    if d <= 0 {
        assert(d <= q <= 0) by (nonlinear_arith)
            requires
                n > 0,
                0 <= k <= n,
                d <= 0,
                2 * n * q <= 2 * k * d + n < 2 * n * q + 2 * n,
        ;
    }
}

/// Walking the steps backwards from the end gives the same coordinates.
pub proof fn lemma_offset_reverse(k: int, d: int, n: int)
    requires
        n > 0,
    ensures
        d + offset(n - k, -d, n) == offset(k, d, n),
{
    lemma_offset_bounds(k, d, n);
    let q = offset(k, d, n);
    assert(2 * n * (q - d) <= 2 * (n - k) * (-d) + n < 2 * n * (q - d) + 2 * n) by (nonlinear_arith)
        requires
            n > 0,
            2 * n * q <= 2 * k * d + n < 2 * n * q + 2 * n,
    ;
    lemma_offset_unique(n - k, -d, n, q - d);
}

/// A segment starts on its first end and stops on its second.
pub proof fn lemma_segment_ends(a: Pos, b: Pos)
    ensures
        segment_cell(a, b, 0) == a,
        segment_cell(a, b, span(a, b)) == b,
        on_segment(a, b, a),
        on_segment(a, b, b),
{
    let n = span(a, b);
    if n > 0 {
        lemma_offset_ends(b.row - a.row, n);
        lemma_offset_ends(b.col - a.col, n);
    }
    assert(segment_cell(a, b, n) == b);
}

/// A segment has no gap: each step leads to a cell that touches the one
/// before, by a side or a corner.
pub proof fn lemma_segment_connected(a: Pos, b: Pos, k: int)
    requires
        0 <= k < span(a, b),
    ensures
        adjacent(segment_cell(a, b, k), segment_cell(a, b, k + 1)),
{
    let n = span(a, b);
    let dr = b.row - a.row;
    let dc = b.col - a.col;
    lemma_offset_step(k, dr, n);
    lemma_offset_step(k, dc, n);
    if dr == n || dr == -n {
        lemma_offset_full(k, dr, n);
        lemma_offset_full(k + 1, dr, n);
    } else {
        lemma_offset_full(k, dc, n);
        lemma_offset_full(k + 1, dc, n);
    }
}

/// A segment visits no cell twice.
pub proof fn lemma_segment_distinct(a: Pos, b: Pos, j: int, k: int)
    requires
        0 <= j <= span(a, b),
        0 <= k <= span(a, b),
        j != k,
    ensures
        segment_cell(a, b, j) != segment_cell(a, b, k),
{
    let n = span(a, b);
    let dr = b.row - a.row;
    let dc = b.col - a.col;
    if n > 0 {
        if dr == n || dr == -n {
            lemma_offset_full(j, dr, n);
            lemma_offset_full(k, dr, n);
        } else {
            lemma_offset_full(j, dc, n);
            lemma_offset_full(k, dc, n);
        }
    }
}

/// A segment stays within the rectangle that its two ends span.
pub proof fn lemma_segment_between(a: Pos, b: Pos, k: int)
    requires
        0 <= k <= span(a, b),
    ensures
        a.row <= segment_cell(a, b, k).row <= b.row || b.row <= segment_cell(a, b, k).row <= a.row,
        a.col <= segment_cell(a, b, k).col <= b.col || b.col <= segment_cell(a, b, k).col <= a.col,
{
    let n = span(a, b);
    if n > 0 {
        lemma_offset_between(k, b.row - a.row, n);
        lemma_offset_between(k, b.col - a.col, n);
    }
}

/// A segment between two cells of a grid visits cells of the grid only.
pub proof fn lemma_segment_in_grid(a: Pos, b: Pos, k: int, grid: (usize, usize))
    requires
        in_grid(a, grid),
        in_grid(b, grid),
        0 <= k <= span(a, b),
    ensures
        in_grid(segment_cell(a, b, k), grid),
{
    lemma_segment_between(a, b, k);
}

/// Every cell of a segment lies within half a cell of the ideal line, along
/// both axes.
pub proof fn lemma_segment_follows_line(a: Pos, b: Pos, k: int)
    requires
        span(a, b) > 0,
    ensures
        ({
            let n = span(a, b);
            let p = segment_cell(a, b, k);
            &&& -n <= 2 * (k * (b.row - a.row) - n * (p.row - a.row)) < n
            &&& -n <= 2 * (k * (b.col - a.col) - n * (p.col - a.col)) < n
        }),
{
    let n = span(a, b);
    let p = segment_cell(a, b, k);
    let dr = b.row - a.row;
    let dc = b.col - a.col;
    lemma_offset_bounds(k, dr, n);
    lemma_offset_bounds(k, dc, n);
    let qr = p.row - a.row;
    let qc = p.col - a.col;
    assert(-n <= 2 * (k * dr - n * qr) < n) by (nonlinear_arith)
        requires
            2 * n * qr <= 2 * k * dr + n < 2 * n * qr + 2 * n,
    ;
    assert(-n <= 2 * (k * dc - n * qc) < n) by (nonlinear_arith)
        requires
            2 * n * qc <= 2 * k * dc + n < 2 * n * qc + 2 * n,
    ;
}

/// The segment from `b` to `a` visits the cells of the segment from `a` to
/// `b` in the opposite order.
pub proof fn lemma_segment_reverse(a: Pos, b: Pos, k: int)
    ensures
        span(b, a) == span(a, b),
        segment_cell(b, a, k) == segment_cell(a, b, span(a, b) - k),
{
    let n = span(a, b);
    if n > 0 {
        lemma_offset_reverse(n - k, b.row - a.row, n);
        lemma_offset_reverse(n - k, b.col - a.col, n);
    }
}

/// A segment visits the same cells in either direction.
pub proof fn lemma_segment_symmetric(a: Pos, b: Pos, p: Pos)
    ensures
        on_segment(a, b, p) == on_segment(b, a, p),
{
    let n = span(a, b);
    if on_segment(a, b, p) {
        let k = choose|k: int| 0 <= k <= n && #[trigger] segment_cell(a, b, k) == p;
        lemma_segment_reverse(a, b, n - k);
        assert(segment_cell(b, a, n - k) == p);
    }
    if on_segment(b, a, p) {
        let k = choose|k: int| 0 <= k <= n && #[trigger] segment_cell(b, a, k) == p;
        lemma_segment_reverse(a, b, k);
        assert(segment_cell(a, b, n - k) == p);
    }
}

/// The cells of the segment from `b` to `a` are those of the segment from
/// `a` to `b`, reversed.
pub proof fn lemma_segment_reversed(a: Pos, b: Pos)
    ensures
        segment(b, a) == segment(a, b).reverse(),
{
    let n = span(a, b);
    assert forall|k: int| 0 <= k <= n implies segment(b, a)[k] == segment(a, b).reverse()[k] by {
        lemma_segment_reverse(a, b, k);
    }
    assert(segment(b, a) =~= segment(a, b).reverse());
}

/// Whether `c` lies on the ray from `a` through `b`, at `b` or beyond it.
pub open spec fn extends(a: Pos, b: Pos, c: Pos) -> bool {
    &&& span(a, b) <= span(a, c)
    &&& (b.row - a.row) * span(a, c) == (c.row - a.row) * span(a, b)
    &&& (b.col - a.col) * span(a, c) == (c.col - a.col) * span(a, b)
}

/// Two moves in the same ratio to their numbers of steps give the same
/// offset after the same number of steps.
pub proof fn lemma_offset_same_slope(k: int, d: int, n: int, e: int, m: int)
    requires
        n > 0,
        m > 0,
        d * m == e * n,
    ensures
        offset(k, d, n) == offset(k, e, m),
{
    lemma_offset_bounds(k, d, n);
    let q = offset(k, d, n);
    assert(2 * m * q <= 2 * k * e + m < 2 * m * q + 2 * m) by (nonlinear_arith)
        requires
            n > 0,
            m > 0,
            d * m == e * n,
            2 * n * q <= 2 * k * d + n < 2 * n * q + 2 * n,
    ;
    lemma_offset_unique(k, e, m, q);
}

/// A segment that is drawn further along the same ray begins with the cells
/// of the shorter one.
pub proof fn lemma_segment_prefix(a: Pos, b: Pos, c: Pos, k: int)
    requires
        extends(a, b, c),
        0 <= k <= span(a, b),
    ensures
        segment_cell(a, c, k) == segment_cell(a, b, k),
        on_segment(a, c, segment_cell(a, b, k)),
{
    let n = span(a, b);
    let m = span(a, c);
    if n > 0 {
        lemma_offset_same_slope(k, b.row - a.row, n, c.row - a.row, m);
        lemma_offset_same_slope(k, b.col - a.col, n, c.col - a.col, m);
    } else {
        lemma_segment_ends(a, c);
    }
}

/// One step of a coordinate that moves by `d` in `n` steps. `rem` carries
/// what the steps so far have left over, out of `2 * n`; a whole cell is
/// taken from it as soon as it holds one.
fn step_axis(pos: i128, rem: i128, d: i128, n: i128) -> (next: (i128, i128))
    requires
        0 < n <= usize::MAX,
        -n <= d <= n,
        0 <= rem < 2 * n,
        0 <= pos <= usize::MAX,
    ensures
        0 <= next.1 < 2 * n,
        2 * n * next.0 + next.1 == 2 * n * pos + rem + 2 * d,
        pos - 1 <= next.0 <= pos + 1,
{
    let moved: i128 = rem + 2 * d;
    if moved >= 2 * n {
        assert(2 * n * (pos + 1) == 2 * n * pos + 2 * n) by (nonlinear_arith);
        (pos + 1, moved - 2 * n)
    } else if moved < 0 {
        assert(2 * n * (pos - 1) == 2 * n * pos - 2 * n) by (nonlinear_arith);
        (pos - 1, moved + 2 * n)
    } else {
        (pos, moved)
    }
}

/// The cells of the segment from `a` to `b`, in the order of the steps, `a`
/// first and `b` last. The cells are found by integer additions alone, one
/// remainder for each axis.
pub fn rasterize(a: Cell, b: Cell) -> (cells: Vec<Cell>)
    ensures
        cells@.len() == span(a@, b@) + 1,
        forall|k: int|
            0 <= k <= span(a@, b@) ==> (#[trigger] cells@[k])@ == segment_cell(a@, b@, k),
        cells@.map_values(|c: Cell| c@) == segment(a@, b@),
{
    let dr: i128 = b.row as i128 - a.row as i128;
    let dc: i128 = b.col as i128 - a.col as i128;
    let tall: i128 = if dr < 0 { -dr } else { dr };
    let wide: i128 = if dc < 0 { -dc } else { dc };
    let n: i128 = if tall >= wide { tall } else { wide };
    let mut k: i128 = 0;
    let mut row: i128 = a.row as i128;
    let mut col: i128 = a.col as i128;
    let mut rem_row: i128 = n;
    let mut rem_col: i128 = n;
    let mut cells: Vec<Cell> = Vec::new();
    cells.push(a);
    proof {
        lemma_segment_ends(a@, b@);
        assert(2 * k * dr == 0 && 2 * k * dc == 0) by (nonlinear_arith)
            requires
                k == 0,
        ;
        assert(2 * n * (row - a.row) == 0 && 2 * n * (col - a.col) == 0) by (nonlinear_arith)
            requires
                row == a.row,
                col == a.col,
        ;
    }
    while k < n
        invariant
            n == span(a@, b@),
            dr == b.row - a.row,
            dc == b.col - a.col,
            0 <= k <= n,
            0 <= rem_row < 2 * n || n == 0,
            0 <= rem_col < 2 * n || n == 0,
            2 * k * dr + n == 2 * n * (row - a.row) + rem_row,
            2 * k * dc + n == 2 * n * (col - a.col) + rem_col,
            0 <= row <= usize::MAX,
            0 <= col <= usize::MAX,
            cells@.len() == k + 1,
            forall|j: int| 0 <= j <= k ==> (#[trigger] cells@[j])@ == segment_cell(a@, b@, j),
        decreases n - k,
    {
        let next_row = step_axis(row, rem_row, dr, n);
        let next_col = step_axis(col, rem_col, dc, n);
        proof {
            let j = k + 1;
            assert(2 * j * dr == 2 * k * dr + 2 * dr && 2 * j * dc == 2 * k * dc + 2 * dc)
                by (nonlinear_arith)
                requires
                    j == k + 1,
            ;
            let qr = next_row.0 - a.row;
            let qc = next_col.0 - a.col;
            assert(2 * n * qr == 2 * n * next_row.0 - 2 * n * a.row) by (nonlinear_arith)
                requires
                    qr == next_row.0 - a.row,
            ;
            assert(2 * n * (row - a.row) == 2 * n * row - 2 * n * a.row) by (nonlinear_arith);
            assert(2 * n * qc == 2 * n * next_col.0 - 2 * n * a.col) by (nonlinear_arith)
                requires
                    qc == next_col.0 - a.col,
            ;
            assert(2 * n * (col - a.col) == 2 * n * col - 2 * n * a.col) by (nonlinear_arith);
            lemma_offset_unique(j as int, dr as int, n as int, qr);
            lemma_offset_unique(j as int, dc as int, n as int, qc);
            lemma_segment_between(a@, b@, j as int);
        }
        k = k + 1;
        row = next_row.0;
        rem_row = next_row.1;
        col = next_col.0;
        rem_col = next_col.1;
        cells.push(Cell { row: row as usize, col: col as usize });
    }
    assert(cells@.map_values(|c: Cell| c@) =~= segment(a@, b@));
    cells
}

} // verus!

use crate::char_buffer::{lemma_set_keeps_others, CharBuffer};
use crate::fixed::{cell_index, cell_of, clamp_index, round_div, round_ratio, to_index, UNIT};
use vstd::arithmetic::div_mod::{
    lemma_div_is_ordered, lemma_fundamental_div_mod_converse, lemma_hoist_over_denominator,
};
use vstd::prelude::*;

verus! {

/// The coordinate that both ends of a segment get when nothing of it is on
/// screen: far beyond any grid.
pub const OFFSCREEN: usize = 4_000_000_000;

/// A straight stroke of one glyph between two points of the screen.
///
/// Each point is `(x, y)` in fixed-point cell units (see [`UNIT`]), `x` to
/// the right and `y` downwards from the top left corner of the grid. A point
/// may lie left of or above the grid, or beyond it.
#[derive(Debug, Clone, Copy, PartialEq, PartialOrd)]
pub struct Line {
    pub char: char,
    pub points: ((i64, i64), (i64, i64)),
}

/// The grid cell nearest to a point.
pub open spec fn point_cell(p: (int, int)) -> (usize, usize) {
    (cell_of(p.0), cell_of(p.1))
}

/// Both points lie left of the grid, or both lie above it.
pub open spec fn lies_offscreen(p: (int, int), q: (int, int)) -> bool {
    (p.0 < 0 && q.0 < 0) || (p.1 < 0 && q.1 < 0)
}

/// `s.x * f.y - f.x * s.y`. Divided by `s.x - f.x` it is the height at which
/// the line through `f` and `s` meets the left edge `x = 0`; divided by
/// `f.y - s.y` it is the place where that line meets the top edge `y = 0`.
pub open spec fn cross(f: (int, int), s: (int, int)) -> int {
    s.0 * f.1 - f.0 * s.1
}

/// The line through `f` and `s`, with `f` left of `s`, meets the left edge
/// above the grid.
pub open spec fn left_crossing_is_above(f: (int, int), s: (int, int)) -> bool
    recommends
        f.0 < s.0,
{
    cross(f, s) < 0
}

/// The row nearest to where the line through `f` and `s`, with `f` left of
/// `s`, meets the left edge.
pub open spec fn left_crossing_row(f: (int, int), s: (int, int)) -> usize
    recommends
        f.0 < s.0,
{
    to_index(round_ratio(cross(f, s), (s.0 - f.0) * UNIT))
}

/// The line through `f` and `s`, which are not level, meets the top edge left
/// of the grid.
pub open spec fn top_crossing_is_left(f: (int, int), s: (int, int)) -> bool
    recommends
        f.1 != s.1,
{
    if f.1 < s.1 {
        cross(f, s) > 0
    } else {
        cross(f, s) < 0
    }
}

/// The column nearest to where the line through `f` and `s`, which are not
/// level, meets the top edge.
pub open spec fn top_crossing_column(f: (int, int), s: (int, int)) -> usize
    recommends
        f.1 != s.1,
{
    if f.1 < s.1 {
        to_index(round_ratio(-cross(f, s), (s.1 - f.1) * UNIT))
    } else {
        to_index(round_ratio(cross(f, s), (f.1 - s.1) * UNIT))
    }
}

/// The part of the segment from `p` to `q` that is to be drawn, as two grid
/// cells, or `None` where the segment lies off screen.
///
/// - A segment with both points left of the grid, or both above it, is off
///   screen.
/// - A vertical or horizontal segment keeps its two points, each rounded to
///   its cell; the points keep their order.
/// - Otherwise let `f` be the point further left and `s` the other. Where
///   `f` lies left of the grid, the segment starts where the line meets the
///   left edge, or, if that is above the grid, where it meets the top edge.
///   Where `f` lies above the grid, the segment starts where the line meets
///   the top edge, or, if that is left of the grid, where it meets the left
///   edge. In both cases it ends at `s`. Where only `s` lies above the grid,
///   the segment runs from `f` to where the line meets the top edge.
/// - A segment that needs none of this keeps its two points in their order.
pub open spec fn clipped(p: (int, int), q: (int, int)) -> Option<((usize, usize), (usize, usize))> {
    if lies_offscreen(p, q) {
        None
    } else if p.0 == q.0 || p.1 == q.1 {
        Some((point_cell(p), point_cell(q)))
    } else {
        let f = if p.0 < q.0 { p } else { q };
        let s = if p.0 < q.0 { q } else { p };
        if f.0 < 0 {
            if left_crossing_is_above(f, s) {
                Some(((top_crossing_column(f, s), 0usize), point_cell(s)))
            } else {
                Some(((0usize, left_crossing_row(f, s)), point_cell(s)))
            }
        } else if f.1 < 0 {
            if top_crossing_is_left(f, s) {
                Some(((0usize, left_crossing_row(f, s)), point_cell(s)))
            } else {
                Some(((top_crossing_column(f, s), 0usize), point_cell(s)))
            }
        } else if s.1 < 0 {
            Some((point_cell(f), (top_crossing_column(f, s), 0usize)))
        } else {
            Some((point_cell(p), point_cell(q)))
        }
    }
}

/// What is drawn for a clipping result: its two cells, or [`OFFSCREEN`] in
/// all four coordinates where nothing is on screen.
pub open spec fn drawn_cells(seen: Option<((usize, usize), (usize, usize))>) -> (
    (usize, usize),
    (usize, usize),
) {
    match seen {
        Some(cells) => cells,
        None => ((OFFSCREEN, OFFSCREEN), (OFFSCREEN, OFFSCREEN)),
    }
}

proof fn lemma_product_range(a: int, b: int)
    requires
        i64::MIN <= a <= i64::MAX,
        i64::MIN <= b <= i64::MAX,
    ensures
        -0x3fff_ffff_ffff_ffff_8000_0000_0000_0000 <= a * b <= 0x4000_0000_0000_0000_0000_0000_0000_0000,
{
    assert(a * b <= 0x4000_0000_0000_0000_0000_0000_0000_0000) by (nonlinear_arith)
        requires
            -0x8000_0000_0000_0000 <= a <= 0x7fff_ffff_ffff_ffff,
            -0x8000_0000_0000_0000 <= b <= 0x7fff_ffff_ffff_ffff,
    ;
    assert(-0x3fff_ffff_ffff_ffff_8000_0000_0000_0000 <= a * b) by (nonlinear_arith)
        requires
            -0x8000_0000_0000_0000 <= a <= 0x7fff_ffff_ffff_ffff,
            -0x8000_0000_0000_0000 <= b <= 0x7fff_ffff_ffff_ffff,
    ;
}

fn cross_product(f: (i64, i64), s: (i64, i64)) -> (c: i128)
    ensures
        c == cross((f.0 as int, f.1 as int), (s.0 as int, s.1 as int)),
        i128::MIN < c,
        c < i128::MAX,
{
    proof {
        lemma_product_range(s.0 as int, f.1 as int);
        lemma_product_range(f.0 as int, s.1 as int);
    }
    let left: i128 = (s.0 as i128) * (f.1 as i128);
    let right: i128 = (f.0 as i128) * (s.1 as i128);
    left - right
}

fn in_units(span: i128) -> (scaled: i128)
    requires
        0 < span <= 0xffff_ffff_ffff_ffff,
    ensures
        scaled == span * UNIT,
        scaled > 0,
{
    assert(UNIT == 65536);
    span * (UNIT as i128)
}

fn left_row(f: (i64, i64), s: (i64, i64)) -> (row: usize)
    requires
        f.0 < s.0,
    ensures
        row == left_crossing_row((f.0 as int, f.1 as int), (s.0 as int, s.1 as int)),
{
    let run: i128 = (s.0 as i128) - (f.0 as i128);
    clamp_index(round_div(cross_product(f, s), in_units(run)))
}

fn top_column(f: (i64, i64), s: (i64, i64)) -> (column: usize)
    requires
        f.1 != s.1,
    ensures
        column == top_crossing_column((f.0 as int, f.1 as int), (s.0 as int, s.1 as int)),
{
    let c: i128 = cross_product(f, s);
    if f.1 < s.1 {
        let rise: i128 = (s.1 as i128) - (f.1 as i128);
        clamp_index(round_div(-c, in_units(rise)))
    } else {
        let rise: i128 = (f.1 as i128) - (s.1 as i128);
        clamp_index(round_div(c, in_units(rise)))
    }
}

fn point_cells(p: (i64, i64)) -> (cell: (usize, usize))
    ensures
        cell == point_cell((p.0 as int, p.1 as int)),
{
    (cell_index(p.0), cell_index(p.1))
}

impl Line {
    /// The first point, as integers.
    pub open spec fn start(self) -> (int, int) {
        (self.points.0.0 as int, self.points.0.1 as int)
    }

    /// The second point, as integers.
    pub open spec fn end(self) -> (int, int) {
        (self.points.1.0 as int, self.points.1.1 as int)
    }

    /// The two grid cells between which the line is drawn; see [`clipped`].
    pub open spec fn cells(self) -> ((usize, usize), (usize, usize)) {
        drawn_cells(clipped(self.start(), self.end()))
    }

    /// Clips the line to the left and top edges of the screen and rounds what
    /// is left to grid cells. `None` means that nothing is on screen.
    pub fn clip(self) -> (seen: Option<((usize, usize), (usize, usize))>)
        ensures
            seen == clipped(self.start(), self.end()),
    {
        let p = self.points.0;
        let q = self.points.1;
        if (p.0 < 0 && q.0 < 0) || (p.1 < 0 && q.1 < 0) {
            return None;
        }
        if p.0 == q.0 || p.1 == q.1 {
            return Some((point_cells(p), point_cells(q)));
        }
        let f = if p.0 < q.0 {
            p
        } else {
            q
        };
        let s = if p.0 < q.0 {
            q
        } else {
            p
        };
        if f.0 < 0 {
            if cross_product(f, s) < 0 {
                return Some(((top_column(f, s), 0), point_cells(s)));
            }
            return Some(((0, left_row(f, s)), point_cells(s)));
        }
        if f.1 < 0 {
            let c: i128 = cross_product(f, s);
            if (f.1 < s.1 && c > 0) || (f.1 > s.1 && c < 0) {
                return Some(((0, left_row(f, s)), point_cells(s)));
            }
            return Some(((top_column(f, s), 0), point_cells(s)));
        } else if s.1 < 0 {
            return Some((point_cells(f), (top_column(f, s), 0)));
        }
        Some((point_cells(p), point_cells(q)))
    }

}

impl Into<((usize, usize), (usize, usize))> for Line {
    /// The two grid cells between which the line is drawn: what [`Line::clip`]
    /// gives, or [`OFFSCREEN`] four times where nothing is on screen.
    fn into(self) -> (cells: ((usize, usize), (usize, usize))) {
        match self.clip() {
            Some(cells) => cells,
            None => ((OFFSCREEN, OFFSCREEN), (OFFSCREEN, OFFSCREEN)),
        }
    }
}

impl vstd::std_specs::convert::IntoSpecImpl<((usize, usize), (usize, usize))> for Line {
    open spec fn obeys_into_spec() -> bool {
        true
    }

    open spec fn into_spec(self) -> ((usize, usize), (usize, usize)) {
        self.cells()
    }
}

/// The distance between two integers.
pub open spec fn span(a: int, b: int) -> int {
    if a <= b {
        b - a
    } else {
        a - b
    }
}

/// A segment from `a` to `b`, `a` not right of `b`, is steep where it covers
/// more rows than columns.
pub open spec fn is_steep(a: (int, int), b: (int, int)) -> bool
    recommends
        a.0 <= b.0,
{
    span(a.1, b.1) > b.0 - a.0
}

/// The column that a steep segment from `a` to `b` marks in row `y`: where
/// the segment is in that row, cut down to a whole number.
pub open spec fn column_in_row(a: (int, int), b: (int, int), y: int) -> int
    recommends
        a.0 <= b.0,
        a.1 != b.1,
{
    a.0 + ((b.0 - a.0) * span(a.1, y)) / span(a.1, b.1)
}

/// The row that a segment from `a` to `b`, `a` left of `b`, marks in column
/// `x`: where the segment is in that column, cut down to a whole number.
pub open spec fn row_in_column(a: (int, int), b: (int, int), x: int) -> int
    recommends
        a.0 < b.0,
{
    (a.1 * (b.0 - a.0) + (b.1 - a.1) * (x - a.0)) / (b.0 - a.0)
}

/// Whether the segment from `a` to `b`, `a` not right of `b`, marks column
/// `x` of row `y`.
///
/// A steep segment marks one cell in every row from one end to the other;
/// any other segment marks one cell in every column from `a` to `b`. A
/// segment whose ends coincide has no slope: it marks the top cell of its
/// column.
pub open spec fn marks(a: (int, int), b: (int, int), x: int, y: int) -> bool
    recommends
        a.0 <= b.0,
{
    if is_steep(a, b) {
        (a.1 <= y <= b.1 || b.1 <= y <= a.1) && x == column_in_row(a, b, y)
    } else if a.0 < b.0 {
        a.0 <= x <= b.0 && y == row_in_column(a, b, x)
    } else {
        x == a.0 && y == 0
    }
}

/// Whether a stroke between the cells `start` and `end`, given in either
/// order, marks column `x` of row `y`.
pub open spec fn stroke_marks(start: (usize, usize), end: (usize, usize), x: int, y: int) -> bool {
    if start.0 > end.0 {
        marks((end.0 as int, end.1 as int), (start.0 as int, start.1 as int), x, y)
    } else {
        marks((start.0 as int, start.1 as int), (end.0 as int, end.1 as int), x, y)
    }
}

/// `grid` with `glyph` in every cell of it that the stroke from `start` to
/// `end` marks. Marks that fall outside the grid are lost.
pub open spec fn with_stroke(
    grid: Seq<Seq<char>>,
    glyph: char,
    start: (usize, usize),
    end: (usize, usize),
) -> Seq<Seq<char>> {
    Seq::new(
        grid.len(),
        |y: int|
            Seq::new(
                grid[y].len(),
                |x: int|
                    if stroke_marks(start, end, x, y) {
                        glyph
                    } else {
                        grid[y][x]
                    },
            ),
    )
}

/// `grid` with `line` drawn into it.
pub open spec fn with_line(grid: Seq<Seq<char>>, line: Line) -> Seq<Seq<char>> {
    with_stroke(grid, line.char, line.cells().0, line.cells().1)
}

/// `grid` with `lines` drawn into it one after the other, first line first.
pub open spec fn with_lines(grid: Seq<Seq<char>>, lines: Seq<Line>) -> Seq<Seq<char>>
    decreases lines.len(),
{
    if lines.len() == 0 {
        grid
    } else {
        with_line(with_lines(grid, lines.drop_last()), lines.last())
    }
}

/// `grid` with `glyph` wherever the segment from `a` to `b` marks a cell in a
/// row above `row`.
spec fn rows_done(grid: Seq<Seq<char>>, glyph: char, a: (int, int), b: (int, int), row: int) -> Seq<
    Seq<char>,
> {
    Seq::new(
        grid.len(),
        |y: int|
            Seq::new(
                grid[y].len(),
                |x: int|
                    if marks(a, b, x, y) && y < row {
                        glyph
                    } else {
                        grid[y][x]
                    },
            ),
    )
}

/// `grid` with `glyph` wherever the segment from `a` to `b` marks a cell in a
/// column left of `column`.
spec fn columns_done(
    grid: Seq<Seq<char>>,
    glyph: char,
    a: (int, int),
    b: (int, int),
    column: int,
) -> Seq<Seq<char>> {
    Seq::new(
        grid.len(),
        |y: int|
            Seq::new(
                grid[y].len(),
                |x: int|
                    if marks(a, b, x, y) && x < column {
                        glyph
                    } else {
                        grid[y][x]
                    },
            ),
    )
}

/// `base` moved on by `reach * step / whole`, cut down to a whole number.
fn advance(base: usize, reach: usize, step: usize, whole: usize) -> (place: usize)
    requires
        0 < whole,
        step <= whole,
        base + reach <= usize::MAX,
    ensures
        place == base + (reach * step) / (whole as int),
        base <= place <= base + reach,
{
    proof {
        assert(0 <= reach * step <= reach * whole) by (nonlinear_arith)
            requires
                0 <= step <= whole,
                0 <= reach,
        ;
        assert(reach * whole <= 0xffff_ffff_ffff_ffff * 0xffff_ffff_ffff_ffff) by (nonlinear_arith)
            requires
                0 <= reach <= 0xffff_ffff_ffff_ffff,
                0 <= whole <= 0xffff_ffff_ffff_ffff,
        ;
        lemma_div_is_ordered(reach * step, reach * whole, whole as int);
        lemma_fundamental_div_mod_converse(reach * whole, whole as int, reach as int, 0);
        lemma_div_is_ordered(0, reach * step, whole as int);
    }
    let product: u128 = (reach as u128) * (step as u128);
    let moved: u128 = product / (whole as u128);
    base + (moved as usize)
}

impl CharBuffer {
    /// Draws `line`: clips it to the screen, rounds it to grid cells and marks
    /// the cells between them with the line's glyph.
    pub fn draw_line(&mut self, line: Line)
        ensures
            final(self).dimensions == old(self).dimensions,
            final(self)@ == with_line(old(self)@, line),
            old(self).wf() ==> final(self).wf(),
    {
        let cells: ((usize, usize), (usize, usize)) = line.into();
        draw_line(line.char, self, cells.0, cells.1);
    }

    /// Draws `lines` one after the other, first line first.
    pub fn draw_lines(&mut self, lines: Vec<Line>)
        ensures
            final(self).dimensions == old(self).dimensions,
            final(self)@ == with_lines(old(self)@, lines@),
            old(self).wf() ==> final(self).wf(),
    {
        let mut i: usize = 0;
        while i < lines.len()
            invariant
                i <= lines.len(),
                self.dimensions == old(self).dimensions,
                old(self).wf() ==> self.wf(),
                self@ == with_lines(old(self)@, lines@.take(i as int)),
            decreases lines.len() - i,
        {
            self.draw_line(lines[i]);
            proof {
                let upto = lines@.take(i as int + 1);
                assert(upto.drop_last() =~= lines@.take(i as int));
                assert(upto.last() == lines@[i as int]);
            }
            i += 1;
        }
        assert(lines@.take(lines.len() as int) =~= lines@);
    }
}

/// Marks with `char` the cells of `buf` that lie on the stroke between the
/// cells `start_coords` and `end_coords`, given as `(column, row)`.
///
/// A stroke that covers more rows than columns marks one cell in every row
/// from one end to the other; any other stroke marks one cell in every column.
/// Marks that fall outside the buffer are dropped.
pub fn draw_line(
    char: char,
    buf: &mut CharBuffer,
    start_coords: (usize, usize),
    end_coords: (usize, usize),
)
    ensures
        final(buf).dimensions == old(buf).dimensions,
        final(buf)@ == with_stroke(old(buf)@, char, start_coords, end_coords),
        old(buf).wf() ==> final(buf).wf(),
{
    let mut start = start_coords;
    let mut end = end_coords;
    if start.0 > end.0 {
        start = end_coords;
        end = start_coords;
    }
    let run: usize = end.0 - start.0;
    if end.1 > start.1 && end.1 - start.1 > run {
        draw_vertical(char, buf, start, end, true);
    } else if start.1 > end.1 && start.1 - end.1 > run {
        draw_vertical(char, buf, start, end, false);
    } else {
        draw_horizontal(char, buf, start, end);
    }
    assert(buf@ =~~= with_stroke(old(buf)@, char, start_coords, end_coords));
}

/// The steep strokes: one mark in every row between the two ends. `is_up`
/// says that the rows grow from `start_coords` to `end_coords`.
fn draw_vertical(
    char: char,
    buf: &mut CharBuffer,
    start_coords: (usize, usize),
    end_coords: (usize, usize),
    is_up: bool,
)
    requires
        start_coords.0 <= end_coords.0,
        is_up ==> end_coords.1 > start_coords.1,
        !is_up ==> start_coords.1 > end_coords.1,
        is_steep(
            (start_coords.0 as int, start_coords.1 as int),
            (end_coords.0 as int, end_coords.1 as int),
        ),
    ensures
        final(buf).dimensions == old(buf).dimensions,
        final(buf)@ == rows_done(
            old(buf)@,
            char,
            (start_coords.0 as int, start_coords.1 as int),
            (end_coords.0 as int, end_coords.1 as int),
            usize::MAX + 1,
        ),
{
    let ghost a = (start_coords.0 as int, start_coords.1 as int);
    let ghost b = (end_coords.0 as int, end_coords.1 as int);
    let run: usize = end_coords.0 - start_coords.0;
    let low: usize = if is_up {
        start_coords.1
    } else {
        end_coords.1
    };
    let high: usize = if is_up {
        end_coords.1
    } else {
        start_coords.1
    };
    let rise: usize = high - low;
    let mut y: usize = low;
    assert(buf@ =~~= rows_done(old(buf)@, char, a, b, y as int));
    loop
        invariant_except_break
            buf@ == rows_done(old(buf)@, char, a, b, y as int),
        invariant
            low <= y <= high,
            a == (start_coords.0 as int, start_coords.1 as int),
            b == (end_coords.0 as int, end_coords.1 as int),
            start_coords.0 <= end_coords.0,
            run == end_coords.0 - start_coords.0,
            rise == high - low,
            rise > run,
            low == if is_up { start_coords.1 } else { end_coords.1 },
            high == if is_up { end_coords.1 } else { start_coords.1 },
            buf.dimensions == old(buf).dimensions,
        ensures
            buf@ == rows_done(old(buf)@, char, a, b, high as int + 1),
        decreases high - y,
    {
        let step: usize = if is_up {
            y - start_coords.1
        } else {
            start_coords.1 - y
        };
        let x: usize = advance(start_coords.0, run, step, rise);
        let ghost before = buf@;
        let _ = buf.set_char(x, y, char);
        proof {
            assert(x == column_in_row(a, b, y as int));
            lemma_set_keeps_others(before, x as int, y as int, char);
            assert(buf@ =~~= rows_done(old(buf)@, char, a, b, y as int + 1));
        }
        if y == high {
            break ;
        }
        y += 1;
    }
    assert(buf@ =~~= rows_done(old(buf)@, char, a, b, usize::MAX + 1));
}

/// The other strokes: one mark in every column from `start_coords` to
/// `end_coords`.
fn draw_horizontal(
    char: char,
    buf: &mut CharBuffer,
    start_coords: (usize, usize),
    end_coords: (usize, usize),
)
    requires
        start_coords.0 <= end_coords.0,
        !is_steep(
            (start_coords.0 as int, start_coords.1 as int),
            (end_coords.0 as int, end_coords.1 as int),
        ),
    ensures
        final(buf).dimensions == old(buf).dimensions,
        final(buf)@ == columns_done(
            old(buf)@,
            char,
            (start_coords.0 as int, start_coords.1 as int),
            (end_coords.0 as int, end_coords.1 as int),
            usize::MAX + 1,
        ),
{
    let ghost a = (start_coords.0 as int, start_coords.1 as int);
    let ghost b = (end_coords.0 as int, end_coords.1 as int);
    let run: usize = end_coords.0 - start_coords.0;
    if run == 0 {
        let ghost before = buf@;
        let _ = buf.set_char(start_coords.0, 0, char);
        proof {
            lemma_set_keeps_others(before, start_coords.0 as int, 0, char);
            assert(buf@ =~~= columns_done(old(buf)@, char, a, b, usize::MAX + 1));
        }
        return ;
    }
    let falls: bool = end_coords.1 < start_coords.1;
    let rise: usize = if falls {
        start_coords.1 - end_coords.1
    } else {
        end_coords.1 - start_coords.1
    };
    let mut x: usize = start_coords.0;
    assert(buf@ =~~= columns_done(old(buf)@, char, a, b, x as int));
    loop
        invariant_except_break
            buf@ == columns_done(old(buf)@, char, a, b, x as int),
        invariant
            start_coords.0 <= x <= end_coords.0,
            a == (start_coords.0 as int, start_coords.1 as int),
            b == (end_coords.0 as int, end_coords.1 as int),
            run == end_coords.0 - start_coords.0,
            run > 0,
            falls == (end_coords.1 < start_coords.1),
            rise == span(a.1, b.1),
            rise <= run,
            buf.dimensions == old(buf).dimensions,
        ensures
            buf@ == columns_done(old(buf)@, char, a, b, end_coords.0 as int + 1),
        decreases end_coords.0 - x,
    {
        let y: usize = if falls {
            advance(end_coords.1, rise, end_coords.0 - x, run)
        } else {
            advance(start_coords.1, rise, x - start_coords.0, run)
        };
        let ghost before = buf@;
        let _ = buf.set_char(x, y, char);
        proof {
            lemma_row_in_column(a, b, x as int);
            assert(y == row_in_column(a, b, x as int));
            lemma_set_keeps_others(before, x as int, y as int, char);
            assert(buf@ =~~= columns_done(old(buf)@, char, a, b, x as int + 1));
        }
        if x == end_coords.0 {
            break ;
        }
        x += 1;
    }
    assert(buf@ =~~= columns_done(old(buf)@, char, a, b, usize::MAX + 1));
}

/// The row of a segment in a column, counted from the end that lies higher
/// on the screen.
proof fn lemma_row_in_column(a: (int, int), b: (int, int), x: int)
    requires
        a.0 < b.0,
        a.0 <= x <= b.0,
    ensures
        a.1 <= b.1 ==> row_in_column(a, b, x) == a.1 + ((b.1 - a.1) * (x - a.0)) / (b.0 - a.0),
        a.1 > b.1 ==> row_in_column(a, b, x) == b.1 + ((a.1 - b.1) * (b.0 - x)) / (b.0 - a.0),
{
    let run = b.0 - a.0;
    if a.1 <= b.1 {
        lemma_hoist_over_denominator((b.1 - a.1) * (x - a.0), a.1, run as nat);
    } else {
        let fall = a.1 - b.1;
        assert(a.1 * run + (b.1 - a.1) * (x - a.0) == fall * (b.0 - x) + b.1 * run)
            by (nonlinear_arith)
            requires
                run == b.0 - a.0,
                fall == a.1 - b.1,
        ;
        lemma_hoist_over_denominator(fall * (b.0 - x), b.1, run as nat);
    }
}

/// Nothing is drawn of a segment exactly where both its points lie left of
/// the grid or both lie above it.
pub proof fn lemma_hidden_segments(p: (int, int), q: (int, int))
    ensures
        clipped(p, q) is None <==> lies_offscreen(p, q),
{
}

/// A segment with no point left of or above the grid is not cut: it keeps
/// both points, each rounded to its cell, in their order.
pub proof fn lemma_segment_on_screen(p: (int, int), q: (int, int))
    requires
        0 <= p.0,
        0 <= p.1,
        0 <= q.0,
        0 <= q.1,
    ensures
        clipped(p, q) == Some((point_cell(p), point_cell(q))),
{
}

/// Where the left one of two points lies above the grid but not left of it,
/// and the other does not lie above the grid, the line through them meets the
/// top edge at the grid: the second choice, the left edge, is never needed.
pub proof fn lemma_top_crossing_is_on_screen(f: (int, int), s: (int, int))
    requires
        0 <= f.0 < s.0,
        f.1 < 0 <= s.1,
    ensures
        !top_crossing_is_left(f, s),
        clipped(f, s) == Some(((top_crossing_column(f, s), 0usize), point_cell(s))),
        clipped(s, f) == clipped(f, s),
{
    assert(s.0 * f.1 < 0) by (nonlinear_arith)
        requires
            s.0 > 0,
            f.1 < 0,
    ;
    assert(f.0 * s.1 >= 0) by (nonlinear_arith)
        requires
            f.0 >= 0,
            s.1 >= 0,
    ;
}

/// A stroke marks the same cells whichever of its ends is given first.
pub proof fn lemma_stroke_either_way(start: (usize, usize), end: (usize, usize), x: int, y: int)
    ensures
        stroke_marks(start, end, x, y) == stroke_marks(end, start, x, y),
{
    if start.0 == end.0 && start.1 != end.1 {
        let a = (start.0 as int, start.1 as int);
        let b = (end.0 as int, end.1 as int);
        assert(column_in_row(a, b, y) == a.0);
        assert(column_in_row(b, a, y) == a.0);
    }
}

/// A stroke between two different cells marks both of them.
pub proof fn lemma_stroke_marks_its_ends(start: (usize, usize), end: (usize, usize))
    requires
        start != end,
    ensures
        stroke_marks(start, end, start.0 as int, start.1 as int),
        stroke_marks(start, end, end.0 as int, end.1 as int),
{
    let a = if start.0 > end.0 {
        (end.0 as int, end.1 as int)
    } else {
        (start.0 as int, start.1 as int)
    };
    let b = if start.0 > end.0 {
        (start.0 as int, start.1 as int)
    } else {
        (end.0 as int, end.1 as int)
    };
    let run = b.0 - a.0;
    let rise = span(a.1, b.1);
    if is_steep(a, b) {
        assert(run * 0 == 0);
        lemma_fundamental_div_mod_converse(0, rise, 0, 0);
        lemma_fundamental_div_mod_converse(run * rise, rise, run, 0);
        assert(column_in_row(a, b, a.1) == a.0);
        assert(column_in_row(a, b, b.1) == b.0);
    } else {
        assert(a.1 * run + (b.1 - a.1) * 0 == a.1 * run) by (nonlinear_arith);
        assert(a.1 * run + (b.1 - a.1) * run == b.1 * run) by (nonlinear_arith);
        lemma_fundamental_div_mod_converse(a.1 * run, run, a.1, 0);
        lemma_fundamental_div_mod_converse(b.1 * run, run, b.1, 0);
        assert(row_in_column(a, b, a.0) == a.1);
        assert(row_in_column(a, b, b.0) == b.1);
    }
}

/// A stroke marks no cell outside the rectangle that its two ends span,
/// unless its ends coincide.
pub proof fn lemma_stroke_stays_between_its_ends(
    start: (usize, usize),
    end: (usize, usize),
    x: int,
    y: int,
)
    requires
        start != end,
        stroke_marks(start, end, x, y),
    ensures
        start.0 <= x <= end.0 || end.0 <= x <= start.0,
        start.1 <= y <= end.1 || end.1 <= y <= start.1,
{
    let a = if start.0 > end.0 {
        (end.0 as int, end.1 as int)
    } else {
        (start.0 as int, start.1 as int)
    };
    let b = if start.0 > end.0 {
        (start.0 as int, start.1 as int)
    } else {
        (end.0 as int, end.1 as int)
    };
    let run = b.0 - a.0;
    let rise = span(a.1, b.1);
    if is_steep(a, b) {
        let step = span(a.1, y);
        assert(0 <= run * step <= run * rise) by (nonlinear_arith)
            requires
                0 <= step <= rise,
                0 <= run,
        ;
        lemma_div_is_ordered(0, run * step, rise);
        lemma_div_is_ordered(run * step, run * rise, rise);
        lemma_fundamental_div_mod_converse(0, rise, 0, 0);
        lemma_fundamental_div_mod_converse(run * rise, rise, run, 0);
    } else {
        lemma_row_in_column(a, b, x);
        if a.1 <= b.1 {
            let step = x - a.0;
            assert(0 <= rise * step <= rise * run) by (nonlinear_arith)
                requires
                    0 <= step <= run,
                    0 <= rise,
            ;
            lemma_div_is_ordered(0, rise * step, run);
            lemma_div_is_ordered(rise * step, rise * run, run);
            lemma_fundamental_div_mod_converse(0, run, 0, 0);
            lemma_fundamental_div_mod_converse(rise * run, run, rise, 0);
        } else {
            let step = b.0 - x;
            assert(0 <= rise * step <= rise * run) by (nonlinear_arith)
                requires
                    0 <= step <= run,
                    0 <= rise,
            ;
            lemma_div_is_ordered(0, rise * step, run);
            lemma_div_is_ordered(rise * step, rise * run, run);
            lemma_fundamental_div_mod_converse(0, run, 0, 0);
            lemma_fundamental_div_mod_converse(rise * run, run, rise, 0);
        }
    }
}

} // verus!

//! A grid of styled characters that clocks are drawn on: single cells, text
//! and straight lines, and the rendering of the grid to terminal text.

use vstd::prelude::*;
use crossterm::style::{Attribute, Color, ContentStyle};
use vstd::string::*;
use crate::text::chars_of;

verus! {

/// How a character is drawn: an optional 256-colour foreground and boldness.
#[derive(Copy, Clone, Debug, PartialEq, Eq, Structural)]
pub struct CellStyle {
    /// Index into the terminal's 256-colour palette.
    pub foreground: Option<u8>,
    pub bold: bool,
}

impl CellStyle {
    /// A style that changes nothing.
    pub open spec fn is_plain(self) -> bool {
        self.foreground is None && !self.bold
    }

    pub fn plain() -> (s: Self)
        ensures
            s.is_plain(),
    {
        CellStyle { foreground: None, bold: false }
    }
}

impl Default for CellStyle {
    fn default() -> (s: Self)
        ensures
            s.is_plain(),
    {
        CellStyle::plain()
    }
}

/// One position of the canvas.
#[derive(Copy, Clone, Debug, PartialEq, Eq, Structural)]
pub struct Cell {
    pub ch: char,
    pub style: CellStyle,
}

pub open spec fn plain_cell(ch: char) -> Cell {
    Cell { ch, style: CellStyle { foreground: None, bold: false } }
}

impl Cell {
    pub fn plain(ch: char) -> (c: Self)
        ensures
            c == plain_cell(ch),
    {
        Cell { ch, style: CellStyle::plain() }
    }

    pub fn styled(ch: char, style: CellStyle) -> (c: Self)
        ensures
            c == (Cell { ch, style }),
    {
        Cell { ch, style }
    }
}

/// A position; the origin is the top-left cell and `y` grows downwards.
#[derive(Clone, Copy, Debug, PartialEq, Eq, Structural)]
pub struct Point {
    pub x: isize,
    pub y: isize,
}

/// Where text stands relative to its anchor.
#[derive(Copy, Clone, Debug, PartialEq, Eq, Structural)]
pub enum TextAlign {
    Left,
    Center,
    Right,
}

/// The model of a canvas: its size and its cells row by row.
pub struct CanvasView {
    pub width: nat,
    pub height: nat,
    pub cells: Seq<Cell>,
}

impl CanvasView {
    /// The size fits `u16` and there is one cell per position.
    pub open spec fn wf(self) -> bool {
        &&& 0 < self.width <= 65535
        &&& 0 < self.height <= 65535
        &&& self.cells.len() == self.width * self.height
    }

    pub open spec fn in_bounds(self, x: int, y: int) -> bool {
        0 <= x < self.width && 0 <= y < self.height
    }

    /// The cell in column `x` of row `y`.
    pub open spec fn at(self, x: int, y: int) -> Cell {
        self.cells[y * self.width + x]
    }

    pub open spec fn same_size(self, other: CanvasView) -> bool {
        self.width == other.width && self.height == other.height && self.cells.len()
            == other.cells.len()
    }
}

/// `new` is `old` with the cell at `(x, y)` replaced, where that lies on the
/// canvas; off the canvas nothing changes.
pub open spec fn with_cell(old: CanvasView, new: CanvasView, x: int, y: int, cell: Cell) -> bool {
    &&& new.wf()
    &&& new.same_size(old)
    &&& forall|a: int, b: int|
        old.in_bounds(a, b) ==> #[trigger] new.at(a, b) == (if a == x && b == y {
            cell
        } else {
            old.at(a, b)
        })
}

/// `new` is `old` with `chars` written rightwards from `(x, y)`, one
/// character per column; positions off the canvas are skipped.
pub open spec fn with_text(
    old: CanvasView,
    new: CanvasView,
    x: int,
    y: int,
    chars: Seq<char>,
    style: CellStyle,
) -> bool {
    &&& new.wf()
    &&& new.same_size(old)
    &&& forall|a: int, b: int|
        old.in_bounds(a, b) ==> #[trigger] new.at(a, b) == (if b == y && x <= a < x + chars.len() {
            Cell { ch: chars[a - x], style }
        } else {
            old.at(a, b)
        })
}

/// The column where text of `n` characters starts for an anchor in column `x`.
pub open spec fn aligned_start(x: int, n: int, alignment: TextAlign) -> int {
    match alignment {
        TextAlign::Left => x,
        TextAlign::Center => x - n / 2,
        TextAlign::Right => x - n + 1,
    }
}

/// The columns that aligned text computes with stay within `isize`.
pub open spec fn aligned_text_fits(x: int, n: int, alignment: TextAlign) -> bool {
    &&& n <= isize::MAX
    &&& match alignment {
        TextAlign::Left => x + n <= isize::MAX + 1,
        TextAlign::Center => isize::MIN <= x - n / 2 && x - n / 2 + n <= isize::MAX + 1,
        TextAlign::Right => isize::MIN <= x - n && x - n + 1 <= isize::MAX,
    }
}

pub open spec fn int_abs(v: int) -> int {
    if v < 0 {
        -v
    } else {
        v
    }
}

/// The unit step from `from` towards `to`; `-1` where they are equal.
pub open spec fn step_toward(from: int, to: int) -> int {
    if from < to {
        1
    } else {
        -1
    }
}

/// The trace of the line-drawing algorithm from `(x, y)`: each step moves
/// one column, one row or both, as the error term `err` decides. `fuel` bounds
/// the number of steps.
pub open spec fn trace(
    x: int,
    y: int,
    end_x: int,
    end_y: int,
    sx: int,
    sy: int,
    dx: int,
    dy: int,
    err: int,
    fuel: nat,
) -> Seq<(int, int)>
    decreases fuel,
{
    if fuel == 0 || (x == end_x && y == end_y) {
        seq![(x, y)]
    } else {
        let e2 = 2 * err;
        let moves_x = e2 >= dy;
        let moves_y = e2 <= dx;
        let nx = if moves_x {
            x + sx
        } else {
            x
        };
        let ny = if moves_y {
            y + sy
        } else {
            y
        };
        let nerr = err + (if moves_x {
            dy
        } else {
            0
        }) + (if moves_y {
            dx
        } else {
            0
        });
        seq![(x, y)] + trace(nx, ny, end_x, end_y, sx, sy, dx, dy, nerr, (fuel - 1) as nat)
    }
}

/// The positions of the straight line from `start` to `end`, in drawing
/// order (Bresenham's algorithm for all octants).
pub open spec fn line_points(start: Point, end: Point) -> Seq<(int, int)> {
    let dx = int_abs(end.x - start.x);
    let dy = -int_abs(end.y - start.y);
    trace(
        start.x as int,
        start.y as int,
        end.x as int,
        end.y as int,
        step_toward(start.x as int, end.x as int),
        step_toward(start.y as int, end.y as int),
        dx,
        dy,
        dx + dy,
        (dx - dy) as nat,
    )
}

/// The error terms of a line between the two points stay within `isize`.
pub open spec fn line_fits(start: Point, end: Point) -> bool {
    4 * (int_abs(end.x - start.x) + int_abs(end.y - start.y)) <= isize::MAX
}

/// `new` is `old` with `cell` at every position of `points`; positions off
/// the canvas are skipped.
pub open spec fn with_points(old: CanvasView, new: CanvasView, points: Seq<(int, int)>, cell: Cell) -> bool {
    &&& new.wf()
    &&& new.same_size(old)
    &&& forall|a: int, b: int|
        old.in_bounds(a, b) ==> #[trigger] new.at(a, b) == (if points.contains((a, b)) {
            cell
        } else {
            old.at(a, b)
        })
}

/// Distance still to go from `from` to `to` in the direction `s`.
pub open spec fn remaining(from: int, to: int, s: int) -> int {
    if s == 1 {
        to - from
    } else {
        from - to
    }
}

/// The invariant of the line-drawing algorithm, over the distances `rx`,
/// `ry` still to go along each axis of a line of extent `dx` by `ady`.
pub open spec fn line_state(dx: int, ady: int, rx: int, ry: int, err: int) -> bool {
    &&& 0 <= rx <= dx
    &&& 0 <= ry <= ady
    &&& err == dx - ady + ady * rx - dx * ry
    &&& -2 * ady <= err <= 2 * dx
}

pub open spec fn trace_state(
    x: int,
    y: int,
    end_x: int,
    end_y: int,
    sx: int,
    sy: int,
    dx: int,
    ady: int,
    err: int,
) -> bool {
    &&& sx == 1 || sx == -1
    &&& sy == 1 || sy == -1
    &&& line_state(dx, ady, remaining(x, end_x, sx), remaining(y, end_y, sy), err)
}

pub open spec fn neighbours(p: (int, int), q: (int, int)) -> bool {
    &&& p != q
    &&& -1 <= p.0 - q.0 <= 1
    &&& -1 <= p.1 - q.1 <= 1
}

pub open spec fn between(v: int, a: int, b: int) -> bool {
    (a <= v <= b) || (b <= v <= a)
}

/// One step of the algorithm keeps its invariant, moves along at least one
/// axis, never past the end, and shortens the distance still to go.
proof fn lemma_line_step(dx: int, ady: int, rx: int, ry: int, err: int)
    requires
        line_state(dx, ady, rx, ry, err),
        rx + ry > 0,
    ensures
        (2 * err >= -ady) || (2 * err <= dx),
        2 * err >= -ady ==> rx > 0,
        2 * err <= dx ==> ry > 0,
        line_state(
            dx,
            ady,
            rx - (if 2 * err >= -ady {
                1int
            } else {
                0
            }),
            ry - (if 2 * err <= dx {
                1int
            } else {
                0
            }),
            err + (if 2 * err >= -ady {
                -ady
            } else {
                0
            }) + (if 2 * err <= dx {
                dx
            } else {
                0
            }),
        ),
{
    if rx == 0 {
        assert(dx * ry >= dx) by (nonlinear_arith)
            requires
                ry >= 1,
                dx >= 0,
        ;
        assert(ady * rx == 0) by (nonlinear_arith)
            requires
                rx == 0,
        ;
    }
    if ry == 0 {
        assert(ady * rx >= ady) by (nonlinear_arith)
            requires
                rx >= 1,
                ady >= 0,
        ;
        assert(dx * ry == 0) by (nonlinear_arith)
            requires
                ry == 0,
        ;
    }
    assert(ady * (rx - 1) == ady * rx - ady) by (nonlinear_arith);
    assert(dx * (ry - 1) == dx * ry - dx) by (nonlinear_arith);
}

/// The trace from a state of the algorithm starts where it stands, ends at
/// the end point, moves to a neighbouring position at every step and never
/// leaves the box between its first and last positions.
proof fn lemma_trace(
    x: int,
    y: int,
    end_x: int,
    end_y: int,
    sx: int,
    sy: int,
    dx: int,
    ady: int,
    err: int,
    fuel: nat,
)
    requires
        trace_state(x, y, end_x, end_y, sx, sy, dx, ady, err),
        fuel >= remaining(x, end_x, sx) + remaining(y, end_y, sy),
    ensures
        ({
            let t = trace(x, y, end_x, end_y, sx, sy, dx, -ady, err, fuel);
            &&& t.len() >= 1
            &&& t[0] == (x, y)
            &&& t.last() == (end_x, end_y)
            &&& forall|i: int| 0 <= i < t.len() - 1 ==> neighbours(#[trigger] t[i], t[i + 1])
            &&& forall|i: int|
                0 <= i < t.len() ==> between((#[trigger] t[i]).0, x, end_x) && between(
                    t[i].1,
                    y,
                    end_y,
                )
        }),
    decreases fuel,
{
    let rx = remaining(x, end_x, sx);
    let ry = remaining(y, end_y, sy);
    let t = trace(x, y, end_x, end_y, sx, sy, dx, -ady, err, fuel);
    if x == end_x && y == end_y {
        assert(t == seq![(x, y)]);
    } else {
        assert(rx + ry > 0);
        lemma_line_step(dx, ady, rx, ry, err);
        let e2 = 2 * err;
        let mx = e2 >= -ady;
        let my = e2 <= dx;
        let nx = if mx {
            x + sx
        } else {
            x
        };
        let ny = if my {
            y + sy
        } else {
            y
        };
        let nerr = err + (if mx {
            -ady
        } else {
            0
        }) + (if my {
            dx
        } else {
            0
        });
        let f = (fuel - 1) as nat;
        lemma_trace(nx, ny, end_x, end_y, sx, sy, dx, ady, nerr, f);
        let rest = trace(nx, ny, end_x, end_y, sx, sy, dx, -ady, nerr, f);
        assert(t == seq![(x, y)] + rest);
        assert forall|i: int| 0 <= i < t.len() - 1 implies neighbours(#[trigger] t[i], t[i + 1]) by {
            if i > 0 {
                assert(t[i] == rest[i - 1]);
                assert(t[i + 1] == rest[i]);
            }
        }
        assert forall|i: int| 0 <= i < t.len() implies between((#[trigger] t[i]).0, x, end_x)
            && between(t[i].1, y, end_y) by {
            if i > 0 {
                assert(t[i] == rest[i - 1]);
            }
        }
    }
}

/// The invariant holds at the start of every line.
proof fn lemma_line_start(start: Point, end: Point)
    ensures
        trace_state(
            start.x as int,
            start.y as int,
            end.x as int,
            end.y as int,
            step_toward(start.x as int, end.x as int),
            step_toward(start.y as int, end.y as int),
            int_abs(end.x - start.x),
            int_abs(end.y - start.y),
            int_abs(end.x - start.x) - int_abs(end.y - start.y),
        ),
{
    let dx = int_abs(end.x - start.x);
    let ady = int_abs(end.y - start.y);
    assert(ady * dx == dx * ady) by (nonlinear_arith);
}

/// A line starts at its start point, ends at its end point, steps to a
/// neighbouring position each time (so it has no gaps), and stays within the
/// box that the two points span.
pub proof fn lemma_line_points(start: Point, end: Point)
    ensures
        ({
            let t = line_points(start, end);
            &&& t.len() >= 1
            &&& t[0] == (start.x as int, start.y as int)
            &&& t.last() == (end.x as int, end.y as int)
            &&& forall|i: int| 0 <= i < t.len() - 1 ==> neighbours(#[trigger] t[i], t[i + 1])
            &&& forall|i: int|
                0 <= i < t.len() ==> between((#[trigger] t[i]).0, start.x as int, end.x as int)
                    && between(t[i].1, start.y as int, end.y as int)
        }),
{
    lemma_line_start(start, end);
    let dx = int_abs(end.x - start.x);
    let ady = int_abs(end.y - start.y);
    lemma_trace(
        start.x as int,
        start.y as int,
        end.x as int,
        end.y as int,
        step_toward(start.x as int, end.x as int),
        step_toward(start.y as int, end.y as int),
        dx,
        ady,
        dx - ady,
        (dx + ady) as nat,
    );
}

/// The text of a grid of cells whose rendered pieces are `pieces`, row by
/// row: each cell's text in order, with a line break before the first cell of
/// every row but the first, and none at the end.
pub open spec fn grid_text(pieces: Seq<Seq<char>>, width: nat) -> Seq<char>
    decreases pieces.len(),
{
    if pieces.len() == 0 {
        Seq::empty()
    } else {
        let i = pieces.len() - 1;
        let sep = if i > 0 && i % (width as int) == 0 {
            seq!['\n']
        } else {
            Seq::<char>::empty()
        };
        grid_text(pieces.drop_last(), width) + sep + pieces.last()
    }
}

/// What a plainly styled cell renders as: its character alone where the
/// terminal takes escape codes, nothing where it does not.
pub open spec fn plain_rendering(piece: Seq<char>, ch: char) -> bool {
    piece == seq![ch] || piece.len() == 0
}

/// `pieces` are renderings of `cells`, one per cell; a plainly styled cell
/// renders as [`plain_rendering`] says.
pub open spec fn renders_cells(pieces: Seq<Seq<char>>, cells: Seq<Cell>) -> bool {
    &&& pieces.len() == cells.len()
    &&& forall|i: int|
        0 <= i < cells.len() && (#[trigger] cells[i]).style.is_plain() ==> plain_rendering(
            pieces[i],
            cells[i].ch,
        )
}

/// Renders one character in a style as terminal text by formatting
/// crossterm's `StyledContent` (`ContentStyle::apply`), with the style's
/// foreground as `Color::AnsiValue` and boldness as `Attribute::Bold`.
/// Where the terminal takes escape codes, crossterm's `PrintStyledContent`
/// writes colour and attribute sequences only for what the style sets, so a
/// plain style gives the character alone. On Windows, where the console does
/// not support escape codes, crossterm formats through its WinAPI path
/// (`execute_winapi`), which writes nothing, so the text is then empty. For
/// styles that are not plain the text also depends on whether the environment
/// disables colour (`NO_COLOR`); it is not stated.
#[verifier::external_body]
fn styled_char_text(style: CellStyle, ch: char) -> (s: String)
    ensures
        style.is_plain() ==> plain_rendering(s@, ch),
{
    let mut content = ContentStyle::new();
    if let Some(v) = style.foreground {
        content.foreground_color = Some(Color::AnsiValue(v));
    }
    if style.bold {
        content.attributes.set(Attribute::Bold);
    }
    format!("{}", content.apply(ch))
}

/// Along a line at least as wide as it is tall, every step moves one
/// column: the trace has one position per column still to go, plus one.
proof fn lemma_trace_len_wide(
    x: int,
    y: int,
    end_x: int,
    end_y: int,
    sx: int,
    sy: int,
    dx: int,
    ady: int,
    err: int,
    fuel: nat,
)
    requires
        trace_state(x, y, end_x, end_y, sx, sy, dx, ady, err),
        fuel >= remaining(x, end_x, sx) + remaining(y, end_y, sy),
        ady <= dx,
        2 * err >= -ady,
    ensures
        trace(x, y, end_x, end_y, sx, sy, dx, -ady, err, fuel).len() == remaining(x, end_x, sx) + 1,
    decreases fuel,
{
    let rx = remaining(x, end_x, sx);
    let ry = remaining(y, end_y, sy);
    if !(x == end_x && y == end_y) {
        lemma_line_step(dx, ady, rx, ry, err);
        let my = 2 * err <= dx;
        let nerr = err - ady + (if my {
            dx
        } else {
            0
        });
        let ny = if my {
            y + sy
        } else {
            y
        };
        lemma_trace_len_wide(x + sx, ny, end_x, end_y, sx, sy, dx, ady, nerr, (fuel - 1) as nat);
    }
}

/// Along a line taller than it is wide, every step moves one row.
proof fn lemma_trace_len_tall(
    x: int,
    y: int,
    end_x: int,
    end_y: int,
    sx: int,
    sy: int,
    dx: int,
    ady: int,
    err: int,
    fuel: nat,
)
    requires
        trace_state(x, y, end_x, end_y, sx, sy, dx, ady, err),
        fuel >= remaining(x, end_x, sx) + remaining(y, end_y, sy),
        dx < ady,
        2 * err <= dx,
    ensures
        trace(x, y, end_x, end_y, sx, sy, dx, -ady, err, fuel).len() == remaining(y, end_y, sy) + 1,
    decreases fuel,
{
    let rx = remaining(x, end_x, sx);
    let ry = remaining(y, end_y, sy);
    if !(x == end_x && y == end_y) {
        lemma_line_step(dx, ady, rx, ry, err);
        let mx = 2 * err >= -ady;
        let nerr = err + dx + (if mx {
            -ady
        } else {
            0
        });
        let nx = if mx {
            x + sx
        } else {
            x
        };
        lemma_trace_len_tall(nx, y + sy, end_x, end_y, sx, sy, dx, ady, nerr, (fuel - 1) as nat);
    }
}

/// A line has one position per step along its longer axis, plus one: no
/// position is drawn twice and none is spared.
pub proof fn lemma_line_length(start: Point, end: Point)
    ensures
        line_points(start, end).len() == (if int_abs(end.x - start.x) >= int_abs(end.y - start.y) {
            int_abs(end.x - start.x)
        } else {
            int_abs(end.y - start.y)
        }) + 1,
{
    lemma_line_start(start, end);
    let dx = int_abs(end.x - start.x);
    let ady = int_abs(end.y - start.y);
    let sx = step_toward(start.x as int, end.x as int);
    let sy = step_toward(start.y as int, end.y as int);
    if ady <= dx {
        lemma_trace_len_wide(
            start.x as int,
            start.y as int,
            end.x as int,
            end.y as int,
            sx,
            sy,
            dx,
            ady,
            dx - ady,
            (dx + ady) as nat,
        );
    } else {
        lemma_trace_len_tall(
            start.x as int,
            start.y as int,
            end.x as int,
            end.y as int,
            sx,
            sy,
            dx,
            ady,
            dx - ady,
            (dx + ady) as nat,
        );
    }
}

/// A line drawn on the canvas covers both of its end points, wherever they
/// lie on the canvas.
pub proof fn lemma_line_covers_end_points(
    old: CanvasView,
    new: CanvasView,
    start: Point,
    end: Point,
    cell: Cell,
)
    requires
        with_points(old, new, line_points(start, end), cell),
    ensures
        old.in_bounds(start.x as int, start.y as int) ==> new.at(start.x as int, start.y as int)
            == cell,
        old.in_bounds(end.x as int, end.y as int) ==> new.at(end.x as int, end.y as int) == cell,
{
    lemma_line_points(start, end);
    let t = line_points(start, end);
    assert(t[0] == (start.x as int, start.y as int));
    assert(t[t.len() - 1] == (end.x as int, end.y as int));
}

proof fn lemma_cell_index(w: int, h: int, x: int, y: int)
    requires
        0 <= x < w,
        0 <= y < h,
    ensures
        0 <= y * w + x < w * h,
{
    assert(0 <= y * w) by (nonlinear_arith)
        requires
            0 <= y,
            0 <= w,
    ;
    assert(y * w + w <= h * w) by (nonlinear_arith)
        requires
            y + 1 <= h,
            0 <= w,
    ;
    assert(h * w == w * h) by (nonlinear_arith);
}

proof fn lemma_cell_index_unique(w: int, x: int, y: int, x2: int, y2: int)
    requires
        0 <= x < w,
        0 <= x2 < w,
        0 <= y,
        0 <= y2,
        y * w + x == y2 * w + x2,
    ensures
        x == x2,
        y == y2,
{
    if y < y2 {
        assert(y * w + w <= y2 * w) by (nonlinear_arith)
            requires
                y + 1 <= y2,
                0 <= w,
        ;
    } else if y2 < y {
        assert(y2 * w + w <= y * w) by (nonlinear_arith)
            requires
                y2 + 1 <= y,
                0 <= w,
        ;
    }
}

/// A grid of styled characters.
pub struct Canvas {
    width: usize,
    height: usize,
    cells: Vec<Cell>,
}

impl View for Canvas {
    type V = CanvasView;

    closed spec fn view(&self) -> CanvasView {
        CanvasView { width: self.width as nat, height: self.height as nat, cells: self.cells@ }
    }
}

impl Canvas {
    /// A canvas of blank cells.
    pub fn new(width: u16, height: u16) -> (c: Self)
        requires
            width > 0,
            height > 0,
        ensures
            c@.wf(),
            c@.width == width,
            c@.height == height,
            c@.cells.len() == width * height,
            forall|x: int, y: int| c@.in_bounds(x, y) ==> #[trigger] c@.at(x, y) == plain_cell(' '),
    {
        let w = width as usize;
        let h = height as usize;
        assert(w * h <= 65535 * 65535) by (nonlinear_arith)
            requires
                w <= 65535,
                h <= 65535,
        ;
        let n = w * h;
        let mut cells: Vec<Cell> = Vec::new();
        let mut i: usize = 0;
        while i < n
            invariant
                i <= n,
                cells.len() == i,
                forall|k: int| 0 <= k < i ==> cells@[k] == plain_cell(' '),
            decreases n - i,
        {
            cells.push(Cell::plain(' '));
            i += 1;
        }
        let c = Canvas { width: w, height: h, cells };
        assert forall|x: int, y: int| c@.in_bounds(x, y) implies #[trigger] c@.at(x, y) == plain_cell(
            ' ',
        ) by {
            lemma_cell_index(w as int, h as int, x, y);
        }
        c
    }

    pub fn width(&self) -> (w: usize)
        ensures
            w == self@.width,
    {
        self.width
    }

    pub fn height(&self) -> (h: usize)
        ensures
            h == self@.height,
    {
        self.height
    }

    /// Replaces the cell at `(x, y)`; a position off the canvas is ignored.
    fn set_cell(&mut self, x: isize, y: isize, cell: Cell)
        requires
            old(self)@.wf(),
        ensures
            with_cell(old(self)@, final(self)@, x as int, y as int, cell),
    {
        let ghost old_view = self@;
        if x < 0 || y < 0 {
            return;
        }
        let (ux, uy) = (x as usize, y as usize);
        if ux >= self.width || uy >= self.height {
            return;
        }
        proof {
            lemma_cell_index(self.width as int, self.height as int, x as int, y as int);
            assert(uy * self.width + ux < self.cells.len());
            assert(uy * self.width <= uy * self.width + ux);
        }
        let index = uy * self.width + ux;
        self.cells.set(index, cell);
        assert forall|a: int, b: int| old_view.in_bounds(a, b) implies #[trigger] self@.at(a, b) == (
        if a == x && b == y {
            cell
        } else {
            old_view.at(a, b)
        }) by {
            lemma_cell_index(old_view.width as int, old_view.height as int, a, b);
            if b * old_view.width + a == index {
                lemma_cell_index_unique(old_view.width as int, a, b, x as int, y as int);
            }
        }
    }

    /// Puts a plain character at `(x, y)`; a position off the canvas is ignored.
    pub fn set(&mut self, x: isize, y: isize, ch: char)
        requires
            old(self)@.wf(),
        ensures
            with_cell(old(self)@, final(self)@, x as int, y as int, plain_cell(ch)),
    {
        self.set_cell(x, y, Cell::plain(ch));
    }

    /// Puts a styled character at `point`; a position off the canvas is ignored.
    pub fn set_styled(&mut self, point: Point, ch: char, style: CellStyle)
        requires
            old(self)@.wf(),
        ensures
            with_cell(old(self)@, final(self)@, point.x as int, point.y as int, Cell { ch, style }),
    {
        self.set_cell(point.x, point.y, Cell::styled(ch, style));
    }

    /// Writes `text` rightwards from `start`, one character per column;
    /// characters that fall off the canvas are skipped.
    pub fn text(&mut self, start: Point, text: &str, style: CellStyle)
        requires
            old(self)@.wf(),
            text@.len() <= isize::MAX,
            start.x + text@.len() <= isize::MAX + 1,
        ensures
            with_text(old(self)@, final(self)@, start.x as int, start.y as int, text@, style),
    {
        let ghost old_view = self@;
        let chars = chars_of(text);
        let n = chars.len();
        let mut k: usize = 0;
        assert(with_text(old_view, self@, start.x as int, start.y as int, chars@.subrange(0, 0), style));
        while k < n
            invariant
                k <= n,
                n == chars@.len(),
                chars@ == text@,
                n <= isize::MAX,
                start.x + n <= isize::MAX + 1,
                old_view.wf(),
                with_text(old_view, self@, start.x as int, start.y as int, chars@.subrange(0, k as int), style),
            decreases n - k,
        {
            let ghost before = self@;
            self.set_cell(start.x + (k as isize), start.y, Cell::styled(chars[k], style));
            let ghost written = chars@.subrange(0, k + 1);
            assert forall|a: int, b: int| old_view.in_bounds(a, b) implies #[trigger] self@.at(a, b) == (
            if b == start.y && start.x <= a < start.x + written.len() {
                Cell { ch: written[a - start.x], style }
            } else {
                old_view.at(a, b)
            }) by {
                assert(before.in_bounds(a, b));
            }
            k += 1;
        }
        assert(chars@.subrange(0, n as int) =~= text@);
    }

    /// Writes `text` placed against `anchor` as `alignment` says: starting
    /// there, centred on it (rounding towards the left), or ending there.
    pub fn text_aligned(&mut self, anchor: Point, text: &str, style: CellStyle, alignment: TextAlign)
        requires
            old(self)@.wf(),
            aligned_text_fits(anchor.x as int, text@.len() as int, alignment),
        ensures
            with_text(
                old(self)@,
                final(self)@,
                aligned_start(anchor.x as int, text@.len() as int, alignment),
                anchor.y as int,
                text@,
                style,
            ),
    {
        let width = text.unicode_len() as isize;
        let start_x = match alignment {
            TextAlign::Left => anchor.x,
            TextAlign::Center => anchor.x - width / 2,
            TextAlign::Right => anchor.x - width + 1,
        };
        self.text(Point { x: start_x, y: anchor.y }, text, style);
    }

    /// Draws the straight line from `start` to `end` with `cell`; positions
    /// off the canvas are skipped.
    fn line_cell(&mut self, start: Point, end: Point, cell: Cell)
        requires
            old(self)@.wf(),
            line_fits(start, end),
        ensures
            with_points(old(self)@, final(self)@, line_points(start, end), cell),
    {
        let ghost old_view = self@;
        let mut x = start.x;
        let mut y = start.y;
        let dx = if end.x < start.x {
            start.x - end.x
        } else {
            end.x - start.x
        };
        let sx: isize = if start.x < end.x {
            1
        } else {
            -1
        };
        let dy = if end.y < start.y {
            end.y - start.y
        } else {
            start.y - end.y
        };
        let sy: isize = if start.y < end.y {
            1
        } else {
            -1
        };
        let mut error = dx + dy;
        let ghost ady = -dy;
        let ghost mut fuel: nat = (dx - dy) as nat;
        let ghost mut drawn: Seq<(int, int)> = Seq::empty();
        proof {
            lemma_line_start(start, end);
            assert(drawn + line_points(start, end) =~= line_points(start, end));
        }
        loop
            invariant_except_break
                drawn + trace(
                    x as int,
                    y as int,
                    end.x as int,
                    end.y as int,
                    sx as int,
                    sy as int,
                    dx as int,
                    dy as int,
                    error as int,
                    fuel,
                ) == line_points(start, end),
            invariant
                old_view.wf(),
                line_fits(start, end),
                dx == int_abs(end.x - start.x),
                dy == -int_abs(end.y - start.y),
                sx == step_toward(start.x as int, end.x as int),
                sy == step_toward(start.y as int, end.y as int),
                ady == -dy,
                trace_state(
                    x as int,
                    y as int,
                    end.x as int,
                    end.y as int,
                    sx as int,
                    sy as int,
                    dx as int,
                    ady,
                    error as int,
                ),
                fuel >= remaining(x as int, end.x as int, sx as int) + remaining(
                    y as int,
                    end.y as int,
                    sy as int,
                ),
                with_points(old_view, self@, drawn, cell),
            ensures
                with_points(old_view, self@, line_points(start, end), cell),
            decreases remaining(x as int, end.x as int, sx as int) + remaining(
                y as int,
                end.y as int,
                sy as int,
            ),
        {
            let ghost before = self@;
            let ghost here = (x as int, y as int);
            let ghost rest = trace(
                x as int,
                y as int,
                end.x as int,
                end.y as int,
                sx as int,
                sy as int,
                dx as int,
                dy as int,
                error as int,
                fuel,
            );
            self.set_cell(x, y, cell);
            proof {
                let ghost prev = drawn;
                drawn = drawn.push(here);
                assert forall|a: int, b: int| old_view.in_bounds(a, b) implies #[trigger] self@.at(a, b)
                    == (if drawn.contains((a, b)) {
                    cell
                } else {
                    old_view.at(a, b)
                }) by {
                    assert(before.in_bounds(a, b));
                    if (a, b) == here {
                        assert(drawn[drawn.len() - 1] == here);
                    } else {
                        if prev.contains((a, b)) {
                            let j = choose|j: int| 0 <= j < prev.len() && prev[j] == (a, b);
                            assert(drawn[j] == (a, b));
                        }
                        if drawn.contains((a, b)) {
                            let j = choose|j: int| 0 <= j < drawn.len() && drawn[j] == (a, b);
                            assert(prev[j] == (a, b));
                        }
                    }
                }
            }
            if x == end.x && y == end.y {
                proof {
                    assert(rest == seq![here]);
                    assert(drawn =~= line_points(start, end));
                }
                break;
            }
            let ghost rx = remaining(x as int, end.x as int, sx as int);
            let ghost ry = remaining(y as int, end.y as int, sy as int);
            proof {
                lemma_line_step(dx as int, ady, rx, ry, error as int);
            }
            let error_twice = 2 * error;
            if error_twice >= dy {
                error += dy;
                x += sx;
            }
            if error_twice <= dx {
                error += dx;
                y += sy;
            }
            proof {
                let f = (fuel - 1) as nat;
                let next = trace(
                    x as int,
                    y as int,
                    end.x as int,
                    end.y as int,
                    sx as int,
                    sy as int,
                    dx as int,
                    dy as int,
                    error as int,
                    f,
                );
                assert(rest == seq![here] + next);
                assert(drawn + next =~= (drawn.drop_last()) + rest);
                assert(drawn.drop_last() =~= drawn.subrange(0, drawn.len() - 1));
                fuel = f;
            }
        }
    }

    /// Draws a plain line of `ch` from `start` to `end`.
    pub fn line(&mut self, start: Point, end: Point, ch: char)
        requires
            old(self)@.wf(),
            line_fits(start, end),
        ensures
            with_points(old(self)@, final(self)@, line_points(start, end), plain_cell(ch)),
    {
        self.line_cell(start, end, Cell::plain(ch));
    }

    /// Draws a line of `ch` in `style` from `start` to `end`.
    pub fn line_styled(&mut self, start: Point, end: Point, ch: char, style: CellStyle)
        requires
            old(self)@.wf(),
            line_fits(start, end),
        ensures
            with_points(old(self)@, final(self)@, line_points(start, end), Cell { ch, style }),
    {
        self.line_cell(start, end, Cell::styled(ch, style));
    }

    /// Renders canvas.
    ///
    /// # Note
    /// - `render` does not add a trailing newline after the final row.
    /// - Each cell is written through crossterm: a plain cell gives its
    ///   character, or nothing where the terminal takes no escape codes.
    pub fn render(&self) -> (s: String)
        requires
            self@.wf(),
        ensures
            exists|pieces: Seq<Seq<char>>|
                renders_cells(pieces, self@.cells) && s@ == grid_text(pieces, self@.width),
    {
        let n = self.cells.len();
        let mut out = String::new();
        let ghost mut pieces: Seq<Seq<char>> = Seq::empty();
        let mut i: usize = 0;
        while i < n
            invariant
                n == self.cells.len(),
                0 < self.width,
                i <= n,
                renders_cells(pieces, self.cells@.subrange(0, i as int)),
                out@ == grid_text(pieces, self.width as nat),
            decreases n - i,
        {
            if i > 0 && i % self.width == 0 {
                out.push('\n');
            }
            let c = self.cells[i];
            let piece = styled_char_text(c.style, c.ch);
            out.append(piece.as_str());
            proof {
                let next = pieces.push(piece@);
                assert(next.drop_last() =~= pieces);
                assert forall|k: int|
                    0 <= k < i + 1 && (#[trigger] self.cells@.subrange(0, i + 1)[k]).style.is_plain()
                    implies plain_rendering(next[k], self.cells@.subrange(0, i + 1)[k].ch) by {
                    if k < i {
                        assert(self.cells@.subrange(0, i + 1)[k] == self.cells@.subrange(0, i as int)[k]);
                    }
                }
                pieces = next;
            }
            i += 1;
        }
        assert(self.cells@.subrange(0, n as int) =~= self@.cells);
        out
    }

    /// Fills every cell with the plain character `ch`.
    pub fn clear(&mut self, ch: char)
        requires
            old(self)@.wf(),
        ensures
            final(self)@.wf(),
            final(self)@.same_size(old(self)@),
            forall|x: int, y: int|
                old(self)@.in_bounds(x, y) ==> #[trigger] final(self)@.at(x, y) == plain_cell(ch),
    {
        let n = self.cells.len();
        let mut i: usize = 0;
        while i < n
            invariant
                i <= n,
                self.cells.len() == n,
                self.width == old(self).width,
                self.height == old(self).height,
                n == self.width * self.height,
                forall|k: int| 0 <= k < i ==> self.cells@[k] == plain_cell(ch),
            decreases n - i,
        {
            self.cells.set(i, Cell::plain(ch));
            i += 1;
        }
        assert forall|x: int, y: int| old(self)@.in_bounds(x, y) implies #[trigger] self@.at(x, y)
            == plain_cell(ch) by {
            lemma_cell_index(self.width as int, self.height as int, x, y);
        }
    }
}

} // verus!

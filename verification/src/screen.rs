//! What the editor screen shows: the colours of each character cell of the
//! canvas view, and the palette grid.

use vstd::prelude::*;
use crate::color::{PixelColor, rgb};
use crate::grid::cell;
use crate::ansi::shown;
use crate::editor::App;

verus! {

/// The colour that marks the cursor.
pub open spec fn cursor_color() -> PixelColor {
    rgb(0, 255, 0)
}

/// The colour of the transparency checkerboard at `(x, y)`.
pub open spec fn checkerboard(x: int, y: int) -> PixelColor {
    if (x + y) % 2 == 0 { rgb(30, 30, 30) } else { rgb(50, 50, 50) }
}

/// The (foreground, background) colours of the character cell at column `x`
/// of text line `line`, which shows pixel rows `2 * line` (upper half) and
/// `2 * line + 1` (lower half). Empty pixels show the checkerboard; a cell
/// holding the cursor is drawn all in the cursor colour.
pub open spec fn cell_colors(a: App, line: int, x: int) -> (PixelColor, PixelColor) {
    let (w, h, g) = (a.canvas.width as int, a.canvas.height as int, a.canvas.rows());
    let (yt, yb) = (2 * line, 2 * line + 1);
    let cursor_top = x == a.cursor_x && yt == a.cursor_y;
    let cursor_bot = yb < h && x == a.cursor_x && yb == a.cursor_y;
    if cursor_top || cursor_bot {
        (cursor_color(), cursor_color())
    } else {
        (
            shown(cell(g, w, h, x, yt), checkerboard(x, yt)),
            if yb < h { shown(cell(g, w, h, x, yb), checkerboard(x, yb)) } else { checkerboard(x, yb) },
        )
    }
}

pub open spec fn min_nat(a: int, b: int) -> nat {
    (if a <= b { a } else { b }) as nat
}

/// The canvas view in an area of `max_lines` text lines of `max_cols`
/// characters, each pixel column two characters wide.
pub open spec fn canvas_view(a: App, max_lines: int, max_cols: int) -> Seq<Seq<(PixelColor, PixelColor)>> {
    Seq::new(
        min_nat((a.canvas.height + 1) / 2, max_lines),
        |line: int| Seq::new(min_nat(a.canvas.width as int, (max_cols + 1) / 2), |x: int| cell_colors(a, line, x)),
    )
}

/// The palette entries `start .. start + len`, each with whether it is the
/// selected one.
pub open spec fn palette_row(p: Seq<PixelColor>, idx: int, start: int, len: int) -> Seq<(PixelColor, bool)> {
    Seq::new(len as nat, |k: int| (p[start + k], start + k == idx))
}

/// The palette from `start` on, cut into rows of `cols` entries.
pub open spec fn palette_grid(p: Seq<PixelColor>, idx: int, cols: int, start: int) -> Seq<Seq<(PixelColor, bool)>>
    decreases (if start < p.len() { p.len() - start } else { 0 }),
{
    if start >= p.len() || cols <= 0 {
        Seq::empty()
    } else {
        seq![palette_row(p, idx, start, min_nat(cols, p.len() - start) as int)]
            + palette_grid(p, idx, cols, start + cols)
    }
}

fn checkerboard_color(x: usize, y: usize) -> (c: PixelColor)
    ensures
        c == checkerboard(x as int, y as int),
{
    if (x % 2 + y % 2) % 2 == 0 {
        PixelColor::new(30, 30, 30)
    } else {
        PixelColor::new(50, 50, 50)
    }
}

fn shown_or(c: Option<PixelColor>, fallback: PixelColor) -> (p: PixelColor)
    ensures
        p == shown(c, fallback),
{
    match c {
        Some(p) => p,
        None => fallback,
    }
}

impl App {
    /// The colours of the canvas view in an area of `max_lines` text lines of
    /// `max_cols` characters.
    pub fn canvas_cells(&self, max_lines: usize, max_cols: usize) -> (v: Vec<Vec<(PixelColor, PixelColor)>>)
        requires
            self.wf(),
        ensures
            v@.map_values(|r: Vec<(PixelColor, PixelColor)>| r@) == canvas_view(*self, max_lines as int, max_cols as int),
    {
        let w = self.canvas.width;
        let h = self.canvas.height;
        let canvas_lines = h / 2 + h % 2;
        let lines = if canvas_lines <= max_lines { canvas_lines } else { max_lines };
        let half = max_cols / 2 + max_cols % 2;
        let cols = if w <= half { w } else { half };
        let ghost view = canvas_view(*self, max_lines as int, max_cols as int);
        let mut out: Vec<Vec<(PixelColor, PixelColor)>> = Vec::new();
        let mut line: usize = 0;
        while line < lines
            invariant
                self.wf(),
                w == self.canvas.width,
                h == self.canvas.height,
                lines == view.len(),
                lines <= (h + 1) / 2,
                cols <= w,
                view == canvas_view(*self, max_lines as int, max_cols as int),
                forall|l: int| 0 <= l < view.len() ==> (#[trigger] view[l]).len() == cols,
                line <= lines,
                out@.len() == line,
                forall|l: int| 0 <= l < line ==> (#[trigger] out@[l])@ == view[l],
            decreases lines - line,
        {
            let y_top = line * 2;
            let y_bot = line * 2 + 1;
            let mut row: Vec<(PixelColor, PixelColor)> = Vec::new();
            let mut x: usize = 0;
            while x < cols
                invariant
                    self.wf(),
                    w == self.canvas.width,
                    h == self.canvas.height,
                    cols <= w,
                    y_top == 2 * line,
                    y_bot == 2 * line + 1,
                    y_top < h,
                    x <= cols,
                    row@.len() == x,
                    forall|k: int| 0 <= k < x ==> row@[k] == cell_colors(*self, line as int, k),
                decreases cols - x,
            {
                let is_cursor_top = x == self.cursor_x && y_top == self.cursor_y;
                let is_cursor_bot = y_bot < h && x == self.cursor_x && y_bot == self.cursor_y;
                let top_px = self.canvas.get(x, y_top);
                let bot_px = if y_bot < h { self.canvas.get(x, y_bot) } else { None };
                let board_top = checkerboard_color(x, y_top);
                let board_bot = checkerboard_color(x, y_bot);
                let fg = shown_or(top_px, board_top);
                let bg = shown_or(bot_px, board_bot);
                if is_cursor_top || is_cursor_bot {
                    let green = PixelColor::new(0, 255, 0);
                    row.push((green, green));
                } else {
                    row.push((fg, bg));
                }
                x += 1;
            }
            out.push(row);
            line += 1;
        }
        proof {
            assert(out@.map_values(|r: Vec<(PixelColor, PixelColor)>| r@) =~= view);
        }
        out
    }

    /// The palette cut into rows of `cols` entries, each entry with whether it
    /// is the selected colour.
    pub fn palette_rows(&self, cols: usize) -> (v: Vec<Vec<(PixelColor, bool)>>)
        requires
            cols > 0,
        ensures
            v@.map_values(|r: Vec<(PixelColor, bool)>| r@) == palette_grid(self.palette@, self.color_idx as int, cols as int, 0),
    {
        let n = self.palette.len();
        let ghost p = self.palette@;
        let ghost idx = self.color_idx as int;
        let mut out: Vec<Vec<(PixelColor, bool)>> = Vec::new();
        let mut start: usize = 0;
        while start < n
            invariant_except_break
                start <= n,
                out@.map_values(|r: Vec<(PixelColor, bool)>| r@) + palette_grid(p, idx, cols as int, start as int)
                    == palette_grid(p, idx, cols as int, 0),
            invariant
                n == p.len(),
                p == self.palette@,
                idx == self.color_idx,
                cols > 0,
            ensures
                out@.map_values(|r: Vec<(PixelColor, bool)>| r@) == palette_grid(p, idx, cols as int, 0),
            decreases n - start,
        {
            let end = if cols < n - start { start + cols } else { n };
            let mut row: Vec<(PixelColor, bool)> = Vec::new();
            let mut i = start;
            while i < end
                invariant
                    start <= i <= end,
                    end <= n,
                    n == p.len(),
                    p == self.palette@,
                    idx == self.color_idx,
                    row@.len() == i - start,
                    forall|k: int| 0 <= k < i - start ==> row@[k] == (p[start + k], start + k == idx),
                decreases end - i,
            {
                row.push((self.palette[i], i == self.color_idx));
                i += 1;
            }
            let ghost before = out@.map_values(|r: Vec<(PixelColor, bool)>| r@);
            proof {
                assert(row@ =~= palette_row(p, idx, start as int, min_nat(cols as int, n - start) as int));
            }
            out.push(row);
            proof {
                assert(out@.map_values(|r: Vec<(PixelColor, bool)>| r@) =~= before.push(row@));
            }
            if cols >= n - start {
                proof {
                    assert(palette_grid(p, idx, cols as int, (start + cols) as int) == Seq::<Seq<(PixelColor, bool)>>::empty());
                    assert(out@.map_values(|r: Vec<(PixelColor, bool)>| r@) =~= before + palette_grid(p, idx, cols as int, start as int));
                }
                break;
            }
            proof {
                assert(out@.map_values(|r: Vec<(PixelColor, bool)>| r@) + palette_grid(p, idx, cols as int, (start + cols) as int)
                    =~= before + palette_grid(p, idx, cols as int, start as int));
            }
            start += cols;
        }
        out
    }
}

} // verus!

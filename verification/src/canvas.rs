//! The pixel canvas and its drawing primitives.

use vstd::prelude::*;
use crate::color::PixelColor;
use crate::grid::{cell, Change, shaped, inside, put, put_checked, grid_count, lemma_grid_count_put};
use crate::grid::{paint_all, paint_log, lemma_paint_all_shaped};
use crate::line::{abs, line_points, bres_trace, bres_step, bres_inv, remaining, lemma_bres_start, lemma_bres_trace_end, lemma_bres_trace_step, lemma_bres_step};
use crate::rect::{span, rect_row, rect_rows, rect_points};
use crate::ansi::{shown, line_text, ansi_text, ansi_export};
use crate::text::push_char;
use crate::fill::{fill_order, fill_run, fill_turn, neighbours, fill_log, adjacent, filled, points, fill_inv, lemma_fill_init, lemma_fill_skip, lemma_fill_paint, lemma_fill_done};

verus! {

/// A 2D pixel canvas. Coordinates: (x, y) where y=0 is the top row.
#[derive(Debug, Clone)]
pub struct Canvas {
    pub width: usize,
    pub height: usize,
    /// Row-major: pixels[y][x]
    pub pixels: Vec<Vec<Option<PixelColor>>>,
}

/// Whether two optional colours are the same.
fn same_color(a: Option<PixelColor>, b: Option<PixelColor>) -> (r: bool)
    ensures
        r == (a == b),
{
    match (a, b) {
        (None, None) => true,
        (Some(p), Some(q)) => p.r == q.r && p.g == q.g && p.b == q.b,
        _ => false,
    }
}

impl Canvas {
    /// The cells, row by row.
    pub open spec fn rows(&self) -> Seq<Seq<Option<PixelColor>>> {
        self.pixels@.map_values(|r: Vec<Option<PixelColor>>| r@)
    }

    /// `height` rows of `width` cells each.
    pub open spec fn wf(&self) -> bool {
        shaped(self.rows(), self.width as int, self.height as int)
    }

    pub fn new(width: usize, height: usize) -> (c: Self)
        ensures
            c.wf(),
            c.width == width,
            c.height == height,
            forall|x: int, y: int| inside(width as int, height as int, x, y) ==> c.rows()[y][x] is None,
    {
        let mut pixels: Vec<Vec<Option<PixelColor>>> = Vec::new();
        let mut j: usize = 0;
        while j < height
            invariant
                j <= height,
                pixels@.len() == j,
                forall|y: int| 0 <= y < j ==> #[trigger] pixels@[y]@.len() == width,
                forall|y: int, x: int| 0 <= y < j && 0 <= x < width ==> pixels@[y]@[x] is None,
            decreases height - j,
        {
            let mut row: Vec<Option<PixelColor>> = Vec::new();
            let mut i: usize = 0;
            while i < width
                invariant
                    i <= width,
                    row@.len() == i,
                    forall|x: int| 0 <= x < i ==> row@[x] is None,
                decreases width - i,
            {
                row.push(None);
                i += 1;
            }
            pixels.push(row);
            j += 1;
        }
        Canvas { width, height, pixels }
    }

    pub fn in_bounds(&self, x: usize, y: usize) -> (b: bool)
        ensures
            b == inside(self.width as int, self.height as int, x as int, y as int),
    {
        x < self.width && y < self.height
    }

    /// The cell at an in-bounds position.
    fn read(&self, x: usize, y: usize) -> (c: Option<PixelColor>)
        requires
            self.wf(),
            inside(self.width as int, self.height as int, x as int, y as int),
        ensures
            c == self.rows()[y as int][x as int],
    {
        assert(self.rows()[y as int] == self.pixels@[y as int]@);
        self.pixels[y][x]
    }

    /// Overwrite the cell at an in-bounds position.
    fn write(&mut self, x: usize, y: usize, c: Option<PixelColor>)
        requires
            old(self).wf(),
            inside(old(self).width as int, old(self).height as int, x as int, y as int),
        ensures
            final(self).wf(),
            final(self).width == old(self).width,
            final(self).height == old(self).height,
            final(self).rows() == put(old(self).rows(), x as int, y as int, c),
    {
        let ghost g0 = self.rows();
        assert(g0[y as int] == self.pixels@[y as int]@);
        self.pixels[y][x] = c;
        proof {
            assert(self.rows() =~~= put(g0, x as int, y as int, c));
        }
    }

    pub fn get(&self, x: usize, y: usize) -> (c: Option<PixelColor>)
        requires
            self.wf(),
        ensures
            c == cell(self.rows(), self.width as int, self.height as int, x as int, y as int),
    {
        if self.in_bounds(x, y) {
            self.read(x, y)
        } else {
            None
        }
    }

    pub fn set(&mut self, x: usize, y: usize, color: Option<PixelColor>)
        requires
            old(self).wf(),
        ensures
            final(self).wf(),
            final(self).width == old(self).width,
            final(self).height == old(self).height,
            final(self).rows() == put_checked(old(self).rows(), old(self).width as int, old(self).height as int, x as int, y as int, color),
    {
        if self.in_bounds(x, y) {
            self.write(x, y, color);
        }
    }
    /// Flood-fill from (x, y) with the given color.
    /// Returns list of changed pixels for undo.
    pub fn flood_fill(&mut self, x: usize, y: usize, color: Option<PixelColor>) -> (changes: Vec<Change>)
        requires
            old(self).wf(),
        ensures
            final(self).wf(),
            final(self).width == old(self).width,
            final(self).height == old(self).height,
            ({
                let (w, h, g) = (old(self).width as int, old(self).height as int, old(self).rows());
                if !inside(w, h, x as int, y as int) || g[y as int][x as int] == color {
                    &&& final(self).rows() == g
                    &&& changes@.len() == 0
                } else {
                    &&& final(self).rows() == filled(g, w, h, x as int, y as int, color)
                    &&& changes@ == fill_order(g, w, h, x as int, y as int, color)
                    &&& fill_log(g, w, h, x as int, y as int, changes@)
                }
            }),
    {
        if !self.in_bounds(x, y) {
            return Vec::new();
        }
        let target = self.read(x, y);
        if same_color(target, color) {
            return Vec::new();
        }
        let ghost g0 = self.rows();
        let ghost w = self.width as int;
        let ghost h = self.height as int;
        let mut changes: Vec<Change> = Vec::new();
        let mut stack: Vec<(usize, usize)> = Vec::new();
        stack.push((x, y));
        let ghost mut fuel: nat = (5 * grid_count(g0, target) + 1) as nat;
        proof {
            lemma_fill_init(g0, w, h, x as int, y as int, color);
            assert(points(stack@) =~= seq![(x as int, y as int)]);
            assert(changes@ =~= Seq::<Change>::empty());
        }
        while stack.len() > 0
            invariant
                self.wf(),
                self.width == w,
                self.height == h,
                target == g0[y as int][x as int],
                fill_inv(g0, w, h, x as int, y as int, color, self.rows(), changes@, points(stack@)),
                fuel >= 5 * grid_count(self.rows(), target) + stack@.len(),
                fill_run(w, h, target, color, (self.rows(), points(stack@), changes@), fuel)
                    == fill_order(g0, w, h, x as int, y as int, color),
            decreases 5 * grid_count(self.rows(), target) + stack@.len(),
        {
            let ghost sp = points(stack@);
            let ghost g = self.rows();
            let ghost ch0 = changes@;
            proof {
                assert(fill_run(w, h, target, color, (g, sp, ch0), fuel)
                    == fill_run(w, h, target, color, fill_turn(w, h, target, color, (g, sp, ch0)), (fuel - 1) as nat));
                fuel = (fuel - 1) as nat;
            }
            let (cx, cy) = stack.pop().unwrap();
            proof {
                assert(points(stack@) =~= sp.drop_last());
            }
            if !self.in_bounds(cx, cy) {
                proof {
                    lemma_fill_skip(g0, w, h, x as int, y as int, color, g, changes@, sp);
                }
                continue;
            }
            let cur = self.read(cx, cy);
            if !same_color(cur, target) {
                proof {
                    lemma_fill_skip(g0, w, h, x as int, y as int, color, g, changes@, sp);
                }
                continue;
            }
            let ghost ch = changes@;
            changes.push((cx, cy, cur));
            self.write(cx, cy, color);
            proof {
                lemma_grid_count_put(g, cx as int, cy as int, color, target);
            }
            let ghost i_left = stack@.len() as int;
            if cx > 0 {
                stack.push((cx - 1, cy));
            }
            let ghost i_right = stack@.len() as int;
            if cx + 1 < self.width {
                stack.push((cx + 1, cy));
            }
            let ghost i_up = stack@.len() as int;
            if cy > 0 {
                stack.push((cx, cy - 1));
            }
            let ghost i_down = stack@.len() as int;
            if cy + 1 < self.height {
                stack.push((cx, cy + 1));
            }
            proof {
                let sp2 = points(stack@);
                let q = (cx as int, cy as int);
                let n = stack@.len() as int;
                assert(sp.last() == q);
                assert(i_left == sp.len() - 1);
                assert(cx > 0 ==> sp2[i_left] == (q.0 - 1, q.1));
                assert(cx + 1 < w ==> sp2[i_right] == (q.0 + 1, q.1));
                assert(cy > 0 ==> sp2[i_up] == (q.0, q.1 - 1));
                assert(cy + 1 < h ==> sp2[i_down] == (q.0, q.1 + 1));
                assert(i_right == i_left + if cx > 0 { 1int } else { 0int });
                assert(i_up == i_right + if cx + 1 < w { 1int } else { 0int });
                assert(i_down == i_up + if cy > 0 { 1int } else { 0int });
                assert(n == i_down + if cy + 1 < h { 1int } else { 0int });
                assert forall|k: int| 0 <= k < sp.len() - 1 implies sp2[k] == sp[k] by {
                }
                assert forall|k: int| sp.len() - 1 <= k < sp2.len() implies adjacent(q, #[trigger] sp2[k]) by {
                }
                assert(sp2 =~= sp.drop_last() + neighbours(q, w, h));
                assert forall|r: (int, int)| adjacent(q, r) && inside(w, h, r.0, r.1) implies #[trigger] sp2.contains(r) by {
                    if r == (q.0 - 1, q.1) {
                        assert(sp2[i_left] == r);
                    } else if r == (q.0 + 1, q.1) {
                        assert(sp2[i_right] == r);
                    } else if r == (q.0, q.1 - 1) {
                        assert(sp2[i_up] == r);
                    } else {
                        assert(sp2[i_down] == r);
                    }
                }
                lemma_fill_paint(g0, w, h, x as int, y as int, color, g, ch, sp, (cx, cy, cur), sp2);
            }
        }
        proof {
            assert(points(stack@) =~= Seq::<(int, int)>::empty());
            lemma_fill_done(g0, w, h, x as int, y as int, color, self.rows(), changes@);
        }
        changes
    }
    /// Paint one cell when it is on the canvas, recording its previous value.
    fn paint_cell(&mut self, x: usize, y: usize, color: Option<PixelColor>, changes: &mut Vec<Change>)
        requires
            old(self).wf(),
        ensures
            final(self).wf(),
            final(self).width == old(self).width,
            final(self).height == old(self).height,
            final(self).rows() == put_checked(old(self).rows(), old(self).width as int, old(self).height as int, x as int, y as int, color),
            final(changes)@ == if inside(old(self).width as int, old(self).height as int, x as int, y as int) {
                old(changes)@.push((x, y, old(self).rows()[y as int][x as int]))
            } else {
                old(changes)@
            },
    {
        if self.in_bounds(x, y) {
            let prev = self.read(x, y);
            changes.push((x, y, prev));
            self.write(x, y, color);
        }
    }

    /// Draw a line from (x0,y0) to (x1,y1) using Bresenham.
    /// Returns the list of pixels set (for undo).
    pub fn draw_line(
        &mut self,
        x0: isize,
        y0: isize,
        x1: isize,
        y1: isize,
        color: Option<PixelColor>,
    ) -> (changes: Vec<Change>)
        requires
            old(self).wf(),
            3 * abs(x1 - x0) <= isize::MAX,
            3 * abs(y1 - y0) <= isize::MAX,
        ensures
            final(self).wf(),
            final(self).width == old(self).width,
            final(self).height == old(self).height,
            final(self).rows() == paint_all(old(self).rows(), old(self).width as int, old(self).height as int,
                line_points(x0 as int, y0 as int, x1 as int, y1 as int), color),
            changes@ == paint_log(old(self).rows(), old(self).width as int, old(self).height as int,
                line_points(x0 as int, y0 as int, x1 as int, y1 as int), color),
    {
        let ghost g0 = self.rows();
        let ghost w = self.width as int;
        let ghost h = self.height as int;
        let ghost pts = line_points(x0 as int, y0 as int, x1 as int, y1 as int);
        let mut changes: Vec<Change> = Vec::new();
        let dx: isize = if x1 >= x0 { x1 - x0 } else { x0 - x1 };
        let dy: isize = if y1 >= y0 { -(y1 - y0) } else { -(y0 - y1) };
        let sx: isize = if x0 < x1 { 1 } else { -1 };
        let sy: isize = if y0 < y1 { 1 } else { -1 };
        let mut err = dx + dy;
        let mut cx = x0;
        let mut cy = y0;
        let ghost mut visited: Seq<(int, int)> = Seq::empty();
        let ghost mut fuel: nat = (abs(x1 - x0) + abs(y1 - y0)) as nat;
        proof {
            lemma_bres_start(x0 as int, y0 as int, x1 as int, y1 as int);
            assert(visited + bres_trace(x0 as int, y0 as int, x1 as int, y1 as int, (cx as int, cy as int, err as int), fuel) =~= pts);
        }
        loop
            invariant_except_break
                bres_inv(x0 as int, y0 as int, x1 as int, y1 as int, (cx as int, cy as int, err as int)),
                fuel >= remaining(x1 as int, y1 as int, (cx as int, cy as int, err as int)),
                visited + bres_trace(x0 as int, y0 as int, x1 as int, y1 as int, (cx as int, cy as int, err as int), fuel) == pts,
            invariant
                self.wf(),
                self.width == w,
                self.height == h,
                dx == abs(x1 - x0),
                dy == -abs(y1 - y0),
                sx == (if x0 < x1 { 1int } else { -1int }),
                sy == (if y0 < y1 { 1int } else { -1int }),
                3 * abs(x1 - x0) <= isize::MAX,
                3 * abs(y1 - y0) <= isize::MAX,
                self.rows() == paint_all(g0, w, h, visited, color),
                changes@ == paint_log(g0, w, h, visited, color),
                shaped(g0, w, h),
            ensures
                self.rows() == paint_all(g0, w, h, pts, color),
                changes@ == paint_log(g0, w, h, pts, color),
            decreases remaining(x1 as int, y1 as int, (cx as int, cy as int, err as int)),
        {
            let ghost s = (cx as int, cy as int, err as int);
            let ghost v2 = visited.push((cx as int, cy as int));
            proof {
                assert(v2.drop_last() =~= visited);
                lemma_paint_all_shaped(g0, w, h, visited, color);
            }
            if cx >= 0 && cy >= 0 {
                let ux = cx as usize;
                let uy = cy as usize;
                self.paint_cell(ux, uy, color, &mut changes);
            }
            proof {
                visited = v2;
            }
            if cx == x1 && cy == y1 {
                proof {
                    lemma_bres_trace_end(x0 as int, y0 as int, x1 as int, y1 as int, s, fuel);
                    assert(visited =~= pts);
                }
                break;
            }
            proof {
                lemma_bres_trace_step(x0 as int, y0 as int, x1 as int, y1 as int, s, fuel);
                lemma_bres_step(x0 as int, y0 as int, x1 as int, y1 as int, s);
                fuel = (fuel - 1) as nat;
            }
            let e2 = 2 * err;
            if e2 >= dy {
                err += dy;
                cx += sx;
            }
            if e2 <= dx {
                err += dx;
                cy += sy;
            }
            proof {
                assert((cx as int, cy as int, err as int) == bres_step(x0 as int, y0 as int, x1 as int, y1 as int, s));
                assert(visited + bres_trace(x0 as int, y0 as int, x1 as int, y1 as int, (cx as int, cy as int, err as int), fuel) =~= pts);
            }
        }
        changes
    }
    /// Draw a rectangle outline or filled.
    pub fn draw_rect(
        &mut self,
        x0: usize,
        y0: usize,
        x1: usize,
        y1: usize,
        color: Option<PixelColor>,
        filled: bool,
    ) -> (changes: Vec<Change>)
        requires
            old(self).wf(),
        ensures
            final(self).wf(),
            final(self).width == old(self).width,
            final(self).height == old(self).height,
            final(self).rows() == paint_all(old(self).rows(), old(self).width as int, old(self).height as int,
                rect_points(x0 as int, y0 as int, x1 as int, y1 as int, filled), color),
            changes@ == paint_log(old(self).rows(), old(self).width as int, old(self).height as int,
                rect_points(x0 as int, y0 as int, x1 as int, y1 as int, filled), color),
    {
        let min_x = if x0 <= x1 { x0 } else { x1 };
        let max_x = if x0 <= x1 { x1 } else { x0 };
        let min_y = if y0 <= y1 { y0 } else { y1 };
        let max_y = if y0 <= y1 { y1 } else { y0 };
        let ghost r = span(x0 as int, y0 as int, x1 as int, y1 as int);
        let ghost g0 = self.rows();
        let ghost w = self.width as int;
        let ghost h = self.height as int;
        let ghost cols = (max_x - min_x + 1) as nat;
        let mut changes: Vec<Change> = Vec::new();

        let mut y = min_y;
        loop
            invariant_except_break
                min_y <= y <= max_y,
                self.rows() == paint_all(g0, w, h, rect_rows(r, filled, (y - min_y) as nat), color),
                changes@ == paint_log(g0, w, h, rect_rows(r, filled, (y - min_y) as nat), color),
            invariant
                self.wf(),
                self.width == w,
                self.height == h,
                shaped(g0, w, h),
                r == (min_x as int, min_y as int, max_x as int, max_y as int),
                r == span(x0 as int, y0 as int, x1 as int, y1 as int),
                cols == max_x - min_x + 1,
                min_x <= max_x,
            ensures
                self.rows() == paint_all(g0, w, h, rect_points(x0 as int, y0 as int, x1 as int, y1 as int, filled), color),
                changes@ == paint_log(g0, w, h, rect_points(x0 as int, y0 as int, x1 as int, y1 as int, filled), color),
            decreases max_y - y,
        {
            let ghost done = rect_rows(r, filled, (y - min_y) as nat);
            let mut x = min_x;
            loop
                invariant_except_break
                    min_x <= x <= max_x,
                    self.rows() == paint_all(g0, w, h, done + rect_row(r, filled, y as int, (x - min_x) as nat), color),
                    changes@ == paint_log(g0, w, h, done + rect_row(r, filled, y as int, (x - min_x) as nat), color),
                invariant
                    self.wf(),
                    self.width == w,
                    self.height == h,
                    shaped(g0, w, h),
                    r == (min_x as int, min_y as int, max_x as int, max_y as int),
                    cols == max_x - min_x + 1,
                ensures
                    self.rows() == paint_all(g0, w, h, done + rect_row(r, filled, y as int, cols), color),
                    changes@ == paint_log(g0, w, h, done + rect_row(r, filled, y as int, cols), color),
                decreases max_x - x,
            {
                let ghost before = done + rect_row(r, filled, y as int, (x - min_x) as nat);
                let ghost after = done + rect_row(r, filled, y as int, (x - min_x + 1) as nat);
                let on_edge = x == min_x || x == max_x || y == min_y || y == max_y;
                if filled || on_edge {
                    proof {
                        assert(after =~= before.push((x as int, y as int)));
                        assert(after.drop_last() =~= before);
                        lemma_paint_all_shaped(g0, w, h, before, color);
                    }
                    self.paint_cell(x, y, color, &mut changes);
                } else {
                    proof {
                        assert(after =~= before);
                    }
                }
                if x == max_x {
                    break;
                }
                x += 1;
            }
            proof {
                assert(done + rect_row(r, filled, y as int, cols) =~= rect_rows(r, filled, (y - min_y + 1) as nat));
            }
            if y == max_y {
                proof {
                    assert(rect_points(x0 as int, y0 as int, x1 as int, y1 as int, filled) == rect_rows(r, filled, (y - min_y + 1) as nat));
                }
                break;
            }
            y += 1;
        }
        changes
    }

    /// Export as ANSI art using half-block characters.
    /// Each terminal row covers 2 pixel rows.
    pub fn to_ansi_string(&self, bg_color: PixelColor) -> (out: String)
        requires
            self.wf(),
        ensures
            out@ == ansi_export(self.rows(), self.width as int, self.height as int, bg_color),
    {
        let mut out = String::new();
        let rows = self.height / 2 + self.height % 2;
        let ghost g = self.rows();
        let ghost h = self.height as int;
        let mut row: usize = 0;
        while row < rows
            invariant
                self.wf(),
                g == self.rows(),
                h == self.height,
                rows == (h + 1) / 2,
                row <= rows,
                out@ == ansi_text(g, self.width as int, h, bg_color, row as nat),
            decreases rows - row,
        {
            let y_top = row * 2;
            let y_bot = row * 2 + 1;
            let ghost before = out@;
            let mut x: usize = 0;
            while x < self.width
                invariant
                    self.wf(),
                    g == self.rows(),
                    h == self.height,
                    y_top == 2 * row,
                    y_bot == 2 * row + 1,
                    y_top < h,
                    x <= self.width,
                    out@ == before + line_text(g, h, bg_color, row as int, x as nat),
                decreases self.width - x,
            {
                let top = or_color(self.read(x, y_top), bg_color);
                let bot = if y_bot < self.height {
                    or_color(self.read(x, y_bot), bg_color)
                } else {
                    bg_color
                };

                if top == bot {
                    // Full block: just use the background colour
                    out.append(top.ansi_bg().as_str());
                    out.append(" ");
                } else {
                    // Upper half block: fg = top, bg = bot
                    out.append(top.ansi_fg().as_str());
                    out.append(bot.ansi_bg().as_str());
                    push_char(&mut out, '\u{2580}');
                }
                proof {
                    assert(out@ =~= before + line_text(g, h, bg_color, row as int, (x + 1) as nat));
                }
                x += 1;
            }
            out.append("\x1b[0m\n");
            row += 1;
        }
        out
    }
}

/// The colour shown for a cell: its own, or `bg` when it is empty.
fn or_color(c: Option<PixelColor>, bg: PixelColor) -> (p: PixelColor)
    ensures
        p == shown(c, bg),
{
    match c {
        Some(p) => p,
        None => bg,
    }
}

/// Project file format.
#[derive(Debug)]
pub struct ProjectFile {
    pub width: usize,
    pub height: usize,
    pub pixels: Vec<Vec<Option<PixelColor>>>,
}

/// A copy of every row.
fn copy_rows(src: &Vec<Vec<Option<PixelColor>>>) -> (out: Vec<Vec<Option<PixelColor>>>)
    ensures
        out@.map_values(|r: Vec<Option<PixelColor>>| r@) == src@.map_values(|r: Vec<Option<PixelColor>>| r@),
{
    let mut out: Vec<Vec<Option<PixelColor>>> = Vec::new();
    let mut j: usize = 0;
    while j < src.len()
        invariant
            j <= src@.len(),
            out@.len() == j,
            forall|k: int| 0 <= k < j ==> (#[trigger] out@[k])@ == src@[k]@,
        decreases src@.len() - j,
    {
        let row = &src[j];
        let mut copy: Vec<Option<PixelColor>> = Vec::new();
        let mut i: usize = 0;
        while i < row.len()
            invariant
                i <= row@.len(),
                copy@ == row@.take(i as int),
            decreases row@.len() - i,
        {
            copy.push(row[i]);
            proof {
                assert(row@.take(i + 1) =~= row@.take(i as int).push(row@[i as int]));
            }
            i += 1;
        }
        proof {
            assert(row@.take(row@.len() as int) =~= row@);
        }
        out.push(copy);
        j += 1;
    }
    proof {
        assert(out@.map_values(|r: Vec<Option<PixelColor>>| r@) =~= src@.map_values(|r: Vec<Option<PixelColor>>| r@));
    }
    out
}

impl ProjectFile {
    /// The cells, row by row.
    pub open spec fn rows(&self) -> Seq<Seq<Option<PixelColor>>> {
        self.pixels@.map_values(|r: Vec<Option<PixelColor>>| r@)
    }

    pub fn from_canvas(c: &Canvas) -> (p: Self)
        ensures
            p.width == c.width,
            p.height == c.height,
            p.rows() == c.rows(),
    {
        ProjectFile {
            width: c.width,
            height: c.height,
            pixels: copy_rows(&c.pixels),
        }
    }

    pub fn to_canvas(self) -> (c: Canvas)
        ensures
            c.width == self.width,
            c.height == self.height,
            c.rows() == self.rows(),
    {
        Canvas {
            width: self.width,
            height: self.height,
            pixels: self.pixels,
        }
    }
}

} // verus!

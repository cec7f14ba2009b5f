//! Properties that relate several operations of the library.

use vstd::prelude::*;
use crate::color::{PixelColor, fg_escape, bg_escape};
use crate::ansi::{shown, line_text, ansi_text, ansi_export};
use crate::grid::{Change, shaped, inside, cell, put, put_checked, restore, change_positions, lemma_restore_pointwise, paint_all, paint_log, lemma_paint_then_restore};
use crate::line::{abs, unit_step, line_points, lemma_line_points_distinct, lemma_bres_start, lemma_bres_trace_shape};
use crate::line::{major_len, major_progress, deviation, progress_x, lemma_bres_trace_close};
use crate::rect::{rect_points, span, lemma_rect_rows_order, lemma_rect_rows_members};
use crate::fill::{reaches, filled, fill_log, fill_path, fill_order, fill_run, fill_turn};
use crate::editor::{App, Tool, Action, Key, tool_applied, undone, performed, spec_action_for};
use crate::canvas::{Canvas, ProjectFile};
use crate::color::rgb;
use crate::screen::{canvas_view, palette_grid, palette_row, min_nat};

verus! {

/// Writing back the changes that a flood fill returned gives back the canvas
/// as it was before the fill.
pub proof fn law_fill_then_restore(
    g: Seq<Seq<Option<PixelColor>>>,
    w: int,
    h: int,
    sx: int,
    sy: int,
    c: Option<PixelColor>,
    ch: Seq<Change>,
)
    requires
        shaped(g, w, h),
        inside(w, h, sx, sy),
        fill_log(g, w, h, sx, sy, ch),
    ensures
        restore(filled(g, w, h, sx, sy, c), w, h, ch) == g,
{
    let f = filled(g, w, h, sx, sy, c);
    assert(shaped(f, w, h));
    lemma_restore_pointwise(f, w, h, ch);
    let r = restore(f, w, h, ch);
    assert forall|y: int| 0 <= y < h implies #[trigger] r[y] =~= g[y] by {
        assert forall|x: int| 0 <= x < w implies r[y][x] == g[y][x] by {
            if change_positions(ch).contains((x, y)) {
                let i = choose|i: int| 0 <= i < ch.len() && (#[trigger] ch[i]).0 == x && ch[i].1 == y;
                assert(reaches(g, w, h, sx, sy, (x, y)));
                let path = choose|path: Seq<(int, int)>|
                    #[trigger] fill_path(g, w, h, g[sy][sx], path) && path[0] == (sx, sy) && path.last() == (x, y);
                assert(path[path.len() - 1] == (x, y));
                assert(r[ch[i].1 as int][ch[i].0 as int] == ch[i].2);
            } else {
                assert(!reaches(g, w, h, sx, sy, (x, y)));
            }
        }
    }
    assert(r =~= g);
}

/// Writing back the one recorded change of a single-cell write gives back the
/// canvas.
pub proof fn law_put_then_restore(
    g: Seq<Seq<Option<PixelColor>>>,
    w: int,
    h: int,
    x: usize,
    y: usize,
    c: Option<PixelColor>,
)
    requires
        shaped(g, w, h),
    ensures
        restore(put_checked(g, w, h, x as int, y as int, c), w, h, seq![(x, y, cell(g, w, h, x as int, y as int))]) == g,
{
    let ch = seq![(x, y, cell(g, w, h, x as int, y as int))];
    let p = put_checked(g, w, h, x as int, y as int, c);
    assert(ch.drop_last() =~= Seq::<Change>::empty());
    assert(restore(p, w, h, ch.drop_last()) == p);
    assert(restore(p, w, h, ch) == put_checked(p, w, h, x as int, y as int, cell(g, w, h, x as int, y as int)));
    if inside(w, h, x as int, y as int) {
        assert(put(put(g, x as int, y as int, c), x as int, y as int, g[y as int][x as int]) =~~= g);
    }
}

/// A fill from the cursor would change nothing: the cursor is off the canvas
/// or its cell already has the selected colour.
pub open spec fn fill_is_noop(a: App) -> bool {
    let (w, h, g) = (a.canvas.width as int, a.canvas.height as int, a.canvas.rows());
    let (x, y) = (a.cursor_x as int, a.cursor_y as int);
    !inside(w, h, x, y) || g[y][x] == Some(a.spec_current_color())
}

/// Applying a tool and then undoing gives back the canvas and the history as
/// they were. A fill that changes nothing records nothing, so an undo right
/// after it takes back the action before it instead; that case is left out
/// unless the history was empty.
pub proof fn law_undo_reverts_apply(a: App, b: App, c: App)
    requires
        a.wf(),
        tool_applied(a, b),
        undone(b, c),
        !(a.tool == Tool::Fill && fill_is_noop(a) && a.history().len() > 0),
    ensures
        c.canvas.rows() == a.canvas.rows(),
        c.history() == a.history(),
{
    let (w, h, g) = (a.canvas.width as int, a.canvas.height as int, a.canvas.rows());
    let (x, y) = (a.cursor_x as int, a.cursor_y as int);
    match a.tool {
        Tool::Fill => {
            if !fill_is_noop(a) {
                law_fill_then_restore(g, w, h, x, y, Some(a.spec_current_color()), b.history().last());
                assert(b.history().drop_last() == a.history());
            }
        },
        Tool::Eraser => {
            law_put_then_restore(g, w, h, a.cursor_x, a.cursor_y, None);
            assert(b.history().last() == seq![(a.cursor_x, a.cursor_y, cell(g, w, h, x, y))]);
            assert(b.history().drop_last() =~= a.history());
        },
        _ => {
            law_put_then_restore(g, w, h, a.cursor_x, a.cursor_y, Some(a.spec_current_color()));
            assert(b.history().last() == seq![(a.cursor_x, a.cursor_y, cell(g, w, h, x, y))]);
            assert(b.history().drop_last() =~= a.history());
        },
    }
}

/// Writing back the changes that `draw_line` returned gives back the canvas as
/// it was before the line was drawn: the line never visits a cell twice.
pub proof fn law_line_then_restore(
    g: Seq<Seq<Option<PixelColor>>>,
    w: usize,
    h: usize,
    x0: int,
    y0: int,
    x1: int,
    y1: int,
    c: Option<PixelColor>,
)
    requires
        shaped(g, w as int, h as int),
    ensures
        restore(
            paint_all(g, w as int, h as int, line_points(x0, y0, x1, y1), c),
            w as int,
            h as int,
            paint_log(g, w as int, h as int, line_points(x0, y0, x1, y1), c),
        ) == g,
{
    lemma_line_points_distinct(x0, y0, x1, y1);
    lemma_paint_then_restore(g, w as int, h as int, line_points(x0, y0, x1, y1), c);
}

/// Writing back the changes that `draw_rect` returned gives back the canvas as
/// it was before the rectangle was drawn.
pub proof fn law_rect_then_restore(
    g: Seq<Seq<Option<PixelColor>>>,
    w: usize,
    h: usize,
    x0: int,
    y0: int,
    x1: int,
    y1: int,
    is_filled: bool,
    c: Option<PixelColor>,
)
    requires
        shaped(g, w as int, h as int),
    ensures
        restore(
            paint_all(g, w as int, h as int, rect_points(x0, y0, x1, y1, is_filled), c),
            w as int,
            h as int,
            paint_log(g, w as int, h as int, rect_points(x0, y0, x1, y1, is_filled), c),
        ) == g,
{
    let r = span(x0, y0, x1, y1);
    lemma_rect_rows_order(r, is_filled, (r.3 - r.1 + 1) as nat);
    lemma_paint_then_restore(g, w as int, h as int, rect_points(x0, y0, x1, y1, is_filled), c);
}

/// Reading a cell after writing it gives what was written, when the cell is on
/// the canvas; every other cell reads as before.
pub proof fn law_get_after_set(
    g: Seq<Seq<Option<PixelColor>>>,
    w: int,
    h: int,
    x: int,
    y: int,
    c: Option<PixelColor>,
    qx: int,
    qy: int,
)
    requires
        shaped(g, w, h),
    ensures
        cell(put_checked(g, w, h, x, y, c), w, h, qx, qy)
            == if qx == x && qy == y && inside(w, h, x, y) { c } else { cell(g, w, h, qx, qy) },
{
}

/// Loading a project file that was made from a canvas gives back that
/// canvas's size and cells (`ProjectFile::from_canvas`, then
/// `ProjectFile::to_canvas`).
pub proof fn law_project_round_trip(c: Canvas, p: ProjectFile, c2: Canvas)
    requires
        p.width == c.width,
        p.height == c.height,
        p.rows() == c.rows(),
        c2.width == p.width,
        c2.height == p.height,
        c2.rows() == p.rows(),
    ensures
        c2.width == c.width,
        c2.height == c.height,
        c2.rows() == c.rows(),
        c.wf() ==> c2.wf(),
{
}

/// A line starts at its first end point, ends at its second, never visits a
/// cell twice, and each step moves by at most one cell along each axis.
pub proof fn law_line_shape(x0: int, y0: int, x1: int, y1: int)
    ensures
        line_points(x0, y0, x1, y1)[0] == (x0, y0),
        line_points(x0, y0, x1, y1).last() == (x1, y1),
        line_points(x0, y0, x1, y1).no_duplicates(),
        forall|i: int| 0 <= i < line_points(x0, y0, x1, y1).len() - 1
            ==> #[trigger] unit_step(line_points(x0, y0, x1, y1), i),
{
    lemma_bres_start(x0, y0, x1, y1);
    let s = (x0, y0, abs(x1 - x0) - abs(y1 - y0));
    let fuel = (abs(x1 - x0) + abs(y1 - y0)) as nat;
    lemma_bres_trace_shape(x0, y0, x1, y1, s, fuel);
    lemma_line_points_distinct(x0, y0, x1, y1);
    crate::line::lemma_bres_trace_distinct(x0, y0, x1, y1, s, fuel);
}

/// A line from `(x0, y0)` to `(x1, y1)` has one cell per step along its
/// longer axis, `max(|x1 - x0|, |y1 - y0|) + 1` cells in all: cell `k` lies
/// `k` cells from the start along that axis, so consecutive cells differ by
/// exactly one along it. Every cell lies within the segment's box and within
/// half a cell of the ideal line: `2 * |dx * j - dy * i| <= max(dx, dy)`,
/// where `i`, `j` are its distances from the start along x and y.
pub proof fn law_line_geometry(x0: int, y0: int, x1: int, y1: int)
    ensures
        line_points(x0, y0, x1, y1).len() == major_len(x0, y0, x1, y1) + 1,
        forall|k: int| 0 <= k < line_points(x0, y0, x1, y1).len() ==> {
            &&& major_progress(x0, y0, x1, y1, #[trigger] line_points(x0, y0, x1, y1)[k]) == k
            &&& 2 * abs(deviation(x0, y0, x1, y1, line_points(x0, y0, x1, y1)[k])) <= major_len(x0, y0, x1, y1)
            &&& 0 <= progress_x(x0, x1, line_points(x0, y0, x1, y1)[k].0) <= abs(x1 - x0)
            &&& 0 <= progress_x(y0, y1, line_points(x0, y0, x1, y1)[k].1) <= abs(y1 - y0)
        },
        forall|k: int| 0 <= k < line_points(x0, y0, x1, y1).len() - 1 ==>
            if abs(x1 - x0) >= abs(y1 - y0) {
                abs((#[trigger] line_points(x0, y0, x1, y1)[k + 1]).0 - line_points(x0, y0, x1, y1)[k].0) == 1
            } else {
                abs(line_points(x0, y0, x1, y1)[k + 1].1 - line_points(x0, y0, x1, y1)[k].1) == 1
            },
{
    lemma_bres_start(x0, y0, x1, y1);
    let s = (x0, y0, abs(x1 - x0) - abs(y1 - y0));
    let fuel = (abs(x1 - x0) + abs(y1 - y0)) as nat;
    assert(deviation(x0, y0, x1, y1, (x0, y0)) == 0) by (nonlinear_arith)
        requires
            progress_x(x0, x1, x0) == 0,
            progress_x(y0, y1, y0) == 0,
            deviation(x0, y0, x1, y1, (x0, y0)) == abs(x1 - x0) * progress_x(y0, y1, y0) - abs(y1 - y0) * progress_x(x0, x1, x0);
    lemma_bres_trace_close(x0, y0, x1, y1, s, fuel);
    lemma_bres_trace_shape(x0, y0, x1, y1, s, fuel);
    let t = line_points(x0, y0, x1, y1);
    assert(t[t.len() - 1] == (x1, y1));
    assert(major_progress(x0, y0, x1, y1, t[t.len() - 1]) == t.len() - 1);
    assert forall|k: int| 0 <= k < t.len() - 1 implies
        if abs(x1 - x0) >= abs(y1 - y0) {
            abs((#[trigger] t[k + 1]).0 - t[k].0) == 1
        } else {
            abs(t[k + 1].1 - t[k].1) == 1
        } by {
        assert(major_progress(x0, y0, x1, y1, t[k + 1]) == k + 1);
        assert(major_progress(x0, y0, x1, y1, t[k]) == k);
    }
}

/// The canvas after undoing the last `n` entries of `hist`, last first.
pub open spec fn undo_chain(
    g: Seq<Seq<Option<PixelColor>>>,
    w: int,
    h: int,
    hist: Seq<Seq<Change>>,
    n: nat,
) -> Seq<Seq<Option<PixelColor>>>
    decreases n,
{
    if n == 0 || hist.len() == 0 {
        g
    } else {
        undo_chain(restore(g, w, h, hist.last()), w, h, hist.drop_last(), (n - 1) as nat)
    }
}

/// An action that edits without undoing or clearing.
pub open spec fn is_edit(act: Action) -> bool {
    act != Action::Undo && act != Action::Clear
}

/// `b`'s history extends `a0`'s, and undoing the extra entries gives back
/// `a0`'s canvas.
pub open spec fn undoable_to(a0: App, b: App) -> bool {
    let (w, h) = (a0.canvas.width as int, a0.canvas.height as int);
    &&& b.canvas.wf()
    &&& b.canvas.width == a0.canvas.width
    &&& b.canvas.height == a0.canvas.height
    &&& a0.history().len() <= b.history().len()
    &&& b.history().subrange(0, a0.history().len() as int) == a0.history()
    &&& undo_chain(b.canvas.rows(), w, h, b.history(), (b.history().len() - a0.history().len()) as nat)
        == a0.canvas.rows()
}

/// Step `i` of an edit sequence is an edit action carried out.
pub open spec fn edit_ok(acts: Seq<Action>, edits: Seq<App>, i: int) -> bool {
    is_edit(acts[i]) && performed(edits[i], acts[i], edits[i + 1])
}

/// Step `j` of an undo sequence is an undo carried out.
pub open spec fn undo_ok(undos: Seq<App>, j: int) -> bool {
    performed(undos[j], Action::Undo, undos[j + 1])
}

proof fn lemma_edit_keeps_undoable(a0: App, b: App, act: Action, c: App)
    requires
        undoable_to(a0, b),
        b.wf(),
        is_edit(act),
        performed(b, act, c),
    ensures
        undoable_to(a0, c),
        c.wf(),
{
    let (w, h) = (a0.canvas.width as int, a0.canvas.height as int);
    let m = a0.history().len() as int;
    let n = (b.history().len() - m) as nat;
    let g = b.canvas.rows();
    if act == Action::Apply {
        let (x, y) = (b.cursor_x as int, b.cursor_y as int);
        let col = Some(b.spec_current_color());
        let pushed = c.history().len() == b.history().len() + 1;
        if pushed {
            let e = c.history().last();
            if b.tool == Tool::Fill {
                assert(!fill_is_noop(b));
                law_fill_then_restore(g, w, h, x, y, col, e);
                assert(c.history().drop_last() == b.history());
            } else {
                let v = if b.tool == Tool::Eraser { None } else { col };
                law_put_then_restore(g, w, h, b.cursor_x, b.cursor_y, v);
                assert(c.history().drop_last() =~= b.history());
            }
            assert(restore(c.canvas.rows(), w, h, e) == g);
            assert(undo_chain(c.canvas.rows(), w, h, c.history(), n + 1)
                == undo_chain(g, w, h, b.history(), n));
            assert(c.history().subrange(0, m) =~= b.history().subrange(0, m));
        } else {
            assert(b.tool == Tool::Fill);
            assert(c.history() == b.history());
            assert(c.canvas.rows() == g);
        }
    } else {
        assert(c.canvas == b.canvas);
        assert(c.undo_stack == b.undo_stack);
    }
}

proof fn lemma_edits_undoable(acts: Seq<Action>, edits: Seq<App>, i: int)
    requires
        edits.len() == acts.len() + 1,
        edits[0].wf(),
        forall|k: int| 0 <= k < acts.len() ==> #[trigger] edit_ok(acts, edits, k),
        0 <= i < edits.len(),
    ensures
        undoable_to(edits[0], edits[i]),
        edits[i].wf(),
    decreases i,
{
    if i == 0 {
        let a0 = edits[0];
        assert(a0.history().subrange(0, a0.history().len() as int) =~= a0.history());
    } else {
        lemma_edits_undoable(acts, edits, i - 1);
        assert(edit_ok(acts, edits, i - 1));
        lemma_edit_keeps_undoable(edits[0], edits[i - 1], acts[i - 1], edits[i]);
    }
}

proof fn lemma_undos_undoable(a0: App, undos: Seq<App>, j: int)
    requires
        undos.len() > 0,
        undoable_to(a0, undos[0]),
        forall|k: int| 0 <= k < undos.len() - 1 ==> #[trigger] undo_ok(undos, k),
        undos.len() - 1 <= undos[0].history().len() - a0.history().len(),
        0 <= j < undos.len(),
    ensures
        undoable_to(a0, undos[j]),
        undos[j].history().len() == undos[0].history().len() - j,
    decreases j,
{
    if j > 0 {
        lemma_undos_undoable(a0, undos, j - 1);
        assert(undo_ok(undos, j - 1));
        let b = undos[j - 1];
        let c = undos[j];
        let (w, h) = (a0.canvas.width as int, a0.canvas.height as int);
        let m = a0.history().len() as int;
        let n = (b.history().len() - m) as nat;
        assert(n >= 1);
        assert(undo_chain(b.canvas.rows(), w, h, b.history(), n)
            == undo_chain(c.canvas.rows(), w, h, c.history(), (n - 1) as nat));
        assert(c.history().subrange(0, m) =~= b.history().subrange(0, m));
    }
}

/// Unlimited undo: after any run of edits (tool applications, cursor moves,
/// tool and colour choices) in which `k` entries were recorded, `k` undos give
/// back the canvas and the history as they were before the run.
pub proof fn law_undos_revert_edits(acts: Seq<Action>, edits: Seq<App>, undos: Seq<App>)
    requires
        edits.len() == acts.len() + 1,
        edits[0].wf(),
        forall|i: int| 0 <= i < acts.len() ==> #[trigger] edit_ok(acts, edits, i),
        undos.len() > 0,
        undos[0] == edits.last(),
        forall|j: int| 0 <= j < undos.len() - 1 ==> #[trigger] undo_ok(undos, j),
        undos.len() - 1 == edits.last().history().len() - edits[0].history().len(),
    ensures
        undos.last().canvas.rows() == edits[0].canvas.rows(),
        undos.last().history() == edits[0].history(),
{
    let a0 = edits[0];
    lemma_edits_undoable(acts, edits, edits.len() - 1);
    lemma_undos_undoable(a0, undos, undos.len() - 1);
    let z = undos.last();
    assert(z.history().len() == a0.history().len());
    assert(z.history().subrange(0, a0.history().len() as int) =~= z.history());
}

/// The cells of a rectangle, whatever order its corners come in: a cell is
/// drawn exactly when it lies between the two corners in both coordinates and
/// the rectangle is filled or the cell is on one of the four sides. So the
/// four corners are always drawn, every drawn cell lies between the corner
/// rows and columns, and no cell is drawn twice.
pub proof fn law_rect_cells(x0: int, y0: int, x1: int, y1: int, is_filled: bool, p: (int, int))
    ensures
        rect_points(x0, y0, x1, y1, is_filled).contains(p) <==> {
            &&& (x0 <= p.0 <= x1 || x1 <= p.0 <= x0)
            &&& (y0 <= p.1 <= y1 || y1 <= p.1 <= y0)
            &&& (is_filled || p.0 == x0 || p.0 == x1 || p.1 == y0 || p.1 == y1)
        },
        rect_points(x0, y0, x1, y1, is_filled).contains((x0, y0)),
        rect_points(x0, y0, x1, y1, is_filled).contains((x1, y1)),
        rect_points(x0, y0, x1, y1, is_filled).contains((x0, y1)),
        rect_points(x0, y0, x1, y1, is_filled).contains((x1, y0)),
        rect_points(x0, y0, x1, y1, is_filled).no_duplicates(),
{
    let r = span(x0, y0, x1, y1);
    let rows = (r.3 - r.1 + 1) as nat;
    lemma_rect_rows_members(r, is_filled, rows, p);
    lemma_rect_rows_members(r, is_filled, rows, (x0, y0));
    lemma_rect_rows_members(r, is_filled, rows, (x1, y1));
    lemma_rect_rows_members(r, is_filled, rows, (x0, y1));
    lemma_rect_rows_members(r, is_filled, rows, (x1, y0));
    lemma_rect_rows_order(r, is_filled, rows);
}

/// The character cell that shows `top` above `bottom`: a space on the shared
/// background when they agree, else an upper half block in `top` on `bottom`.
pub open spec fn half_block(top: PixelColor, bottom: PixelColor) -> Seq<char> {
    if top == bottom {
        bg_escape(top) + " "@
    } else {
        fg_escape(top) + bg_escape(bottom) + seq!['\u{2580}']
    }
}

/// The cells of text line `l` of the export, left to right: column `x` shows
/// pixel `(x, 2l)` above pixel `(x, 2l + 1)`, empty pixels and the missing row
/// below an odd last row showing `bg`.
pub open spec fn export_line(g: Seq<Seq<Option<PixelColor>>>, w: int, h: int, bg: PixelColor, l: int) -> Seq<Seq<char>> {
    Seq::new(w as nat, |x: int| half_block(
        match g[2 * l][x] { Some(p) => p, None => bg },
        if 2 * l + 1 < h { match g[2 * l + 1][x] { Some(p) => p, None => bg } } else { bg },
    ))
}

proof fn lemma_line_text_cells(g: Seq<Seq<Option<PixelColor>>>, w: int, h: int, bg: PixelColor, l: int, n: nat)
    requires
        n <= w,
    ensures
        line_text(g, h, bg, l, n) == export_line(g, w, h, bg, l).take(n as int).flatten(),
    decreases n,
{
    let cells = export_line(g, w, h, bg, l);
    if n == 0 {
        assert(cells.take(0) =~= Seq::<Seq<char>>::empty());
    } else {
        lemma_line_text_cells(g, w, h, bg, l, (n - 1) as nat);
        assert(cells.take(n as int) =~= cells.take(n - 1).push(cells[n - 1]));
        cells.take(n - 1).lemma_flatten_push(cells[n - 1]);
    }
}

/// The lines of the export, each with its reset and newline.
pub open spec fn export_lines(g: Seq<Seq<Option<PixelColor>>>, w: int, h: int, bg: PixelColor) -> Seq<Seq<char>> {
    Seq::new(((h + 1) / 2) as nat, |l: int| export_line(g, w, h, bg, l).flatten() + "\x1b[0m\n"@)
}

proof fn lemma_ansi_text_lines(g: Seq<Seq<Option<PixelColor>>>, w: int, h: int, bg: PixelColor, n: nat)
    requires
        w >= 0,
        n <= (h + 1) / 2,
    ensures
        ansi_text(g, w, h, bg, n) == export_lines(g, w, h, bg).take(n as int).flatten(),
    decreases n,
{
    let lines = export_lines(g, w, h, bg);
    if n == 0 {
        assert(lines.take(0) =~= Seq::<Seq<char>>::empty());
    } else {
        lemma_ansi_text_lines(g, w, h, bg, (n - 1) as nat);
        lemma_line_text_cells(g, w, h, bg, n - 1, w as nat);
        assert(export_line(g, w, h, bg, n - 1).take(w) =~= export_line(g, w, h, bg, n - 1));
        assert(lines.take(n as int) =~= lines.take(n - 1).push(lines[n - 1]));
        lines.take(n - 1).lemma_flatten_push(lines[n - 1]);
    }
}

/// The ANSI export of a `w` by `h` canvas is `ceil(h / 2)` text lines, each
/// `w` half-block cells and a reset: the cell at line `l`, column `x` shows
/// pixel `(x, 2l)` in its upper half and pixel `(x, 2l + 1)` in its lower
/// half (the background below an odd last row), empty pixels in `bg`.
pub proof fn law_ansi_layout(g: Seq<Seq<Option<PixelColor>>>, w: int, h: int, bg: PixelColor)
    requires
        shaped(g, w, h),
        w >= 0,
    ensures
        ansi_export(g, w, h, bg) == export_lines(g, w, h, bg).flatten(),
        export_lines(g, w, h, bg).len() == (h + 1) / 2,
        forall|l: int, x: int| 0 <= l < (h + 1) / 2 && 0 <= x < w && 2 * l + 1 < h ==>
            #[trigger] export_line(g, w, h, bg, l)[x]
                == half_block(shown(g[2 * l][x], bg), shown(g[2 * l + 1][x], bg)),
{
    let lines = export_lines(g, w, h, bg);
    lemma_ansi_text_lines(g, w, h, bg, ((h + 1) / 2) as nat);
    assert(lines.take((h + 1) / 2) =~= lines);
}

/// The grey of the transparency checkerboard at `(x, y)`: dark where `x + y`
/// is even, light where it is odd.
pub open spec fn board_grey(x: int, y: int) -> PixelColor {
    if (x + y) % 2 == 0 { rgb(30, 30, 30) } else { rgb(50, 50, 50) }
}

/// The canvas view in an area of `max_lines` text lines of `max_cols`
/// characters shows `min(ceil(h / 2), max_lines)` lines of
/// `min(w, ceil(max_cols / 2))` cells. The cell at line `l`, column `x` shows
/// pixel `(x, 2l)` above pixel `(x, 2l + 1)`: a painted pixel in its colour,
/// an empty one (or the row below an odd last row) in the checkerboard grey.
/// The cell holding the cursor is all cursor green, so the cursor is seen
/// wherever it is on the canvas and inside the view.
pub proof fn law_canvas_view(a: App, max_lines: int, max_cols: int)
    requires
        a.wf(),
        max_lines >= 0,
        max_cols >= 0,
    ensures
        canvas_view(a, max_lines, max_cols).len()
            == if (a.canvas.height + 1) / 2 <= max_lines { (a.canvas.height + 1) / 2 } else { max_lines },
        forall|l: int| 0 <= l < canvas_view(a, max_lines, max_cols).len() ==>
            (#[trigger] canvas_view(a, max_lines, max_cols)[l]).len()
                == if a.canvas.width <= (max_cols + 1) / 2 { a.canvas.width as int } else { (max_cols + 1) / 2 },
        forall|l: int, x: int|
            0 <= l < canvas_view(a, max_lines, max_cols).len() && 0 <= x < canvas_view(a, max_lines, max_cols)[l].len() ==> {
                let v = #[trigger] canvas_view(a, max_lines, max_cols)[l][x];
                if x == a.cursor_x && (a.cursor_y == 2 * l || (a.cursor_y == 2 * l + 1 && 2 * l + 1 < a.canvas.height)) {
                    v == (rgb(0, 255, 0), rgb(0, 255, 0))
                } else {
                    &&& v.0 == match a.canvas.rows()[2 * l][x] { Some(p) => p, None => board_grey(x, 2 * l) }
                    &&& v.1 == if 2 * l + 1 < a.canvas.height {
                        match a.canvas.rows()[2 * l + 1][x] { Some(p) => p, None => board_grey(x, 2 * l + 1) }
                    } else {
                        board_grey(x, 2 * l + 1)
                    }
                }
            },
        inside(a.canvas.width as int, a.canvas.height as int, a.cursor_x as int, a.cursor_y as int)
            && a.cursor_y / 2 < max_lines && a.cursor_x < (max_cols + 1) / 2
            ==> canvas_view(a, max_lines, max_cols)[a.cursor_y as int / 2][a.cursor_x as int] == (rgb(0, 255, 0), rgb(0, 255, 0)),
{
    let v = canvas_view(a, max_lines, max_cols);
    let (w, h) = (a.canvas.width as int, a.canvas.height as int);
    if inside(w, h, a.cursor_x as int, a.cursor_y as int) && a.cursor_y / 2 < max_lines && a.cursor_x < (max_cols + 1) / 2 {
        let l = a.cursor_y / 2;
        assert(a.cursor_y == 2 * l || a.cursor_y == 2 * l + 1);
        assert(0 <= l < v.len());
    }
}

/// Each arrow key does what its letter key does (Left and `h`, Right and `l`,
/// Up and `k`, Down and `j`), and so do Enter and Space; `u` and Ctrl-Z both
/// undo, while `z` alone does nothing; `q` quits with or without Ctrl, `c`
/// quits with Ctrl and clears without it.
pub proof fn law_key_pairs(ctrl: bool)
    ensures
        spec_action_for(Key::Left, ctrl) == spec_action_for(Key::Char('h'), ctrl),
        spec_action_for(Key::Left, ctrl) == Action::MoveLeft,
        spec_action_for(Key::Right, ctrl) == spec_action_for(Key::Char('l'), ctrl),
        spec_action_for(Key::Right, ctrl) == Action::MoveRight,
        spec_action_for(Key::Up, ctrl) == spec_action_for(Key::Char('k'), ctrl),
        spec_action_for(Key::Up, ctrl) == Action::MoveUp,
        spec_action_for(Key::Down, ctrl) == spec_action_for(Key::Char('j'), ctrl),
        spec_action_for(Key::Down, ctrl) == Action::MoveDown,
        spec_action_for(Key::Enter, ctrl) == spec_action_for(Key::Char(' '), ctrl),
        spec_action_for(Key::Enter, ctrl) == Action::Apply,
        spec_action_for(Key::Char('u'), ctrl) == Action::Undo,
        spec_action_for(Key::Char('z'), true) == Action::Undo,
        spec_action_for(Key::Char('z'), false) == Action::Ignore,
        spec_action_for(Key::Char('q'), ctrl) == Action::Quit,
        spec_action_for(Key::Char('c'), true) == Action::Quit,
        spec_action_for(Key::Char('c'), false) == Action::Clear,
        spec_action_for(Key::Char('p'), ctrl) == Action::SelectTool(Tool::Pencil),
        spec_action_for(Key::Char('e'), ctrl) == Action::SelectTool(Tool::Eraser),
        spec_action_for(Key::Char('f'), ctrl) == Action::SelectTool(Tool::Fill),
        spec_action_for(Key::Char(']'), ctrl) == Action::NextColor,
        spec_action_for(Key::Char('['), ctrl) == Action::PrevColor,
{
}

/// The movement keys move the cursor by one cell in their direction, stopping
/// at the canvas edges, and change nothing else.
pub proof fn law_movement_keys(a: App, key: Key, ctrl: bool, b: App)
    requires
        a.wf(),
        performed(a, spec_action_for(key, ctrl), b),
    ensures
        key == Key::Left || key == Key::Char('h') ==>
            b.cursor_x == (if a.cursor_x > 0 { a.cursor_x - 1 } else { 0 }) && b.cursor_y == a.cursor_y,
        key == Key::Right || key == Key::Char('l') ==>
            b.cursor_x == (if a.cursor_x + 1 < a.canvas.width { a.cursor_x + 1 } else { a.cursor_x as int }) && b.cursor_y == a.cursor_y,
        key == Key::Up || key == Key::Char('k') ==>
            b.cursor_y == (if a.cursor_y > 0 { a.cursor_y - 1 } else { 0 }) && b.cursor_x == a.cursor_x,
        key == Key::Down || key == Key::Char('j') ==>
            b.cursor_y == (if a.cursor_y + 1 < a.canvas.height { a.cursor_y + 1 } else { a.cursor_y as int }) && b.cursor_x == a.cursor_x,
        (key == Key::Left || key == Key::Char('h') || key == Key::Right || key == Key::Char('l')
            || key == Key::Up || key == Key::Char('k') || key == Key::Down || key == Key::Char('j')) ==> {
            &&& b.canvas == a.canvas
            &&& b.undo_stack == a.undo_stack
            &&& b.palette == a.palette
            &&& b.color_idx == a.color_idx
            &&& b.tool == a.tool
        },
{
}

/// `]` selects the next palette colour and `[` the previous one, staying on
/// the last or first colour at the ends; nothing else changes.
pub proof fn law_colour_keys(a: App, key: Key, ctrl: bool, b: App)
    requires
        a.wf(),
        performed(a, spec_action_for(key, ctrl), b),
    ensures
        key == Key::Char(']') ==>
            b.color_idx == (if a.color_idx + 1 < a.palette@.len() { a.color_idx + 1 } else { a.color_idx as int }),
        key == Key::Char('[') ==>
            b.color_idx == (if a.color_idx > 0 { a.color_idx - 1 } else { a.color_idx as int }),
        key == Key::Char(']') && a.color_idx + 1 < a.palette@.len() ==> b.spec_current_color() == a.palette@[a.color_idx + 1],
        (key == Key::Char(']') || key == Key::Char('[')) ==> {
            &&& b.canvas == a.canvas
            &&& b.undo_stack == a.undo_stack
            &&& b.palette == a.palette
            &&& b.cursor_x == a.cursor_x
            &&& b.cursor_y == a.cursor_y
            &&& b.tool == a.tool
        },
{
}

/// Stepping to the next colour and back, or to the previous colour and back,
/// returns to the colour one started from, away from the palette's ends.
pub proof fn law_colour_round_trip(a: App, b: App, c: App)
    requires
        a.wf(),
    ensures
        performed(a, Action::NextColor, b) && performed(b, Action::PrevColor, c) && a.color_idx + 1 < a.palette@.len()
            ==> c.color_idx == a.color_idx,
        performed(a, Action::PrevColor, b) && performed(b, Action::NextColor, c) && a.color_idx > 0
            ==> c.color_idx == a.color_idx,
{
}

proof fn lemma_palette_grid_from(p: Seq<PixelColor>, idx: int, cols: int, start: int)
    requires
        cols > 0,
        0 <= start <= p.len(),
    ensures
        palette_grid(p, idx, cols, start).flatten()
            == Seq::new((p.len() - start) as nat, |k: int| (p[start + k], start + k == idx)),
        forall|r: int| 0 <= r < palette_grid(p, idx, cols, start).len() ==>
            0 < (#[trigger] palette_grid(p, idx, cols, start)[r]).len() <= cols
            && (r < palette_grid(p, idx, cols, start).len() - 1 ==> palette_grid(p, idx, cols, start)[r].len() == cols),
    decreases p.len() - start,
{
    let grid = palette_grid(p, idx, cols, start);
    let full = Seq::new((p.len() - start) as nat, |k: int| (p[start + k], start + k == idx));
    if start == p.len() {
        assert(grid =~= Seq::<Seq<(PixelColor, bool)>>::empty());
        assert(full =~= Seq::<(PixelColor, bool)>::empty());
    } else {
        let n = min_nat(cols, p.len() - start) as int;
        let row = palette_row(p, idx, start, n);
        let next = if start + cols <= p.len() { start + cols } else { p.len() as int };
        lemma_palette_grid_from(p, idx, cols, next);
        let rest = palette_grid(p, idx, cols, start + cols);
        if start + cols > p.len() {
            assert(rest =~= Seq::<Seq<(PixelColor, bool)>>::empty());
            assert(palette_grid(p, idx, cols, next) =~= Seq::<Seq<(PixelColor, bool)>>::empty());
        }
        assert(rest == palette_grid(p, idx, cols, next));
        assert(grid == seq![row] + rest);
        vstd::seq_lib::lemma_flatten_concat(seq![row], rest);
        seq![row].lemma_flatten_one_element();
        assert(full =~= row + rest.flatten());
        assert forall|r: int| 0 <= r < grid.len() implies
            0 < (#[trigger] grid[r]).len() <= cols && (r < grid.len() - 1 ==> grid[r].len() == cols) by {
            if r > 0 {
                assert(grid[r] == rest[r - 1]);
            } else if grid.len() > 1 {
                assert(rest.len() > 0);
                assert(start + cols <= p.len());
            }
        }
    }
}

/// The palette grid lists every palette colour once, in palette order, row
/// after row, with exactly the selected one marked; every row but the last
/// has `cols` colours and the last has between one and `cols`.
pub proof fn law_palette_grid(p: Seq<PixelColor>, idx: int, cols: int)
    requires
        cols > 0,
    ensures
        palette_grid(p, idx, cols, 0).flatten() == Seq::new(p.len(), |k: int| (p[k], k == idx)),
        forall|r: int| 0 <= r < palette_grid(p, idx, cols, 0).len() ==>
            0 < (#[trigger] palette_grid(p, idx, cols, 0)[r]).len() <= cols
            && (r < palette_grid(p, idx, cols, 0).len() - 1 ==> palette_grid(p, idx, cols, 0)[r].len() == cols),
{
    lemma_palette_grid_from(p, idx, cols, 0);
    assert(Seq::new((p.len() - 0) as nat, |k: int| (p[0 + k], 0 + k == idx)) =~= Seq::new(p.len(), |k: int| (p[k], k == idx)));
}

proof fn lemma_fill_run_extends(
    w: int,
    h: int,
    t: Option<PixelColor>,
    c: Option<PixelColor>,
    s: (Seq<Seq<Option<PixelColor>>>, Seq<(int, int)>, Seq<Change>),
    fuel: nat,
)
    ensures
        fill_run(w, h, t, c, s, fuel).len() >= s.2.len(),
        fill_run(w, h, t, c, s, fuel).subrange(0, s.2.len() as int) == s.2,
    decreases fuel,
{
    if !(s.1.len() == 0 || fuel == 0) {
        let s2 = fill_turn(w, h, t, c, s);
        lemma_fill_run_extends(w, h, t, c, s2, (fuel - 1) as nat);
        let r = fill_run(w, h, t, c, s2, (fuel - 1) as nat);
        assert(s2.2.subrange(0, s.2.len() as int) =~= s.2);
        assert(r.subrange(0, s.2.len() as int) =~= s2.2.subrange(0, s.2.len() as int));
    } else {
        assert(s.2.subrange(0, s.2.len() as int) =~= s.2);
    }
}

/// A fill that changes something records the start cell first, with the
/// colour it had.
pub proof fn law_fill_starts_at_start(g: Seq<Seq<Option<PixelColor>>>, w: int, h: int, sx: int, sy: int, c: Option<PixelColor>)
    requires
        shaped(g, w, h),
        inside(w, h, sx, sy),
        sx <= usize::MAX,
        sy <= usize::MAX,
        g[sy][sx] != c,
    ensures
        fill_order(g, w, h, sx, sy, c).len() > 0,
        fill_order(g, w, h, sx, sy, c)[0] == (sx as usize, sy as usize, g[sy][sx]),
{
    let t = g[sy][sx];
    let s0 = (g, seq![(sx, sy)], Seq::<Change>::empty());
    let fuel = (5 * crate::grid::grid_count(g, t) + 1) as nat;
    let s1 = fill_turn(w, h, t, c, s0);
    assert(s0.1.last() == (sx, sy));
    assert(s1.2 == seq![(sx as usize, sy as usize, t)]);
    assert(fill_run(w, h, t, c, s0, fuel) == fill_run(w, h, t, c, s1, (fuel - 1) as nat));
    lemma_fill_run_extends(w, h, t, c, s1, (fuel - 1) as nat);
    let r = fill_run(w, h, t, c, s1, (fuel - 1) as nat);
    assert(r.subrange(0, 1)[0] == r[0]);
}

} // verus!

//! The editor: canvas, cursor, palette, tool and undo history, and how each
//! key press changes them.

use vstd::prelude::*;
use crate::color::{PixelColor, default_palette, spec_default_palette};
use crate::canvas::Canvas;
use crate::grid::{Change, inside, cell, put_checked, restore};
use crate::fill::{filled, fill_log, fill_order};

verus! {

/// Drawing tools.
#[derive(Debug, PartialEq, Eq, Clone, Copy, Structural)]
pub enum Tool {
    Pencil,
    Eraser,
    Fill,
    Line,
    Rect,
}

/// The name shown for a tool.
pub open spec fn tool_name(t: Tool) -> Seq<char> {
    match t {
        Tool::Pencil => "Pencil"@,
        Tool::Eraser => "Eraser"@,
        Tool::Fill => "Fill"@,
        Tool::Line => "Line"@,
        Tool::Rect => "Rect"@,
    }
}

impl Tool {
    pub fn name(&self) -> (s: &'static str)
        ensures
            s@ == tool_name(*self),
    {
        match self {
            Tool::Pencil => "Pencil",
            Tool::Eraser => "Eraser",
            Tool::Fill => "Fill",
            Tool::Line => "Line",
            Tool::Rect => "Rect",
        }
    }
}

/// The editor state.
pub struct App {
    pub canvas: Canvas,
    pub cursor_x: usize,
    pub cursor_y: usize,
    pub palette: Vec<PixelColor>,
    pub color_idx: usize,
    pub tool: Tool,
    pub undo_stack: Vec<Vec<Change>>,
}

impl App {
    /// The undo history, oldest entry first.
    pub open spec fn history(&self) -> Seq<Seq<Change>> {
        self.undo_stack@.map_values(|v: Vec<Change>| v@)
    }

    /// The canvas is well formed and the selected colour is in the palette.
    pub open spec fn wf(&self) -> bool {
        &&& self.canvas.wf()
        &&& self.color_idx < self.palette@.len()
    }

    /// The selected colour.
    pub open spec fn spec_current_color(&self) -> PixelColor {
        self.palette@[self.color_idx as int]
    }

    pub fn new(w: usize, h: usize) -> (app: Self)
        ensures
            app.wf(),
            app.canvas.width == w,
            app.canvas.height == h,
            forall|x: int, y: int| inside(w as int, h as int, x, y) ==> app.canvas.rows()[y][x] is None,
            app.cursor_x == w / 2,
            app.cursor_y == h / 2,
            app.palette@ == spec_default_palette(),
            app.color_idx == 10,
            app.tool == Tool::Pencil,
            app.history().len() == 0,
    {
        let app = App {
            canvas: Canvas::new(w, h),
            cursor_x: w / 2,
            cursor_y: h / 2,
            palette: default_palette(),
            color_idx: 10,  // bright green
            tool: Tool::Pencil,
            undo_stack: Vec::new(),
        };
        assert(app.history() =~= Seq::empty());
        app
    }

    pub fn current_color(&self) -> (c: PixelColor)
        requires
            self.wf(),
        ensures
            c == self.spec_current_color(),
    {
        self.palette[self.color_idx]
    }
}

/// `b` has the cursor, palette, selected colour, tool and canvas size of `a`.
pub open spec fn same_settings(a: App, b: App) -> bool {
    &&& b.cursor_x == a.cursor_x
    &&& b.cursor_y == a.cursor_y
    &&& b.palette@ == a.palette@
    &&& b.color_idx == a.color_idx
    &&& b.tool == a.tool
    &&& b.canvas.width == a.canvas.width
    &&& b.canvas.height == a.canvas.height
}

/// `b` is `a` after writing `c` under the cursor and recording the one change.
pub open spec fn stroked(a: App, b: App, c: Option<PixelColor>) -> bool {
    let (w, h, g) = (a.canvas.width as int, a.canvas.height as int, a.canvas.rows());
    let (x, y) = (a.cursor_x as int, a.cursor_y as int);
    &&& b.canvas.rows() == put_checked(g, w, h, x, y, c)
    &&& b.history() == a.history().push(seq![(a.cursor_x, a.cursor_y, cell(g, w, h, x, y))])
}

/// `b` is `a` after a flood fill with the selected colour from the cursor; a
/// fill that changes nothing records nothing.
pub open spec fn fill_applied(a: App, b: App) -> bool {
    let (w, h, g) = (a.canvas.width as int, a.canvas.height as int, a.canvas.rows());
    let (x, y) = (a.cursor_x as int, a.cursor_y as int);
    let c = Some(a.spec_current_color());
    if !inside(w, h, x, y) || g[y][x] == c {
        &&& b.canvas.rows() == g
        &&& b.history() == a.history()
    } else {
        &&& b.canvas.rows() == filled(g, w, h, x, y, c)
        &&& b.history().len() == a.history().len() + 1
        &&& b.history().drop_last() == a.history()
        &&& b.history().last() == fill_order(g, w, h, x, y, c)
        &&& fill_log(g, w, h, x, y, b.history().last())
    }
}

/// `b` is `a` after applying the current tool at the cursor.
pub open spec fn tool_applied(a: App, b: App) -> bool {
    &&& b.wf()
    &&& same_settings(a, b)
    &&& match a.tool {
        Tool::Eraser => stroked(a, b, None),
        Tool::Fill => fill_applied(a, b),
        _ => stroked(a, b, Some(a.spec_current_color())),
    }
}

/// `b` is `a` after undoing the last recorded action, if there is one: the
/// old values of its changes are written back, first to last.
pub open spec fn undone(a: App, b: App) -> bool {
    let (w, h, g) = (a.canvas.width as int, a.canvas.height as int, a.canvas.rows());
    &&& b.wf()
    &&& same_settings(a, b)
    &&& if a.history().len() == 0 {
        &&& b.canvas.rows() == g
        &&& b.history() == a.history()
    } else {
        &&& b.canvas.rows() == restore(g, w, h, a.history().last())
        &&& b.history() == a.history().drop_last()
    }
}

impl App {
    pub fn apply_tool(&mut self)
        requires
            old(self).wf(),
        ensures
            tool_applied(*old(self), *final(self)),
    {
        let ghost a = *self;
        match self.tool {
            Tool::Pencil => {
                let prev = self.canvas.get(self.cursor_x, self.cursor_y);
                let c = self.current_color();
                self.canvas.set(self.cursor_x, self.cursor_y, Some(c));
                self.record_one(prev);
            }
            Tool::Eraser => {
                let prev = self.canvas.get(self.cursor_x, self.cursor_y);
                self.canvas.set(self.cursor_x, self.cursor_y, None);
                self.record_one(prev);
            }
            Tool::Fill => {
                let c = self.current_color();
                let changes = self.canvas.flood_fill(self.cursor_x, self.cursor_y, Some(c));
                if changes.len() > 0 {
                    let ghost h0 = self.history();
                    self.undo_stack.push(changes);
                    proof {
                        assert(self.history() =~= h0.push(changes@));
                        assert(self.history().drop_last() =~= h0);
                    }
                } else {
                    proof {
                        let (w, h, g) = (a.canvas.width as int, a.canvas.height as int, a.canvas.rows());
                        let (x, y) = (a.cursor_x as int, a.cursor_y as int);
                        if inside(w, h, x, y) && g[y][x] != Some(c) {
                            crate::fill::lemma_reaches_start(g, w, h, x, y);
                            assert(!crate::grid::change_positions(changes@).contains((x, y)));
                        }
                    }
                }
            }
            Tool::Line | Tool::Rect => {
                let prev = self.canvas.get(self.cursor_x, self.cursor_y);
                let c = self.current_color();
                self.canvas.set(self.cursor_x, self.cursor_y, Some(c));
                self.record_one(prev);
            }
        }
    }

    /// Push a one-change entry for the cursor position onto the history.
    fn record_one(&mut self, prev: Option<PixelColor>)
        ensures
            final(self).history() == old(self).history().push(seq![(old(self).cursor_x, old(self).cursor_y, prev)]),
            final(self).canvas == old(self).canvas,
            final(self).cursor_x == old(self).cursor_x,
            final(self).cursor_y == old(self).cursor_y,
            final(self).palette == old(self).palette,
            final(self).color_idx == old(self).color_idx,
            final(self).tool == old(self).tool,
    {
        let ghost h0 = self.history();
        let mut entry: Vec<Change> = Vec::new();
        entry.push((self.cursor_x, self.cursor_y, prev));
        self.undo_stack.push(entry);
        proof {
            assert(self.history() =~= h0.push(seq![(self.cursor_x, self.cursor_y, prev)]));
        }
    }

    pub fn undo(&mut self)
        requires
            old(self).wf(),
        ensures
            undone(*old(self), *final(self)),
    {
        let ghost h0 = self.history();
        let ghost g0 = self.canvas.rows();
        let ghost w = self.canvas.width as int;
        let ghost h = self.canvas.height as int;
        if let Some(changes) = self.undo_stack.pop() {
            proof {
                assert(self.history() =~= h0.drop_last());
                assert(changes@ == h0.last());
            }
            let ghost a1 = *self;
            let mut i: usize = 0;
            while i < changes.len()
                invariant
                    self.undo_stack == a1.undo_stack,
                    self.cursor_x == a1.cursor_x,
                    self.cursor_y == a1.cursor_y,
                    self.palette == a1.palette,
                    self.color_idx == a1.color_idx,
                    self.tool == a1.tool,
                    self.canvas.wf(),
                    self.canvas.width == w,
                    self.canvas.height == h,
                    i <= changes@.len(),
                    self.canvas.rows() == restore(g0, w, h, changes@.take(i as int)),
                decreases changes@.len() - i,
            {
                let (x, y, prev) = changes[i];
                self.canvas.set(x, y, prev);
                proof {
                    assert(changes@.take(i + 1).drop_last() =~= changes@.take(i as int));
                }
                i += 1;
            }
            proof {
                assert(changes@.take(changes@.len() as int) =~= changes@);
            }
        }
    }
}

/// A key as the editor sees it.
#[derive(Debug, PartialEq, Eq, Clone, Copy, Structural)]
pub enum Key {
    Char(char),
    Left,
    Right,
    Up,
    Down,
    Enter,
    Other,
}

/// What a key press asks the editor to do.
#[derive(Debug, PartialEq, Eq, Clone, Copy, Structural)]
pub enum Action {
    Quit,
    MoveLeft,
    MoveRight,
    MoveUp,
    MoveDown,
    Apply,
    Undo,
    SelectTool(Tool),
    PrevColor,
    NextColor,
    Clear,
    Ignore,
}

/// The key bindings: `q` or Ctrl-C quits, `h`/`j`/`k`/`l` and the arrows move,
/// Space or Enter applies the tool, `u` or Ctrl-Z undoes, `p`/`e`/`f` pick a
/// tool, `[`/`]` step through the palette, `c` clears the canvas.
pub open spec fn spec_action_for(key: Key, ctrl: bool) -> Action {
    match key {
        Key::Char('q') => Action::Quit,
        Key::Char('c') if ctrl => Action::Quit,
        Key::Char('h') | Key::Left => Action::MoveLeft,
        Key::Char('l') | Key::Right => Action::MoveRight,
        Key::Char('k') | Key::Up => Action::MoveUp,
        Key::Char('j') | Key::Down => Action::MoveDown,
        Key::Char(' ') | Key::Enter => Action::Apply,
        Key::Char('z') if ctrl => Action::Undo,
        Key::Char('u') => Action::Undo,
        Key::Char('p') => Action::SelectTool(Tool::Pencil),
        Key::Char('e') => Action::SelectTool(Tool::Eraser),
        Key::Char('f') => Action::SelectTool(Tool::Fill),
        Key::Char('[') => Action::PrevColor,
        Key::Char(']') => Action::NextColor,
        Key::Char('c') => Action::Clear,
        _ => Action::Ignore,
    }
}

pub fn action_for(key: Key, ctrl: bool) -> (a: Action)
    ensures
        a == spec_action_for(key, ctrl),
{
    match key {
        Key::Char('q') => Action::Quit,
        Key::Char('c') if ctrl => Action::Quit,
        Key::Char('h') | Key::Left => Action::MoveLeft,
        Key::Char('l') | Key::Right => Action::MoveRight,
        Key::Char('k') | Key::Up => Action::MoveUp,
        Key::Char('j') | Key::Down => Action::MoveDown,
        Key::Char(' ') | Key::Enter => Action::Apply,
        Key::Char('z') if ctrl => Action::Undo,
        Key::Char('u') => Action::Undo,
        Key::Char('p') => Action::SelectTool(Tool::Pencil),
        Key::Char('e') => Action::SelectTool(Tool::Eraser),
        Key::Char('f') => Action::SelectTool(Tool::Fill),
        Key::Char('[') => Action::PrevColor,
        Key::Char(']') => Action::NextColor,
        Key::Char('c') => Action::Clear,
        _ => Action::Ignore,
    }
}

/// `b` is `a` with the cursor at `(x, y)`.
pub open spec fn cursor_moved(a: App, b: App, x: int, y: int) -> bool {
    &&& b.cursor_x == x
    &&& b.cursor_y == y
    &&& b.canvas == a.canvas
    &&& b.palette == a.palette
    &&& b.color_idx == a.color_idx
    &&& b.tool == a.tool
    &&& b.undo_stack == a.undo_stack
}

/// `b` is `a` with the selected colour `i` and the tool `t`.
pub open spec fn selected(a: App, b: App, i: int, t: Tool) -> bool {
    &&& b.cursor_x == a.cursor_x
    &&& b.cursor_y == a.cursor_y
    &&& b.canvas == a.canvas
    &&& b.palette == a.palette
    &&& b.color_idx == i
    &&& b.tool == t
    &&& b.undo_stack == a.undo_stack
}

/// `b` is `a` after the action `act`.
pub open spec fn performed(a: App, act: Action, b: App) -> bool {
    let (w, h) = (a.canvas.width as int, a.canvas.height as int);
    let (x, y) = (a.cursor_x as int, a.cursor_y as int);
    match act {
        Action::Quit => cursor_moved(a, b, x, y),
        Action::Ignore => cursor_moved(a, b, x, y),
        Action::MoveLeft => cursor_moved(a, b, if x > 0 { x - 1 } else { 0 }, y),
        Action::MoveRight => cursor_moved(a, b, if x + 1 < w { x + 1 } else { x }, y),
        Action::MoveUp => cursor_moved(a, b, x, if y > 0 { y - 1 } else { 0 }),
        Action::MoveDown => cursor_moved(a, b, x, if y + 1 < h { y + 1 } else { y }),
        Action::Apply => tool_applied(a, b),
        Action::Undo => undone(a, b),
        Action::SelectTool(t) => selected(a, b, a.color_idx as int, t),
        Action::PrevColor => selected(a, b, if a.color_idx > 0 { a.color_idx - 1 } else { a.color_idx as int }, a.tool),
        Action::NextColor => selected(
            a,
            b,
            if a.color_idx + 1 < a.palette@.len() { a.color_idx + 1 } else { a.color_idx as int },
            a.tool,
        ),
        Action::Clear => {
            &&& same_settings(a, b)
            &&& b.canvas.wf()
            &&& forall|cx: int, cy: int| inside(w, h, cx, cy) ==> b.canvas.rows()[cy][cx] is None
            &&& b.history().len() == 0
        },
    }
}

impl App {
    /// Carry out an action; returns whether the editor should quit.
    pub fn perform(&mut self, act: Action) -> (quit: bool)
        requires
            old(self).wf(),
        ensures
            quit == (act == Action::Quit),
            performed(*old(self), act, *final(self)),
            final(self).wf(),
            inside(old(self).canvas.width as int, old(self).canvas.height as int, old(self).cursor_x as int, old(self).cursor_y as int)
                ==> inside(final(self).canvas.width as int, final(self).canvas.height as int, final(self).cursor_x as int, final(self).cursor_y as int),
    {
        match act {
            Action::Quit => {
                return true;
            },
            Action::MoveLeft => {
                self.cursor_x = if self.cursor_x > 0 { self.cursor_x - 1 } else { 0 };
            },
            Action::MoveRight => {
                if self.cursor_x < self.canvas.width && self.canvas.width - self.cursor_x > 1 {
                    self.cursor_x += 1;
                }
            },
            Action::MoveUp => {
                self.cursor_y = if self.cursor_y > 0 { self.cursor_y - 1 } else { 0 };
            },
            Action::MoveDown => {
                if self.cursor_y < self.canvas.height && self.canvas.height - self.cursor_y > 1 {
                    self.cursor_y += 1;
                }
            },
            Action::Apply => {
                self.apply_tool();
            },
            Action::Undo => {
                self.undo();
            },
            Action::SelectTool(t) => {
                self.tool = t;
            },
            Action::PrevColor => {
                if self.color_idx > 0 {
                    self.color_idx -= 1;
                }
            },
            Action::NextColor => {
                if self.palette.len() - self.color_idx > 1 {
                    self.color_idx += 1;
                }
            },
            Action::Clear => {
                self.canvas = Canvas::new(self.canvas.width, self.canvas.height);
                self.undo_stack.clear();
                proof {
                    assert(self.history() =~= Seq::empty());
                }
            },
            Action::Ignore => {},
        }
        false
    }

    /// Handle one key press; returns whether the editor should quit.
    pub fn handle_key(&mut self, key: Key, ctrl: bool) -> (quit: bool)
        requires
            old(self).wf(),
        ensures
            quit == (spec_action_for(key, ctrl) == Action::Quit),
            performed(*old(self), spec_action_for(key, ctrl), *final(self)),
            final(self).wf(),
    {
        let act = action_for(key, ctrl);
        self.perform(act)
    }
}

} // verus!

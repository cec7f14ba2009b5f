//! The ANSI art export of a canvas: half-block characters, two pixel rows per
//! line of text.

use vstd::prelude::*;
use crate::color::{PixelColor, fg_escape, bg_escape};

verus! {

/// The colour shown for a cell: its own, or `bg` when it is empty.
pub open spec fn shown(c: Option<PixelColor>, bg: PixelColor) -> PixelColor {
    match c {
        Some(p) => p,
        None => bg,
    }
}

/// The text of one character cell showing `top` above `bot`: a space on the
/// shared background when they agree, else an upper half block.
pub open spec fn cell_text(top: PixelColor, bot: PixelColor) -> Seq<char> {
    if top == bot {
        bg_escape(top) + " "@
    } else {
        fg_escape(top) + bg_escape(bot) + seq!['\u{2580}']
    }
}

/// The colour shown for the lower half of text line `line` at column `x`:
/// pixel row `2 * line + 1`, or `bg` below the last row.
pub open spec fn lower(g: Seq<Seq<Option<PixelColor>>>, h: int, bg: PixelColor, line: int, x: int) -> PixelColor {
    if 2 * line + 1 < h { shown(g[2 * line + 1][x], bg) } else { bg }
}

/// The cells of text line `line`, first `n` columns.
pub open spec fn line_text(g: Seq<Seq<Option<PixelColor>>>, h: int, bg: PixelColor, line: int, n: nat) -> Seq<char>
    decreases n,
{
    if n == 0 {
        Seq::empty()
    } else {
        line_text(g, h, bg, line, (n - 1) as nat) + cell_text(shown(g[2 * line][n - 1], bg), lower(g, h, bg, line, n - 1))
    }
}

/// The first `lines` text lines, each ended by a colour reset and a newline.
pub open spec fn ansi_text(g: Seq<Seq<Option<PixelColor>>>, w: int, h: int, bg: PixelColor, lines: nat) -> Seq<char>
    decreases lines,
{
    if lines == 0 {
        Seq::empty()
    } else {
        ansi_text(g, w, h, bg, (lines - 1) as nat) + line_text(g, h, bg, lines - 1, w as nat) + "\x1b[0m\n"@
    }
}

/// The export of a `w` by `h` canvas: `ceil(h / 2)` text lines of `w` cells.
pub open spec fn ansi_export(g: Seq<Seq<Option<PixelColor>>>, w: int, h: int, bg: PixelColor) -> Seq<char> {
    ansi_text(g, w, h, bg, ((h + 1) / 2) as nat)
}

} // verus!

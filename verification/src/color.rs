//! Pixel colours and the default palette.

use vstd::prelude::*;
use crate::text::{decimal, push_decimal};

verus! {

/// Pixel colour, stored as RGB.
#[derive(Debug, Clone, Copy, PartialEq, Eq, Structural)]
pub struct PixelColor {
    pub r: u8,
    pub g: u8,
    pub b: u8,
}

/// The text of an ANSI 24-bit colour escape: `ESC [ <kind> ; 2 ; r ; g ; b m`,
/// where `lead` is `ESC [ <kind> ; 2 ;`.
pub open spec fn rgb_escape(lead: Seq<char>, c: PixelColor) -> Seq<char> {
    lead + decimal(c.r as nat) + ";"@ + decimal(c.g as nat) + ";"@ + decimal(c.b as nat) + "m"@
}

/// ANSI escape text that sets the foreground to `c`.
pub open spec fn fg_escape(c: PixelColor) -> Seq<char> {
    rgb_escape("\x1b[38;2;"@, c)
}

/// ANSI escape text that sets the background to `c`.
pub open spec fn bg_escape(c: PixelColor) -> Seq<char> {
    rgb_escape("\x1b[48;2;"@, c)
}

/// The "no color" / transparent sentinel.
pub fn transparent() -> (c: PixelColor)
    ensures
        c == (PixelColor { r: 0, g: 0, b: 0 }),
{
    PixelColor { r: 0, g: 0, b: 0 }
}

impl PixelColor {
    pub fn new(r: u8, g: u8, b: u8) -> (c: Self)
        ensures
            c == (PixelColor { r, g, b }),
    {
        PixelColor { r, g, b }
    }

    /// ANSI escape for 24-bit foreground.
    pub fn ansi_fg(self) -> (s: String)
        ensures
            s@ == fg_escape(self),
    {
        let mut s = String::new();
        s.append("\x1b[38;2;");
        self.append_rgb(&mut s);
        s
    }

    /// ANSI escape for 24-bit background.
    pub fn ansi_bg(self) -> (s: String)
        ensures
            s@ == bg_escape(self),
    {
        let mut s = String::new();
        s.append("\x1b[48;2;");
        self.append_rgb(&mut s);
        s
    }

    fn append_rgb(self, s: &mut String)
        ensures
            final(s)@ == rgb_escape(old(s)@, self),
    {
        push_decimal(s, self.r);
        s.append(";");
        push_decimal(s, self.g);
        s.append(";");
        push_decimal(s, self.b);
        s.append("m");
    }
}

/// The colour with the given channels.
pub open spec fn rgb(r: u8, g: u8, b: u8) -> PixelColor {
    PixelColor { r, g, b }
}

/// The 16 classic ANSI colours, in palette order.
pub open spec fn ansi16_colors() -> Seq<PixelColor> {
    seq![
        rgb(0, 0, 0),
        rgb(170, 0, 0),
        rgb(0, 170, 0),
        rgb(170, 85, 0),
        rgb(0, 0, 170),
        rgb(170, 0, 170),
        rgb(0, 170, 170),
        rgb(170, 170, 170),
        rgb(85, 85, 85),
        rgb(255, 85, 85),
        rgb(85, 255, 85),
        rgb(255, 255, 85),
        rgb(85, 85, 255),
        rgb(255, 85, 255),
        rgb(85, 255, 255),
        rgb(255, 255, 255),
    ]
}

/// The 24 extended colours, in palette order.
pub open spec fn extended_colors() -> Seq<PixelColor> {
    seq![
        rgb(128, 0, 0),
        rgb(0, 128, 0),
        rgb(128, 128, 0),
        rgb(0, 0, 128),
        rgb(128, 0, 128),
        rgb(0, 128, 128),
        rgb(192, 192, 192),
        rgb(255, 165, 0),
        rgb(255, 192, 203),
        rgb(75, 0, 130),
        rgb(238, 130, 238),
        rgb(0, 255, 127),
        rgb(64, 224, 208),
        rgb(255, 215, 0),
        rgb(210, 105, 30),
        rgb(220, 20, 60),
        rgb(0, 191, 255),
        rgb(34, 139, 34),
        rgb(255, 99, 71),
        rgb(106, 90, 205),
        rgb(244, 164, 96),
        rgb(46, 139, 87),
        rgb(176, 196, 222),
        rgb(139, 69, 19),
    ]
}

/// The default palette: the 16 classic ANSI colours, then the 24 extended ones.
pub open spec fn spec_default_palette() -> Seq<PixelColor> {
    ansi16_colors() + extended_colors()
}

/// Build the default palette: 16 classic ANSI + 24 extended.
pub fn default_palette() -> (p: Vec<PixelColor>)
    ensures
        p@ == spec_default_palette(),
        p@.len() == 40,
{
    let mut p: Vec<PixelColor> = Vec::with_capacity(40);

    // 16 standard ANSI colors
    p.push(PixelColor::new(0, 0, 0));
    p.push(PixelColor::new(170, 0, 0));
    p.push(PixelColor::new(0, 170, 0));
    p.push(PixelColor::new(170, 85, 0));
    p.push(PixelColor::new(0, 0, 170));
    p.push(PixelColor::new(170, 0, 170));
    p.push(PixelColor::new(0, 170, 170));
    p.push(PixelColor::new(170, 170, 170));
    p.push(PixelColor::new(85, 85, 85));
    p.push(PixelColor::new(255, 85, 85));
    p.push(PixelColor::new(85, 255, 85));
    p.push(PixelColor::new(255, 255, 85));
    p.push(PixelColor::new(85, 85, 255));
    p.push(PixelColor::new(255, 85, 255));
    p.push(PixelColor::new(85, 255, 255));
    p.push(PixelColor::new(255, 255, 255));
    assert(p@ =~= ansi16_colors());

    // 24 extended colors
    p.push(PixelColor::new(128, 0, 0));
    p.push(PixelColor::new(0, 128, 0));
    p.push(PixelColor::new(128, 128, 0));
    p.push(PixelColor::new(0, 0, 128));
    p.push(PixelColor::new(128, 0, 128));
    p.push(PixelColor::new(0, 128, 128));
    p.push(PixelColor::new(192, 192, 192));
    p.push(PixelColor::new(255, 165, 0));
    p.push(PixelColor::new(255, 192, 203));
    p.push(PixelColor::new(75, 0, 130));
    p.push(PixelColor::new(238, 130, 238));
    p.push(PixelColor::new(0, 255, 127));
    p.push(PixelColor::new(64, 224, 208));
    p.push(PixelColor::new(255, 215, 0));
    p.push(PixelColor::new(210, 105, 30));
    p.push(PixelColor::new(220, 20, 60));
    p.push(PixelColor::new(0, 191, 255));
    p.push(PixelColor::new(34, 139, 34));
    p.push(PixelColor::new(255, 99, 71));
    p.push(PixelColor::new(106, 90, 205));
    p.push(PixelColor::new(244, 164, 96));
    p.push(PixelColor::new(46, 139, 87));
    p.push(PixelColor::new(176, 196, 222));
    p.push(PixelColor::new(139, 69, 19));
    assert(p@ =~= spec_default_palette());
    p
}

} // verus!

use pixel_forge::color::{default_palette, transparent, PixelColor};

#[test]
fn ansi_escapes() {
    let c = PixelColor::new(255, 0, 7);
    assert_eq!(c.ansi_fg(), "\x1b[38;2;255;0;7m");
    assert_eq!(c.ansi_bg(), "\x1b[48;2;255;0;7m");
}

#[test]
fn ansi_decimal_digits() {
    assert_eq!(PixelColor::new(9, 10, 99).ansi_bg(), "\x1b[48;2;9;10;99m");
    assert_eq!(PixelColor::new(100, 200, 0).ansi_fg(), "\x1b[38;2;100;200;0m");
}

#[test]
fn default_palette_contents() {
    let p = default_palette();
    assert_eq!(p.len(), 40);
    assert_eq!(p[0], PixelColor::new(0, 0, 0));
    assert_eq!(p[10], PixelColor::new(85, 255, 85));
    assert_eq!(p[15], PixelColor::new(255, 255, 255));
    assert_eq!(p[16], PixelColor::new(128, 0, 0));
    assert_eq!(p[23], PixelColor::new(255, 165, 0));
    assert_eq!(p[39], PixelColor::new(139, 69, 19));
}

#[test]
fn transparent_is_black() {
    assert_eq!(transparent(), PixelColor::new(0, 0, 0));
}

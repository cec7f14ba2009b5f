use pixel_forge::canvas::{Canvas, ProjectFile};
use pixel_forge::color::PixelColor;

fn red() -> Option<PixelColor> {
    Some(PixelColor::new(255, 0, 0))
}

fn blue() -> Option<PixelColor> {
    Some(PixelColor::new(0, 0, 255))
}

fn restore(c: &mut Canvas, changes: &[(usize, usize, Option<PixelColor>)]) {
    for &(x, y, old) in changes {
        c.set(x, y, old);
    }
}

fn cells(c: &Canvas) -> Vec<Vec<Option<PixelColor>>> {
    c.pixels.clone()
}

#[test]
fn new_canvas_is_empty() {
    let c = Canvas::new(3, 2);
    assert_eq!(c.width, 3);
    assert_eq!(c.height, 2);
    assert_eq!(c.pixels.len(), 2);
    for y in 0..2 {
        assert_eq!(c.pixels[y].len(), 3);
        for x in 0..3 {
            assert_eq!(c.get(x, y), None);
        }
    }
}

#[test]
fn in_bounds_edges() {
    let c = Canvas::new(3, 2);
    assert!(c.in_bounds(0, 0));
    assert!(c.in_bounds(2, 1));
    assert!(!c.in_bounds(3, 1));
    assert!(!c.in_bounds(2, 2));
}

#[test]
fn get_after_set() {
    let mut c = Canvas::new(3, 3);
    c.set(1, 2, red());
    assert_eq!(c.get(1, 2), red());
    assert_eq!(c.get(2, 1), None);
    c.set(1, 2, None);
    assert_eq!(c.get(1, 2), None);
}

#[test]
fn set_out_of_bounds_is_ignored() {
    let mut c = Canvas::new(2, 2);
    let before = cells(&c);
    c.set(2, 0, red());
    c.set(0, 5, red());
    assert_eq!(cells(&c), before);
    assert_eq!(c.get(2, 0), None);
}

#[test]
fn flood_fill_whole_empty_canvas() {
    let mut c = Canvas::new(4, 4);
    let changes = c.flood_fill(0, 0, red());
    assert_eq!(changes.len(), 16);
    for y in 0..4 {
        for x in 0..4 {
            assert_eq!(c.get(x, y), red());
        }
    }
    let mut seen = std::collections::HashSet::new();
    for &(x, y, old) in &changes {
        assert_eq!(old, None);
        assert!(seen.insert((x, y)));
    }
    // The fill visits the start first.
    assert_eq!((changes[0].0, changes[0].1), (0, 0));
}

#[test]
fn flood_fill_stops_at_walls() {
    let mut c = Canvas::new(5, 3);
    for y in 0..3 {
        c.set(2, y, blue());
    }
    let changes = c.flood_fill(0, 1, red());
    assert_eq!(changes.len(), 6);
    for y in 0..3 {
        assert_eq!(c.get(0, y), red());
        assert_eq!(c.get(1, y), red());
        assert_eq!(c.get(2, y), blue());
        assert_eq!(c.get(3, y), None);
        assert_eq!(c.get(4, y), None);
    }
}

#[test]
fn flood_fill_diagonal_does_not_leak() {
    let mut c = Canvas::new(2, 2);
    c.set(1, 0, blue());
    c.set(0, 1, blue());
    let changes = c.flood_fill(0, 0, red());
    assert_eq!(changes, vec![(0, 0, None)]);
    assert_eq!(c.get(1, 1), None);
}

#[test]
fn flood_fill_recolours_a_coloured_region() {
    let mut c = Canvas::new(3, 1);
    c.set(0, 0, blue());
    c.set(1, 0, blue());
    let changes = c.flood_fill(1, 0, red());
    assert_eq!(changes.len(), 2);
    assert!(changes.iter().all(|&(_, _, old)| old == blue()));
    assert_eq!(c.get(0, 0), red());
    assert_eq!(c.get(1, 0), red());
    assert_eq!(c.get(2, 0), None);
}

#[test]
fn flood_fill_same_colour_or_off_canvas_changes_nothing() {
    let mut c = Canvas::new(3, 3);
    c.set(1, 1, red());
    let before = cells(&c);
    assert!(c.flood_fill(1, 1, red()).is_empty());
    assert!(c.flood_fill(3, 0, red()).is_empty());
    assert!(c.flood_fill(0, 0, None).is_empty());
    assert_eq!(cells(&c), before);
}

#[test]
fn flood_fill_then_restore() {
    let mut c = Canvas::new(4, 3);
    c.set(1, 0, blue());
    c.set(1, 1, blue());
    c.set(3, 2, red());
    let before = cells(&c);
    let changes = c.flood_fill(0, 0, red());
    assert_ne!(cells(&c), before);
    restore(&mut c, &changes);
    assert_eq!(cells(&c), before);
}

#[test]
fn draw_line_horizontal() {
    let mut c = Canvas::new(5, 2);
    let changes = c.draw_line(0, 0, 3, 0, red());
    let pts: Vec<(usize, usize)> = changes.iter().map(|&(x, y, _)| (x, y)).collect();
    assert_eq!(pts, vec![(0, 0), (1, 0), (2, 0), (3, 0)]);
    assert_eq!(c.get(4, 0), None);
    assert_eq!(c.get(3, 0), red());
}

#[test]
fn draw_line_steep() {
    let mut c = Canvas::new(4, 4);
    let changes = c.draw_line(0, 0, 1, 3, red());
    let pts: Vec<(usize, usize)> = changes.iter().map(|&(x, y, _)| (x, y)).collect();
    assert_eq!(pts, vec![(0, 0), (0, 1), (1, 2), (1, 3)]);
}

#[test]
fn draw_line_backwards_diagonal() {
    let mut c = Canvas::new(4, 4);
    let changes = c.draw_line(3, 3, 0, 0, red());
    let pts: Vec<(usize, usize)> = changes.iter().map(|&(x, y, _)| (x, y)).collect();
    assert_eq!(pts, vec![(3, 3), (2, 2), (1, 1), (0, 0)]);
}

#[test]
fn draw_line_single_point() {
    let mut c = Canvas::new(2, 2);
    let changes = c.draw_line(1, 1, 1, 1, red());
    assert_eq!(changes, vec![(1, 1, None)]);
}

#[test]
fn draw_line_clips_off_canvas_cells() {
    let mut c = Canvas::new(3, 1);
    let changes = c.draw_line(-2, 0, 4, 0, red());
    let pts: Vec<(usize, usize)> = changes.iter().map(|&(x, y, _)| (x, y)).collect();
    assert_eq!(pts, vec![(0, 0), (1, 0), (2, 0)]);
}

#[test]
fn draw_line_then_restore() {
    let mut c = Canvas::new(6, 6);
    c.set(2, 1, blue());
    let before = cells(&c);
    let changes = c.draw_line(0, 0, 5, 3, red());
    assert!(changes.contains(&(2, 1, blue())));
    restore(&mut c, &changes);
    assert_eq!(cells(&c), before);
}

#[test]
fn draw_rect_outline_and_filled() {
    let mut c = Canvas::new(5, 5);
    let outline = c.draw_rect(3, 2, 0, 0, red(), false);
    assert_eq!(outline.len(), 10);
    assert_eq!(c.get(1, 1), None);
    assert_eq!(c.get(0, 1), red());
    assert_eq!(c.get(3, 1), red());
    assert_eq!((outline[0].0, outline[0].1), (0, 0));
    let mut c2 = Canvas::new(5, 5);
    let full = c2.draw_rect(0, 0, 3, 2, red(), true);
    assert_eq!(full.len(), 12);
    assert_eq!(c2.get(1, 1), red());
    assert_eq!(c2.get(4, 1), None);
}

#[test]
fn draw_rect_clips_and_restores() {
    let mut c = Canvas::new(3, 3);
    c.set(2, 2, blue());
    let before = cells(&c);
    let changes = c.draw_rect(1, 1, 6, 6, red(), true);
    assert_eq!(changes.len(), 4);
    assert!(changes.contains(&(2, 2, blue())));
    restore(&mut c, &changes);
    assert_eq!(cells(&c), before);
}

#[test]
fn ansi_export_full_and_half_blocks() {
    let mut c = Canvas::new(2, 3);
    let bg = PixelColor::new(0, 0, 0);
    c.set(0, 0, red());
    let s = c.to_ansi_string(bg);
    let expected = String::new()
        + "\x1b[38;2;255;0;0m\x1b[48;2;0;0;0m\u{2580}"
        + "\x1b[48;2;0;0;0m "
        + "\x1b[0m\n"
        + "\x1b[48;2;0;0;0m "
        + "\x1b[48;2;0;0;0m "
        + "\x1b[0m\n";
    assert_eq!(s, expected);
}

#[test]
fn ansi_export_empty_canvas() {
    let c = Canvas::new(0, 0);
    assert_eq!(c.to_ansi_string(PixelColor::new(1, 2, 3)), "");
    let c1 = Canvas::new(1, 1);
    assert_eq!(c1.to_ansi_string(PixelColor::new(1, 2, 3)), "\x1b[48;2;1;2;3m \x1b[0m\n");
}

#[test]
fn project_file_round_trip() {
    let mut c = Canvas::new(3, 2);
    c.set(2, 1, red());
    let p = ProjectFile::from_canvas(&c);
    assert_eq!(p.width, 3);
    assert_eq!(p.height, 2);
    let c2 = p.to_canvas();
    assert_eq!(c2.width, 3);
    assert_eq!(c2.height, 2);
    assert_eq!(cells(&c2), cells(&c));
}

#[test]
fn draw_line_ends_and_steps() {
    for &(x0, y0, x1, y1) in &[(0isize, 0isize, 7isize, 3isize), (6, 1, 0, 5), (2, 7, 2, 0), (0, 0, 0, 0), (1, 6, 7, 6)] {
        let mut c = Canvas::new(8, 8);
        let changes = c.draw_line(x0, y0, x1, y1, red());
        let pts: Vec<(isize, isize)> = changes.iter().map(|&(x, y, _)| (x as isize, y as isize)).collect();
        assert_eq!(pts[0], (x0, y0));
        assert_eq!(*pts.last().unwrap(), (x1, y1));
        for w in pts.windows(2) {
            assert!((w[1].0 - w[0].0).abs() <= 1 && (w[1].1 - w[0].1).abs() <= 1);
        }
        let mut seen = std::collections::HashSet::new();
        assert!(pts.iter().all(|p| seen.insert(*p)));
    }
}

#[test]
fn flood_fill_order_is_depth_first() {
    let mut c = Canvas::new(2, 2);
    let changes = c.flood_fill(0, 0, red());
    let pts: Vec<(usize, usize)> = changes.iter().map(|&(x, y, _)| (x, y)).collect();
    assert_eq!(pts, vec![(0, 0), (0, 1), (1, 1), (1, 0)]);
}

#[test]
fn draw_line_cell_count_and_closeness() {
    for &(x0, y0, x1, y1) in &[(0isize, 0isize, 7isize, 3isize), (6, 1, 0, 5), (2, 7, 2, 0), (0, 0, 5, 5), (7, 0, 0, 2)] {
        let mut c = Canvas::new(8, 8);
        let changes = c.draw_line(x0, y0, x1, y1, red());
        let dx = (x1 - x0).abs();
        let dy = (y1 - y0).abs();
        assert_eq!(changes.len() as isize, dx.max(dy) + 1);
        for &(x, y, _) in &changes {
            let i = (x as isize - x0).abs();
            let j = (y as isize - y0).abs();
            assert!(2 * (dx * j - dy * i).abs() <= dx.max(dy));
        }
    }
}

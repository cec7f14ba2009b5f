use pixel_forge::color::PixelColor;
use pixel_forge::editor::{action_for, Action, App, Key, Tool};

fn cells(a: &App) -> Vec<Vec<Option<PixelColor>>> {
    a.canvas.pixels.clone()
}

#[test]
fn new_app_defaults() {
    let a = App::new(32, 24);
    assert_eq!((a.cursor_x, a.cursor_y), (16, 12));
    assert_eq!(a.color_idx, 10);
    assert_eq!(a.current_color(), PixelColor::new(85, 255, 85));
    assert_eq!(a.tool, Tool::Pencil);
    assert!(a.undo_stack.is_empty());
    assert_eq!(a.palette.len(), 40);
}

#[test]
fn tool_names() {
    assert_eq!(Tool::Pencil.name(), "Pencil");
    assert_eq!(Tool::Eraser.name(), "Eraser");
    assert_eq!(Tool::Fill.name(), "Fill");
    assert_eq!(Tool::Line.name(), "Line");
    assert_eq!(Tool::Rect.name(), "Rect");
}

#[test]
fn pencil_then_undo() {
    let mut a = App::new(4, 4);
    let before = cells(&a);
    a.apply_tool();
    assert_eq!(a.canvas.get(2, 2), Some(PixelColor::new(85, 255, 85)));
    assert_eq!(a.undo_stack, vec![vec![(2, 2, None)]]);
    a.undo();
    assert_eq!(cells(&a), before);
    assert!(a.undo_stack.is_empty());
}

#[test]
fn eraser_then_undo() {
    let mut a = App::new(4, 4);
    a.apply_tool();
    let painted = cells(&a);
    a.tool = Tool::Eraser;
    a.apply_tool();
    assert_eq!(a.canvas.get(2, 2), None);
    a.undo();
    assert_eq!(cells(&a), painted);
    assert_eq!(a.undo_stack.len(), 1);
}

#[test]
fn line_and_rect_tools_paint_one_pixel() {
    let mut a = App::new(4, 4);
    a.tool = Tool::Line;
    a.apply_tool();
    a.tool = Tool::Rect;
    a.cursor_x = 0;
    a.apply_tool();
    assert_eq!(a.undo_stack.len(), 2);
    assert_eq!(a.canvas.get(0, 2), Some(PixelColor::new(85, 255, 85)));
}

#[test]
fn fill_then_undo() {
    let mut a = App::new(3, 3);
    a.tool = Tool::Fill;
    let before = cells(&a);
    a.apply_tool();
    assert_eq!(a.undo_stack.len(), 1);
    assert_eq!(a.undo_stack[0].len(), 9);
    a.undo();
    assert_eq!(cells(&a), before);
}

#[test]
fn fill_that_changes_nothing_records_nothing() {
    let mut a = App::new(3, 3);
    a.apply_tool(); // pencil at (1, 1)
    a.tool = Tool::Fill;
    a.apply_tool(); // cell already has the colour
    assert_eq!(a.undo_stack.len(), 1);
    // The next undo takes back the pencil stroke.
    a.undo();
    assert_eq!(a.canvas.get(1, 1), None);
}

#[test]
fn undo_on_empty_history_does_nothing() {
    let mut a = App::new(2, 2);
    let before = cells(&a);
    a.undo();
    assert_eq!(cells(&a), before);
}

#[test]
fn key_bindings() {
    assert_eq!(action_for(Key::Char('q'), false), Action::Quit);
    assert_eq!(action_for(Key::Char('c'), true), Action::Quit);
    assert_eq!(action_for(Key::Char('c'), false), Action::Clear);
    assert_eq!(action_for(Key::Char('h'), false), Action::MoveLeft);
    assert_eq!(action_for(Key::Left, false), Action::MoveLeft);
    assert_eq!(action_for(Key::Char('l'), false), Action::MoveRight);
    assert_eq!(action_for(Key::Char('k'), false), Action::MoveUp);
    assert_eq!(action_for(Key::Down, false), Action::MoveDown);
    assert_eq!(action_for(Key::Char(' '), false), Action::Apply);
    assert_eq!(action_for(Key::Enter, false), Action::Apply);
    assert_eq!(action_for(Key::Char('z'), true), Action::Undo);
    assert_eq!(action_for(Key::Char('z'), false), Action::Ignore);
    assert_eq!(action_for(Key::Char('u'), false), Action::Undo);
    assert_eq!(action_for(Key::Char('p'), false), Action::SelectTool(Tool::Pencil));
    assert_eq!(action_for(Key::Char('e'), false), Action::SelectTool(Tool::Eraser));
    assert_eq!(action_for(Key::Char('f'), false), Action::SelectTool(Tool::Fill));
    assert_eq!(action_for(Key::Char('['), false), Action::PrevColor);
    assert_eq!(action_for(Key::Char(']'), false), Action::NextColor);
    assert_eq!(action_for(Key::Other, false), Action::Ignore);
}

#[test]
fn cursor_moves_stay_on_canvas() {
    let mut a = App::new(2, 2);
    assert!(!a.handle_key(Key::Right, false));
    assert_eq!(a.cursor_x, 1);
    a.handle_key(Key::Char('l'), false);
    assert_eq!(a.cursor_x, 1);
    a.handle_key(Key::Char('j'), false);
    assert_eq!(a.cursor_y, 1);
    a.handle_key(Key::Left, false);
    a.handle_key(Key::Left, false);
    a.handle_key(Key::Left, false);
    assert_eq!(a.cursor_x, 0);
    a.handle_key(Key::Up, false);
    a.handle_key(Key::Up, false);
    assert_eq!(a.cursor_y, 0);
}

#[test]
fn colour_cycling_is_clamped() {
    let mut a = App::new(2, 2);
    for _ in 0..50 {
        a.handle_key(Key::Char(']'), false);
    }
    assert_eq!(a.color_idx, 39);
    for _ in 0..50 {
        a.handle_key(Key::Char('['), false);
    }
    assert_eq!(a.color_idx, 0);
}

#[test]
fn quit_and_clear_keys() {
    let mut a = App::new(3, 3);
    assert!(a.handle_key(Key::Char('q'), false));
    assert!(a.handle_key(Key::Char('c'), true));
    a.handle_key(Key::Char(' '), false);
    assert_eq!(a.undo_stack.len(), 1);
    assert!(!a.handle_key(Key::Char('c'), false));
    assert!(a.undo_stack.is_empty());
    assert_eq!(a.canvas.get(1, 1), None);
    assert_eq!((a.canvas.width, a.canvas.height), (3, 3));
}

#[test]
fn tool_keys_and_ctrl_z() {
    let mut a = App::new(3, 3);
    a.handle_key(Key::Char('f'), false);
    assert_eq!(a.tool, Tool::Fill);
    a.handle_key(Key::Enter, false);
    assert_eq!(a.canvas.get(0, 0), Some(PixelColor::new(85, 255, 85)));
    a.handle_key(Key::Char('z'), false);
    assert_eq!(a.canvas.get(0, 0), Some(PixelColor::new(85, 255, 85)));
    a.handle_key(Key::Char('z'), true);
    assert_eq!(a.canvas.get(0, 0), None);
    a.handle_key(Key::Char('e'), false);
    assert_eq!(a.tool, Tool::Eraser);
    a.handle_key(Key::Char('p'), false);
    assert_eq!(a.tool, Tool::Pencil);
}

#[test]
fn canvas_cells_checkerboard_cursor_and_pixels() {
    let mut a = App::new(3, 3);
    a.cursor_x = 2;
    a.cursor_y = 2;
    a.canvas.set(0, 1, Some(PixelColor::new(1, 2, 3)));
    let v = a.canvas_cells(10, 10);
    assert_eq!(v.len(), 2);
    assert_eq!(v[0].len(), 3);
    let dark = PixelColor::new(30, 30, 30);
    let light = PixelColor::new(50, 50, 50);
    let green = PixelColor::new(0, 255, 0);
    assert_eq!(v[0][0], (dark, PixelColor::new(1, 2, 3)));
    assert_eq!(v[0][1], (light, dark));
    assert_eq!(v[1][0], (dark, light));
    assert_eq!(v[1][2], (green, green));
}

#[test]
fn canvas_cells_clipped_to_area() {
    let a = App::new(5, 5);
    let v = a.canvas_cells(2, 3);
    assert_eq!(v.len(), 2);
    assert!(v.iter().all(|r| r.len() == 2));
    let none = a.canvas_cells(0, 0);
    assert!(none.is_empty());
    let narrow = a.canvas_cells(3, 0);
    assert_eq!(narrow.len(), 3);
    assert!(narrow.iter().all(|r| r.is_empty()));
}

#[test]
fn palette_rows_layout() {
    let a = App::new(2, 2);
    let rows = a.palette_rows(6);
    assert_eq!(rows.len(), 7);
    assert!(rows[..6].iter().all(|r| r.len() == 6));
    assert_eq!(rows[6].len(), 4);
    assert_eq!(rows[1][4], (PixelColor::new(85, 255, 85), true));
    assert_eq!(rows.iter().flatten().filter(|(_, sel)| *sel).count(), 1);
    let one = a.palette_rows(100);
    assert_eq!(one.len(), 1);
    assert_eq!(one[0].len(), 40);
}

#[test]
fn many_edits_then_as_many_undos() {
    let mut a = App::new(5, 4);
    a.handle_key(Key::Char(' '), false);
    let start = cells(&a);
    let start_stack = a.undo_stack.clone();
    let keys = [
        (Key::Char('l'), false),
        (Key::Char(' '), false),
        (Key::Char(']'), false),
        (Key::Char('f'), false),
        (Key::Enter, false),
        (Key::Char('e'), false),
        (Key::Down, false),
        (Key::Char(' '), false),
        (Key::Char('f'), false),
        (Key::Char('['), false),
        (Key::Enter, false),
        (Key::Char('p'), false),
        (Key::Left, false),
        (Key::Char(' '), false),
    ];
    for &(k, ctrl) in &keys {
        a.handle_key(k, ctrl);
    }
    let recorded = a.undo_stack.len() - start_stack.len();
    assert!(recorded >= 4);
    for _ in 0..recorded {
        a.handle_key(Key::Char('u'), false);
    }
    assert_eq!(cells(&a), start);
    assert_eq!(a.undo_stack, start_stack);
}

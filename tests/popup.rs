use rusty_editor::popup::{
    draw_file_picker_popup_to_buffer, draw_file_save_as_popup_to_buffer,
    draw_help_popup_to_buffer, widest,
};
use rusty_editor::render::{Cell, Color, RenderState};

fn chars(s: &str) -> Vec<char> {
    s.chars().collect()
}

fn row(rs: &RenderState, y: usize) -> String {
    (0..rs.term_width() as usize).map(|x| rs.cell(x, y).unwrap().ch).collect()
}

#[test]
fn widest_line() {
    assert_eq!(widest(&vec![chars("ab"), chars("abcd"), chars("")]), 4);
    assert_eq!(widest(&vec![]), 0);
}

#[test]
fn help_popup_sits_bottom_right() {
    let mut rs = RenderState::new(20, 6);
    draw_help_popup_to_buffer(&mut rs, &chars("Go"), &vec![chars("g - x"), chars("e - y")]);
    // width 9, height 4, at x 10, y 1
    assert_eq!(row(&rs, 0), " ".repeat(20));
    assert_eq!(row(&rs, 1), format!("{}┌──Go───┐ ", " ".repeat(10)));
    assert_eq!(row(&rs, 2), format!("{}│g - x  │ ", " ".repeat(10)));
    assert_eq!(row(&rs, 3), format!("{}│e - y  │ ", " ".repeat(10)));
    assert_eq!(row(&rs, 4), format!("{}└───────┘ ", " ".repeat(10)));
    assert_eq!(row(&rs, 5), " ".repeat(20));
    assert_eq!(
        rs.cell(11, 2),
        Some(Cell { ch: 'g', fg: Color::White, bg: Some(Color::DarkGrey) })
    );
}

#[test]
fn file_picker_popup_marks_selection() {
    let mut rs = RenderState::new(24, 6);
    draw_file_picker_popup_to_buffer(&mut rs, &vec![chars("a.md"), chars("notes.md")], 1);
    // width 12, height 4, centred at x 6, y 1
    assert_eq!(row(&rs, 1), format!("{}┌Pick a fil┐{}", " ".repeat(6), " ".repeat(6)));
    assert_eq!(row(&rs, 2), format!("{}│a.md      │{}", " ".repeat(6), " ".repeat(6)));
    assert_eq!(row(&rs, 3), format!("{}│notes.md  │{}", " ".repeat(6), " ".repeat(6)));
    assert_eq!(rs.cell(7, 3).unwrap().bg, Some(Color::White));
    assert_eq!(rs.cell(7, 2).unwrap().bg, Some(Color::DarkGrey));
}

#[test]
fn save_as_popup_shows_input_and_cursor() {
    let mut rs = RenderState::new(40, 5);
    draw_file_save_as_popup_to_buffer(&mut rs, &chars("name.md"), 4);
    assert_eq!(row(&rs, 0), format!("┌{}┐", "─".repeat(38)));
    assert!(row(&rs, 1).starts_with("│ Save As:"));
    assert!(row(&rs, 2).starts_with("│ name.md"));
    assert!(row(&rs, 3).starts_with("│ Enter: Save | Esc: Cancel"));
    assert_eq!(rs.cell(6, 2), Some(Cell { ch: '.', fg: Color::Black, bg: Some(Color::White) }));
}

use rusty_editor::async_handler::RequestState;
use rusty_editor::chat::History;
use rusty_editor::editor::{Editor, Key, KeyModifiers};
use rusty_editor::render::{
    compute_wrapped_lines, decimal_chars, draw_message_line_to_buffer, draw_screen, line_number_label, request_line,
    status_line, style_colors, wrap_line, Cell, Color, RenderState, WrappedLineInfo,
};
use rusty_editor::syntax::Style;

fn chars(s: &str) -> Vec<char> {
    s.chars().collect()
}

#[test]
fn wrap_splits_at_width() {
    assert_eq!(wrap_line(&chars("abcdefg"), 3), vec![0, 3, 6]);
    assert_eq!(wrap_line(&chars(""), 3), vec![0]);
    assert_eq!(wrap_line(&chars("abc"), 3), vec![0]);
}

#[test]
fn tabs_expand_to_next_stop() {
    // a tab after one char takes three columns
    assert_eq!(wrap_line(&chars("a\tbc"), 4), vec![0, 2]);
    assert_eq!(wrap_line(&chars("\t\t"), 4), vec![0, 1]);
}

#[test]
fn zero_width_still_advances() {
    assert_eq!(wrap_line(&chars("ab"), 0), vec![0, 1]);
}

#[test]
fn geometry_numbers_screen_rows() {
    let lines = vec![chars("abcd"), chars(""), chars("xy")];
    let info = compute_wrapped_lines(&lines, 3);
    let got: Vec<(usize, usize, usize)> =
        info.iter().map(|w| (w.logical_line, w.start_col, w.screen_row)).collect();
    assert_eq!(got, vec![(0, 0, 0), (0, 3, 1), (1, 0, 2), (2, 0, 3)]);
    assert_eq!(info[1], WrappedLineInfo { logical_line: 0, start_col: 3, screen_row: 1 });
}

#[test]
fn numbers_and_labels() {
    assert_eq!(decimal_chars(0), chars("0"));
    assert_eq!(decimal_chars(907), chars("907"));
    assert_eq!(line_number_label(7, 3), chars("  7 "));
    assert_eq!(line_number_label(12345, 3), chars("12345 "));
}

#[test]
fn style_colours() {
    assert_eq!(style_colors(Style::Keyword), (Color::Magenta, None));
    assert_eq!(style_colors(Style::Selection), (Color::Black, Some(Color::Grey)));
    assert_eq!(style_colors(Style::Error), (Color::Red, Some(Color::White)));
}

#[test]
fn status_and_request_lines() {
    let mut e = Editor::new(History { root: ".rusty".to_string(), file_path: "f.md".to_string() });
    e.load_content("ab\ncd", "f.md".to_string());
    let mods = KeyModifiers { shift: false, control: false, alt: false, meta: false };
    e.handle_key(Key::Down, mods);
    e.handle_key(Key::Right, mods);
    let s: String = status_line(&e, 30).into_iter().collect();
    let expected = format!("{}{}{}", "f.md  - NORMAL ", " ".repeat(8), "  2:2  ");
    assert_eq!(s, expected);
    assert_eq!(s.chars().count(), 30);
    let r: String = request_line(&RequestState::Error("boom".to_string())).into_iter().collect();
    assert_eq!(r, "Request Status: Error: boom");
    let r: String = request_line(&RequestState::Processing).into_iter().collect();
    assert_eq!(r, "Request Status: In Progress");
}

#[test]
fn frame_draws_text_and_only_changes_are_written() {
    let mut e = Editor::new(History { root: ".rusty".to_string(), file_path: "f.md".to_string() });
    e.load_content("hi\nyou", "f.md".to_string());
    let mut rs = RenderState::new(20, 5);
    let out = draw_screen(&mut e, &mut rs, &RequestState::Idle, 20, 5);
    assert!(!out.clear_screen);
    assert_eq!(rs.line_number_width(), 3);
    // line numbers then text
    let row0: String = out
        .writes
        .iter()
        .filter(|w| w.y == 0)
        .map(|w| w.text.clone())
        .collect();
    assert!(row0.starts_with("  1 hi"));
    assert_eq!((out.cursor_x, out.cursor_y), (4, 0));
    // a second identical frame writes nothing
    let again = draw_screen(&mut e, &mut rs, &RequestState::Idle, 20, 5);
    assert!(again.writes.is_empty());
    // a moved cursor changes the status line only
    let mods = KeyModifiers { shift: false, control: false, alt: false, meta: false };
    e.handle_key(Key::Down, mods);
    let third = draw_screen(&mut e, &mut rs, &RequestState::Idle, 20, 5);
    assert!(third.writes.iter().all(|w| w.y == 3));
    assert_eq!((third.cursor_x, third.cursor_y), (4, 1));
    // a resize asks for a clear
    let resized = draw_screen(&mut e, &mut rs, &RequestState::Idle, 30, 6);
    assert!(resized.clear_screen);
}

#[test]
fn scroll_follows_cursor() {
    let mut e = Editor::new(History { root: ".rusty".to_string(), file_path: "f.md".to_string() });
    e.load_content("1\n2\n3\n4\n5\n6\n7\n8", "f.md".to_string());
    let mut rs = RenderState::new(20, 5);
    let mods = KeyModifiers { shift: false, control: false, alt: false, meta: false };
    for _ in 0..6 {
        e.handle_key(Key::Down, mods);
    }
    let out = draw_screen(&mut e, &mut rs, &RequestState::Idle, 20, 5);
    // three text rows: the cursor's row 6 is the last visible one
    assert_eq!(rs.scroll_offset(), 4);
    assert_eq!(out.cursor_y, 2);
    e.handle_key(Key::Char('g'), mods);
    e.handle_key(Key::Char('g'), mods);
    draw_screen(&mut e, &mut rs, &RequestState::Idle, 20, 5);
    assert_eq!(rs.scroll_offset(), 0);
}

#[test]
fn set_cell_and_change_detection() {
    let mut rs = RenderState::new(4, 2);
    assert!(!rs.cell_changed(1, 1));
    rs.set_cell(1, 1, 'x', Color::Red, None);
    assert!(rs.cell_changed(1, 1));
    assert_eq!(rs.cell(1, 1), Some(Cell { ch: 'x', fg: Color::Red, bg: None }));
    rs.set_cell(9, 9, 'y', Color::Red, None);
    assert_eq!(rs.cell(9, 9), None);
    let runs = rs.changed_runs();
    assert_eq!(runs.len(), 1);
    assert_eq!((runs[0].x, runs[0].y, runs[0].cells.len()), (1, 1, 1));
    rs.swap_buffers();
    rs.clear_buffer();
    assert!(rs.cell_changed(1, 1));
}

#[test]
fn message_line_shows_mode_help() {
    let e = Editor::new(History { root: ".rusty".to_string(), file_path: "f.md".to_string() });
    let mut rs = RenderState::new(12, 4);
    draw_message_line_to_buffer(&e, &mut rs);
    let row: String = (0..12).map(|x| rs.cell(x, 2).unwrap().ch).collect();
    assert_eq!(row, "^Q: Quit | i");
    assert_eq!(rs.cell(0, 2).unwrap().fg, Color::DarkGrey);
}

#[test]
fn waiting_menu_draws_its_help() {
    let mut e = Editor::new(History { root: ".rusty".to_string(), file_path: "f.md".to_string() });
    let mods = KeyModifiers { shift: false, control: false, alt: false, meta: false };
    e.handle_key(Key::Char('g'), mods);
    let mut rs = RenderState::new(40, 10);
    let out = draw_screen(&mut e, &mut rs, &RequestState::Idle, 40, 10);
    let text: String = out.writes.iter().map(|w| w.text.clone()).collect();
    assert!(text.contains("Go to"));
    assert!(text.contains("g - Goto first line"));
    e.handle_key(Key::Char('z'), mods);
    let after = draw_screen(&mut e, &mut rs, &RequestState::Idle, 40, 10);
    let text: String = after.writes.iter().map(|w| w.text.clone()).collect();
    assert!(!text.contains("Go to"));
}

#[test]
fn cursor_column_counts_tab_width() {
    let mut e = Editor::new(History { root: ".rusty".to_string(), file_path: "f.md".to_string() });
    e.load_content("\tx", "f.md".to_string());
    let mods = KeyModifiers { shift: false, control: false, alt: false, meta: false };
    e.handle_key(Key::Right, mods);
    assert_eq!(e.get_cursor_position(), (0, 1));
    let mut rs = RenderState::new(20, 5);
    let out = draw_screen(&mut e, &mut rs, &RequestState::Idle, 20, 5);
    assert_eq!((out.cursor_x, out.cursor_y), (8, 0));
}

#[test]
fn runs_are_maximal() {
    let mut rs = RenderState::new(6, 1);
    rs.set_cell(1, 0, 'a', Color::Red, None);
    rs.set_cell(2, 0, 'b', Color::Red, None);
    rs.set_cell(3, 0, 'c', Color::Blue, None);
    let runs = rs.changed_runs();
    assert_eq!(runs.len(), 2);
    assert_eq!((runs[0].x, runs[0].cells.len()), (1, 2));
    assert_eq!((runs[1].x, runs[1].cells.len()), (3, 1));
}

use rusty_editor::async_handler::{AsyncCommandHandler, EditorState, RequestState};
use rusty_editor::chat::{ChatContext, History, Model};
use rusty_editor::editor::{Editor, Effect, Key, KeyModifiers, Mode};
use rusty_editor::syntax::{Highlight, Style};

fn no_mods() -> KeyModifiers {
    KeyModifiers { shift: false, control: false, alt: false, meta: false }
}

fn editor_with(text: &str) -> Editor {
    let mut e = Editor::new(History { root: ".rusty".to_string(), file_path: "notes.md".to_string() });
    e.load_content(text, "notes.md".to_string());
    e
}

fn press(e: &mut Editor, key: Key) -> Effect {
    e.handle_key(key, no_mods())
}

#[test]
fn new_editor_holds_one_line_feed() {
    let e = Editor::new(History { root: ".rusty".to_string(), file_path: "a.md".to_string() });
    assert_eq!(e.get_content(), "\n");
    assert_eq!(e.get_cursor_position(), (0, 0));
    assert_eq!(*e.get_mode(), Mode::Normal);
    assert!(!e.is_modified());
    assert_eq!(e.get_file_name(), Some("a.md"));
}

#[test]
fn right_at_line_end_wraps_to_next_line() {
    let mut e = editor_with("ab\ncd");
    press(&mut e, Key::Right);
    press(&mut e, Key::Right);
    assert_eq!(e.get_cursor_position(), (0, 2));
    press(&mut e, Key::Right);
    assert_eq!(e.get_cursor_position(), (1, 0));
}

#[test]
fn left_at_line_start_goes_to_previous_line_end() {
    let mut e = editor_with("ab\ncd");
    press(&mut e, Key::Down);
    assert_eq!(e.get_cursor_position(), (1, 0));
    press(&mut e, Key::Left);
    assert_eq!(e.get_cursor_position(), (0, 2));
}

#[test]
fn vertical_motion_clamps_column() {
    let mut e = editor_with("abcdef\nxy\nlonger line");
    for _ in 0..5 {
        press(&mut e, Key::Char('l'));
    }
    assert_eq!(e.get_cursor_position(), (0, 5));
    press(&mut e, Key::Char('j'));
    assert_eq!(e.get_cursor_position(), (1, 2));
    press(&mut e, Key::Char('j'));
    assert_eq!(e.get_cursor_position(), (2, 2));
    press(&mut e, Key::Char('k'));
    press(&mut e, Key::Char('k'));
    assert_eq!(e.get_cursor_position(), (0, 2));
}

#[test]
fn select_then_delete_leaves_rest() {
    let mut e = editor_with("abcdef");
    press(&mut e, Key::Char('v'));
    assert_eq!(*e.get_mode(), Mode::Select);
    press(&mut e, Key::Right);
    press(&mut e, Key::Right);
    assert_eq!(e.get_cursor_position(), (0, 2));
    let range = e.get_selection_range().unwrap();
    assert_eq!((range.start, range.end), (0, 2));
    assert_eq!(e.get_selected_text(), Some("ab".to_string()));
    press(&mut e, Key::Char('d'));
    assert_eq!(e.get_content(), "cdef");
    assert_eq!(e.get_cursor_position(), (0, 0));
    assert_eq!(*e.get_mode(), Mode::Normal);
    assert!(e.get_selection_range().is_none());
}

#[test]
fn yank_in_select_mode_asks_for_copy() {
    let mut e = editor_with("hello world");
    press(&mut e, Key::Char('v'));
    for _ in 0..5 {
        press(&mut e, Key::Char('l'));
    }
    match press(&mut e, Key::Char('y')) {
        Effect::Copy(t) => assert_eq!(t, "hello"),
        other => panic!("expected a copy, got {:?}", other),
    }
    e.finish_copy();
    assert_eq!(*e.get_mode(), Mode::Normal);
    assert!(e.get_selection_range().is_none());
}

#[test]
fn escape_cancels_selection() {
    let mut e = editor_with("abc");
    press(&mut e, Key::Char('v'));
    press(&mut e, Key::Right);
    press(&mut e, Key::Esc);
    assert_eq!(*e.get_mode(), Mode::Normal);
    assert!(e.get_selection_range().is_none());
    assert_eq!(e.get_content(), "abc");
}

#[test]
fn empty_document_has_one_line_and_insert_works() {
    let mut e = editor_with("");
    assert_eq!(e.line_count(), 1);
    assert_eq!(e.get_cursor_position(), (0, 0));
    press(&mut e, Key::Char('i'));
    assert_eq!(*e.get_mode(), Mode::Insert);
    assert_eq!(e.get_content(), "\n");
    press(&mut e, Key::Char('x'));
    press(&mut e, Key::Char('y'));
    assert_eq!(e.get_content(), "xy\n");
    assert_eq!(e.get_cursor_position(), (0, 2));
    assert!(e.is_modified());
}

#[test]
fn insert_enter_backspace_delete() {
    let mut e = editor_with("abcd");
    press(&mut e, Key::Char('i'));
    press(&mut e, Key::Right);
    press(&mut e, Key::Right);
    press(&mut e, Key::Enter);
    assert_eq!(e.get_content(), "ab\ncd");
    assert_eq!(e.get_cursor_position(), (1, 0));
    press(&mut e, Key::Backspace);
    assert_eq!(e.get_content(), "abcd");
    assert_eq!(e.get_cursor_position(), (0, 2));
    press(&mut e, Key::Delete);
    assert_eq!(e.get_content(), "abd");
    assert_eq!(e.get_cursor_position(), (0, 2));
    press(&mut e, Key::Esc);
    assert_eq!(*e.get_mode(), Mode::Normal);
}

#[test]
fn deleting_only_character_leaves_valid_empty_line() {
    let mut e = editor_with("a");
    press(&mut e, Key::Char('d'));
    assert_eq!(e.get_content(), "");
    assert_eq!(e.line_count(), 1);
    assert_eq!(e.get_cursor_position(), (0, 0));
}

#[test]
fn char_index_and_position_are_inverse() {
    let e = editor_with("ab\ncd\n\nxyz");
    for c in 0..=e.len_chars() {
        let (r, col) = e.position_from_char_idx(c);
        assert_eq!(e.char_idx_from_position(r, col), c);
    }
    assert_eq!(e.position_from_char_idx(3), (1, 0));
    assert_eq!(e.position_from_char_idx(2), (0, 2));
    assert_eq!(e.position_from_char_idx(10), (3, 3));
    assert_eq!(e.char_idx_from_position(3, 1), 8);
    assert_eq!(e.char_idx_from_position(9, 0), 10);
    assert_eq!(e.char_idx_from_position(0, 99), 3);
}

#[test]
fn goto_menu_absorbs_next_key() {
    let mut e = editor_with("one\ntwo\nthree");
    press(&mut e, Key::Char('g'));
    assert!(e.is_waiting_for_command());
    press(&mut e, Key::Char('e'));
    assert!(!e.is_waiting_for_command());
    assert_eq!(e.get_cursor_position(), (2, 5));
    press(&mut e, Key::Char('g'));
    press(&mut e, Key::Char('g'));
    assert_eq!(e.get_cursor_position(), (0, 0));
    press(&mut e, Key::Char('g'));
    press(&mut e, Key::Char('l'));
    assert_eq!(e.get_cursor_position(), (0, 3));
    press(&mut e, Key::Char('g'));
    press(&mut e, Key::Char('z'));
    assert!(!e.is_waiting_for_command());
    assert_eq!(e.get_content(), "one\ntwo\nthree");
}

#[test]
fn file_menu_commands() {
    let mut e = editor_with("text");
    press(&mut e, Key::Char(' '));
    assert!(e.is_waiting_for_command());
    match press(&mut e, Key::Char('s')) {
        Effect::Save(c) => assert_eq!(c, "text"),
        other => panic!("expected a save, got {:?}", other),
    }
    press(&mut e, Key::Char(' '));
    assert!(matches!(press(&mut e, Key::Char('q')), Effect::Quit));
    press(&mut e, Key::Char(' '));
    assert!(matches!(press(&mut e, Key::Char('l')), Effect::ListFiles));
    press(&mut e, Key::Char(' '));
    match press(&mut e, Key::Char('w')) {
        Effect::Save(c) => assert_eq!(c, ""),
        other => panic!("expected a save, got {:?}", other),
    }
    assert_eq!(e.get_content(), "");
}

#[test]
fn file_picker_load_flow() {
    let mut e = editor_with("x");
    e.open_file_picker(vec!["a.md".to_string(), "b.md".to_string()]);
    press(&mut e, Key::Up);
    assert_eq!(e.menu_status().file_picker_selected_index(), 0);
    press(&mut e, Key::Down);
    press(&mut e, Key::Down);
    assert_eq!(e.menu_status().file_picker_selected_index(), 1);
    match press(&mut e, Key::Enter) {
        Effect::Load(name) => assert_eq!(name, "b.md"),
        other => panic!("expected a load, got {:?}", other),
    }
    assert!(!e.menu_status().is_file_picker_active());
    e.load_content("loaded", "b.md".to_string());
    assert_eq!(e.get_content(), "loaded");
    assert_eq!(e.get_file_name(), Some("b.md"));
    assert!(!e.is_modified());
}

#[test]
fn save_as_flow() {
    let mut e = editor_with("body");
    press(&mut e, Key::Char(' '));
    press(&mut e, Key::Char('S'));
    for c in " new.md".chars() {
        press(&mut e, Key::Char(c));
    }
    press(&mut e, Key::Left);
    press(&mut e, Key::Backspace);
    assert_eq!(e.menu_status().get_file_picker_input(), "new.d");
    press(&mut e, Key::Right);
    match press(&mut e, Key::Enter) {
        Effect::SaveAs(name, content) => {
            assert_eq!(name, "new.d");
            assert_eq!(content, "body");
        }
        other => panic!("expected save-as, got {:?}", other),
    }
    assert!(!e.menu_status().is_file_picker_active());
}

#[test]
fn select_line_command_extends() {
    let mut e = editor_with("aa\nbbb\ncc");
    press(&mut e, Key::Char('x'));
    assert_eq!(*e.get_mode(), Mode::Select);
    assert_eq!(e.get_cursor_position(), (0, 2));
    press(&mut e, Key::Char('x'));
    assert_eq!(e.get_cursor_position(), (1, 3));
    let r = e.get_selection_range().unwrap();
    assert_eq!((r.start, r.end), (0, 6));
}

#[test]
fn paste_inserts_and_moves_past() {
    let mut e = editor_with("ad");
    press(&mut e, Key::Right);
    assert!(matches!(press(&mut e, Key::Char('p')), Effect::Paste));
    e.paste_text("bc\nx");
    assert_eq!(e.get_content(), "abc\nxd");
    assert_eq!(e.get_cursor_position(), (1, 1));
}

#[test]
fn ai_menu_submits_whole_text() {
    let mut e = editor_with("question");
    press(&mut e, Key::Char('"'));
    match press(&mut e, Key::Char('o')) {
        Effect::Submit(content, model) => {
            assert_eq!(content, "question");
            assert_eq!(model, Model::OPENAI);
        }
        other => panic!("expected a submit, got {:?}", other),
    }
    assert!(e.is_awaiting_response());
}

#[test]
fn empty_submission_is_refused() {
    let mut state = EditorState::new();
    let handler = AsyncCommandHandler::new(ChatContext::new().unwrap());
    let req = handler.send_to_api(&mut state, String::new(), Model::OLLAMA);
    assert!(req.is_none());
    assert_eq!(
        state.request_state,
        RequestState::Error("Cannot send empty buffer. Please write the question".to_string())
    );
}

#[test]
fn submission_while_processing_is_ignored() {
    let mut state = EditorState::new();
    let handler = AsyncCommandHandler::new(ChatContext::new().unwrap());
    let first = handler.send_to_api(&mut state, "q".to_string(), Model::OPENAI).unwrap();
    assert_eq!(first.content, "q");
    assert_eq!(state.request_state, RequestState::Processing);
    assert!(handler.send_to_api(&mut state, "again".to_string(), Model::OPENAI).is_none());
    assert_eq!(state.request_state, RequestState::Processing);
}

#[test]
fn response_appends_at_consumption_time() {
    let mut e = editor_with("Q");
    let mut state = EditorState::new();
    press(&mut e, Key::Char('"'));
    let content = match press(&mut e, Key::Char('l')) {
        Effect::Submit(c, _) => c,
        other => panic!("expected a submit, got {:?}", other),
    };
    assert!(state.begin_request(&content));
    // the user keeps typing at the end
    press(&mut e, Key::Char('i'));
    press(&mut e, Key::Right);
    press(&mut e, Key::Char('Y'));
    state.finish_request(Ok("X".to_string()));
    assert_eq!(state.request_state, RequestState::Idle);
    let resp = state.take_response();
    assert!(state.take_response().is_none());
    e.check_api_responses(resp);
    assert_eq!(e.get_content(), "QY\n\nAssistant\n X");
    assert_eq!(e.get_cursor_position(), (3, 2));
    assert!(!e.is_awaiting_response());
}

#[test]
fn failed_request_records_error() {
    let mut e = editor_with("Q");
    let mut state = EditorState::new();
    press(&mut e, Key::Char('"'));
    press(&mut e, Key::Char('a'));
    state.finish_request(Err("timeout".to_string()));
    assert_eq!(state.request_state, RequestState::Error("timeout".to_string()));
    let resp = state.take_response();
    e.check_api_responses(resp);
    assert_eq!(e.get_content(), "Q");
    assert!(!e.is_awaiting_response());
}

#[test]
fn highlight_line_caches_and_invalidation_recomputes() {
    let mut e = editor_with("fn x\nlet y");
    e.set_syntax_highlights(vec![
        Highlight { start: 0, end: 2, style: Style::Keyword },
        Highlight { start: 5, end: 8, style: Style::Keyword },
    ]);
    let l0 = e.highlight_line(0);
    assert_eq!(l0, vec![Style::Keyword, Style::Keyword, Style::Normal, Style::Normal, Style::Normal]);
    assert!(e.syntax_cache_is_line_cached(0));
    assert_eq!(e.get_style_at(1), Style::Keyword);
    assert_eq!(e.get_style_at(3), Style::Normal);
    // a cached line answers from the cache
    e.set_syntax_cache_line_styles(1, vec![Style::Comment; 5]);
    assert_eq!(e.get_style_at(5), Style::Comment);
    e.invalidate_line(1);
    assert!(!e.syntax_cache_is_line_cached(1));
    assert!(e.syntax_cache_is_line_cached(0));
    assert_eq!(e.get_style_at(5), Style::Keyword);
    assert!(e.syntax_cache_is_line_cached(1));
}

#[test]
fn selection_takes_precedence_over_cached_style() {
    let mut e = editor_with("abc");
    e.set_syntax_highlights(vec![Highlight { start: 0, end: 3, style: Style::String }]);
    assert_eq!(e.get_style_at(0), Style::String);
    press(&mut e, Key::Char('v'));
    press(&mut e, Key::Right);
    assert_eq!(e.get_style_at(0), Style::Selection);
    assert_eq!(e.get_style_for_position(0, 1), Style::String);
}

#[test]
fn editing_invalidates_cached_lines() {
    let mut e = editor_with("ab\ncd\nef");
    e.highlight_line(0);
    e.highlight_line(1);
    e.highlight_line(2);
    press(&mut e, Key::Char('j'));
    press(&mut e, Key::Char('i'));
    press(&mut e, Key::Char('z'));
    assert!(e.syntax_cache_is_line_cached(0));
    assert!(!e.syntax_cache_is_line_cached(1));
    assert!(e.syntax_cache_is_line_cached(2));
    press(&mut e, Key::Enter);
    assert!(e.syntax_cache_is_line_cached(0));
    assert!(!e.syntax_cache_is_line_cached(2));
}

#[test]
fn help_content_follows_menu() {
    let mut e = editor_with("");
    assert_eq!(e.get_help_content(), (None, None));
    press(&mut e, Key::Char('g'));
    let (title, lines) = e.get_help_content();
    assert_eq!(title, Some("Go to".to_string()));
    assert_eq!(lines.unwrap().len(), 4);
    assert!(!e.is_help_popup_active());
    e.toggle_help_popup();
    assert!(e.is_help_popup_active());
}

#[test]
fn pending_response_lands_after_later_typing() {
    let mut e = editor_with("text");
    press(&mut e, Key::Char('"'));
    press(&mut e, Key::Char('o'));
    press(&mut e, Key::Char('g'));
    press(&mut e, Key::Char('e'));
    press(&mut e, Key::Char('i'));
    press(&mut e, Key::Char('Y'));
    e.check_api_responses(Some(rusty_editor::async_handler::ApiResponse {
        content: "X".to_string(),
        error: None,
    }));
    assert_eq!(e.get_content(), "textYX");
    assert_eq!(e.get_cursor_position(), (0, 6));
    // consumed once: a later poll changes nothing
    e.check_api_responses(Some(rusty_editor::async_handler::ApiResponse {
        content: "Z".to_string(),
        error: None,
    }));
    assert_eq!(e.get_content(), "textYX");
}

#[test]
fn editing_one_of_ten_lines_recomputes_only_it() {
    let mut e = editor_with("l0\nl1\nl2\nl3\nl4\nl5\nl6\nl7\nl8\nl9");
    for line in 0..10 {
        e.highlight_line(line);
    }
    e.set_syntax_cache_line_styles(3, vec![Style::Error; 3]);
    e.invalidate_line(3);
    for line in (0..3).chain(4..10) {
        assert!(e.syntax_cache_is_line_cached(line));
        assert_eq!(e.get_syntax_cache_cached_style(line, 0), Some(Style::Normal));
    }
    assert!(!e.syntax_cache_is_line_cached(3));
    assert_eq!(e.get_syntax_cache_cached_style(3, 0), None);
    assert_eq!(e.highlight_line(3), vec![Style::Normal; 3]);
    assert!(e.syntax_cache_is_line_cached(3));
}

#[test]
fn dirty_lines_and_refresh() {
    let mut e = editor_with("a\nb");
    e.highlight_line(0);
    assert!(!e.get_syntax_cache_dirty_lines(0));
    e.invalidate_syntax_at_line(0);
    assert!(e.get_syntax_cache_dirty_lines(0));
    assert!(e.get_syntax_cache_dirty_lines(1));
    e.highlight_line(1);
    e.refresh_display();
    assert!(!e.syntax_cache_is_line_cached(1));
    assert!(e.highlights_stale());
    let handler = AsyncCommandHandler::new(ChatContext::new().unwrap());
    handler.request_lsp_completion((0, 0));
}

#[test]
fn menu_takes_paste_keys_too() {
    let mut e = editor_with("abc");
    press(&mut e, Key::Char('g'));
    assert!(matches!(press(&mut e, Key::Char('p')), Effect::Nothing));
    assert!(!e.is_waiting_for_command());
    assert_eq!(e.get_content(), "abc");
    assert_eq!(e.get_cursor_position(), (0, 0));
}

#[test]
fn save_as_input_takes_p() {
    let mut e = editor_with("abc");
    press(&mut e, Key::Char(' '));
    press(&mut e, Key::Char('S'));
    press(&mut e, Key::Char('p'));
    assert_eq!(e.menu_status().get_file_picker_input(), "p");
}

#[test]
fn load_picker_ignores_other_keys() {
    let mut e = editor_with("x");
    e.open_file_picker(vec!["a".to_string()]);
    assert!(matches!(press(&mut e, Key::Char('q')), Effect::Nothing));
    assert!(e.menu_status().is_file_picker_active());
    press(&mut e, Key::Esc);
    assert!(!e.menu_status().is_file_picker_active());
    assert_eq!(e.get_content(), "x");
}

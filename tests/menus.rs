use rusty_editor::chat::{ChatContext, History, Model};
use rusty_editor::filepicker::{Action, FilePicker};
use rusty_editor::menu::{CommandsMenu, MenuType};

#[test]
fn picker_selection_is_clamped() {
    let mut p = FilePicker::new();
    p.init_file_picker(vec!["a".to_string(), "b".to_string(), "c".to_string()]);
    assert_eq!(p.state(), (true, Action::Load));
    p.move_file_picker_up();
    assert_eq!(p.get_selected_file_index(), 0);
    for _ in 0..5 {
        p.move_file_picker_down();
    }
    assert_eq!(p.get_selected_file_index(), 2);
    assert_eq!(p.get_selected_file(), Some(&"c".to_string()));
    p.reset();
    assert_eq!(p.state(), (false, Action::Idle));
    assert_eq!(p.get_selected_file(), None);
    assert!(p.get_files().is_empty());
}

#[test]
fn picker_input_editing() {
    let mut p = FilePicker::new();
    p.init_file_save_as();
    assert!(p.is_input_empty());
    for c in "abc".chars() {
        p.insert_char(c);
    }
    assert_eq!(p.cursor_pos(), 3);
    p.move_cursor_pos_left();
    p.move_cursor_pos_left();
    p.delete_current_char();
    assert_eq!(p.get_input(), "ac");
    p.delete_previous_char();
    assert_eq!(p.get_input(), "c");
    assert_eq!(p.cursor_pos(), 0);
    p.delete_previous_char();
    assert_eq!(p.get_input(), "c");
    p.move_cursor_pos_right();
    p.move_cursor_pos_right();
    assert_eq!(p.cursor_pos(), 1);
    p.insert_char(' ');
    assert_eq!(p.get_input(), "c");
    p.remove_char(0);
    assert_eq!(p.cursor_pos(), 1);
    p.set_active();
    assert_eq!(p.state(), (true, Action::Save));
}

#[test]
fn menu_titles_and_help() {
    let mut m = CommandsMenu::new();
    assert_eq!(m.show_menu(), (None, None));
    assert!(!m.is_active_menu());
    m.set_active_menu(MenuType::File).unwrap();
    assert!(m.is_active(MenuType::File));
    assert!(!m.is_active(MenuType::AI));
    let (title, lines) = m.show_menu();
    assert_eq!(title, Some("File".to_string()));
    assert_eq!(lines.unwrap()[3], "S - Save as");
    m.set_active_menu(MenuType::AI).unwrap();
    assert_eq!(m.show_menu().1.unwrap()[0], "l - Send request to Ollama");
    m.set_active_menu(MenuType::Main).unwrap();
    assert_eq!(m.show_menu(), (Some("Main".to_string()), Some(vec![])));
    m.reset();
    assert!(!m.is_active_menu());
    assert!(!m.file_picker_state(Action::Load));
    assert_eq!(MenuType::GoTo.name(), "Go to");
}

#[test]
fn models_and_history_paths() {
    assert_eq!(ChatContext::new().unwrap().model, Model::OPENAI);
    assert_eq!(Model::OLLAMA.api_name(), Some("qwen3:32b-q4_K_M".to_string()));
    assert_eq!(Model::ANTROPIC.api_name(), None);
    assert_eq!(Model::OPENAI.label(), "OPENAI");
    let h = History { root: ".rusty".to_string(), file_path: "x.md".to_string() };
    assert_eq!(h.path_in_root("y.md"), ".rusty/y.md");
}

#[test]
fn picker_cursor_through_menu() {
    let mut m = CommandsMenu::new();
    m.file_picker.init_file_save_as();
    m.file_picker.insert_char('a');
    m.file_picker.insert_char('b');
    assert_eq!(m.get_file_picker_cursor_position(), 2);
    assert!(m.file_picker_state(Action::Save));
    assert!(m.is_file_picker_active());
}

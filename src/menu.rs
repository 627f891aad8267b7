//! The sub-command menus and the file picker they own.

use crate::error::Error;
use crate::filepicker::{Action, FilePicker};
use vstd::prelude::*;

verus! {

/// Which sub-command menu captures the next key.
#[derive(Debug, Clone, Copy, PartialEq, Eq, Structural)]
pub enum MenuType {
    InActive,
    GoTo,
    Main,
    File,
    AI,
}

/// The title shown for a menu.
pub open spec fn menu_title(m: MenuType) -> Seq<char> {
    match m {
        MenuType::InActive => "In Active"@,
        MenuType::GoTo => "Go to"@,
        MenuType::Main => "Main"@,
        MenuType::File => "File"@,
        MenuType::AI => "AI"@,
    }
}

/// The help lines listed under a menu.
pub open spec fn menu_help(m: MenuType) -> Seq<Seq<char>> {
    match m {
        MenuType::GoTo => seq![
            "g - Goto first line"@,
            "e - Goto end last line"@,
            "l - Goto end of line"@,
            "h - Goto start of line"@,
        ],
        MenuType::AI => seq![
            "l - Send request to Ollama"@,
            "o - Send request to OpenAI"@,
            "a - Send request to Anthropic"@,
            "e - Exit"@,
        ],
        MenuType::File => seq![
            "w - Wipe buffer"@,
            "l - Load file"@,
            "s - Save"@,
            "S - Save as"@,
            "q - Exit editor"@,
        ],
        _ => seq![],
    }
}

/// The views of a list of strings.
pub open spec fn string_views(v: Seq<String>) -> Seq<Seq<char>> {
    v.map_values(|s: String| s@)
}

impl MenuType {
    /// The menu's title.
    pub fn name(&self) -> (r: String)
        ensures
            r@ == menu_title(*self),
    {
        match self {
            MenuType::InActive => "In Active".to_owned(),
            MenuType::GoTo => "Go to".to_owned(),
            MenuType::Main => "Main".to_owned(),
            MenuType::File => "File".to_owned(),
            MenuType::AI => "AI".to_owned(),
        }
    }
}

#[derive(Debug, Clone)]
pub struct CommandsMenu {
    pub menu_type: MenuType,
    pub active: bool,
    pub file_picker: FilePicker,
}

impl CommandsMenu {
    pub open spec fn menu_type_spec(&self) -> MenuType {
        self.menu_type
    }

    pub open spec fn active_spec(&self) -> bool {
        self.active
    }

    pub open spec fn wf(&self) -> bool {
        self.file_picker.wf()
    }

    pub fn new() -> (r: Self)
        ensures
            r.wf(),
            r.menu_type_spec() == MenuType::InActive,
            !r.active_spec(),
            !r.file_picker.active_spec(),
            r.file_picker.action_spec() == Action::Idle,
    {
        CommandsMenu { menu_type: MenuType::InActive, active: false, file_picker: FilePicker::new() }
    }

    /// The help lines of a menu, as strings.
    pub fn vec_string_from_slice(&self, m: MenuType) -> (r: Vec<String>)
        ensures
            string_views(r@) == menu_help(m),
    {
        let mut v: Vec<String> = Vec::new();
        match m {
            MenuType::GoTo => {
                v.push("g - Goto first line".to_owned());
                v.push("e - Goto end last line".to_owned());
                v.push("l - Goto end of line".to_owned());
                v.push("h - Goto start of line".to_owned());
            },
            MenuType::AI => {
                v.push("l - Send request to Ollama".to_owned());
                v.push("o - Send request to OpenAI".to_owned());
                v.push("a - Send request to Anthropic".to_owned());
                v.push("e - Exit".to_owned());
            },
            MenuType::File => {
                v.push("w - Wipe buffer".to_owned());
                v.push("l - Load file".to_owned());
                v.push("s - Save".to_owned());
                v.push("S - Save as".to_owned());
                v.push("q - Exit editor".to_owned());
            },
            _ => {},
        }
        assert(string_views(v@) =~= menu_help(m));
        v
    }

    /// Whether the file picker is open.
    pub fn is_file_picker_active(&self) -> (r: bool)
        ensures
            r == self.file_picker.active_spec(),
    {
        let (state, _action) = self.file_picker.state();
        state
    }

    /// Whether the file picker is open for `action`.
    pub fn file_picker_state(&self, action: Action) -> (r: bool)
        ensures
            r == (self.file_picker.active_spec() && self.file_picker.action_spec() == action),
    {
        let (state, current_action) = self.file_picker.state();
        state && action == current_action
    }

    /// The title and help lines of the current menu; none when no menu is
    /// selected.
    pub fn show_menu(&self) -> (r: (Option<String>, Option<Vec<String>>))
        ensures
            self.menu_type_spec() == MenuType::InActive ==> r.0.is_none() && r.1.is_none(),
            self.menu_type_spec() != MenuType::InActive ==> r.0.is_some() && r.1.is_some()
                && r.0.unwrap()@ == menu_title(self.menu_type_spec()) && string_views(
                r.1.unwrap()@,
            ) == menu_help(self.menu_type_spec()),
    {
        match self.menu_type {
            MenuType::InActive => (None, None),
            _ => {
                let lines = self.vec_string_from_slice(self.menu_type);
                (Some(self.menu_type.name()), Some(lines))
            },
        }
    }

    /// Whether some menu waits for its key.
    pub fn is_active_menu(&self) -> (r: bool)
        ensures
            r == self.active_spec(),
    {
        self.active
    }

    /// Selects a menu and marks it waiting for its key.
    pub fn set_active_menu(&mut self, m: MenuType) -> (r: Result<(), Error>)
        requires
            old(self).wf(),
        ensures
            final(self).wf(),
            r is Ok,
            final(self).menu_type_spec() == m,
            final(self).active_spec(),
            final(self).file_picker == old(self).file_picker,
    {
        self.menu_type = m;
        self.active = true;
        Ok(())
    }

    /// Whether menu `m` is the one waiting for its key.
    pub fn is_active(&self, m: MenuType) -> (r: bool)
        ensures
            r == (self.active_spec() && self.menu_type_spec() == m),
    {
        self.active && m == self.menu_type
    }

    pub fn get_file_picker_input(&self) -> (r: String)
        ensures
            r@ == crate::filepicker::trim_of(self.file_picker.input_spec()),
    {
        self.file_picker.get_input()
    }

    pub fn get_file_picker_cursor_position(&self) -> (r: usize)
        ensures
            r == self.file_picker.cursor_spec(),
    {
        self.file_picker.cursor_pos()
    }

    pub fn get_file_picker_files(&self) -> (r: &Vec<String>)
        ensures
            r@ == self.file_picker.files_spec(),
    {
        self.file_picker.get_files()
    }

    pub fn file_picker_selected_index(&self) -> (r: usize)
        ensures
            r == self.file_picker.index_spec(),
    {
        self.file_picker.get_selected_file_index()
    }

    /// Closes any menu and the file picker, clearing their inputs.
    pub fn reset(&mut self)
        ensures
            final(self).wf(),
            final(self).menu_type_spec() == MenuType::InActive,
            !final(self).active_spec(),
            !final(self).file_picker.active_spec(),
            final(self).file_picker.action_spec() == Action::Idle,
            final(self).file_picker.files_spec().len() == 0,
            final(self).file_picker.input_spec().len() == 0,
            final(self).file_picker.index_spec() == 0,
            final(self).file_picker.cursor_spec() == 0,
            final(self).file_picker.wf(),
    {
        self.menu_type = MenuType::InActive;
        self.active = false;
        self.file_picker.reset();
    }
}

impl Default for CommandsMenu {
    fn default() -> (r: Self)
        ensures
            r.wf(),
            r.menu_type_spec() == MenuType::InActive,
            !r.active_spec(),
            !r.file_picker.active_spec(),
    {
        Self::new()
    }
}

} // verus!

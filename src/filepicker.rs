//! The file picker: a list of files to load from, or a one-line file name
//! being typed in to save under.

use crate::text::string_of_chars;
use vstd::prelude::*;

verus! {

/// What the picker is open for.
#[derive(Debug, Clone, Copy, PartialEq, Eq, Structural)]
pub enum Action {
    Idle,
    Load,
    Save,
}

/// Whether `c` is white space (the Unicode `White_Space` property).
pub open spec fn is_space(c: char) -> bool {
    let v = c as u32;
    (0x9 <= v <= 0xD) || v == 0x20 || v == 0x85 || v == 0xA0 || v == 0x1680 || (0x2000 <= v
        <= 0x200A) || v == 0x2028 || v == 0x2029 || v == 0x202F || v == 0x205F || v == 0x3000
}

fn is_space_exec(c: char) -> (r: bool)
    ensures
        r == is_space(c),
{
    let v = c as u32;
    (0x9 <= v && v <= 0xD) || v == 0x20 || v == 0x85 || v == 0xA0 || v == 0x1680 || (0x2000 <= v
        && v <= 0x200A) || v == 0x2028 || v == 0x2029 || v == 0x202F || v == 0x205F || v == 0x3000
}

/// `s` without its leading white space.
pub open spec fn trim_start(s: Seq<char>) -> Seq<char>
    decreases s.len(),
{
    if s.len() > 0 && is_space(s[0]) {
        trim_start(s.drop_first())
    } else {
        s
    }
}

/// `s` without its trailing white space.
pub open spec fn trim_end(s: Seq<char>) -> Seq<char>
    decreases s.len(),
{
    if s.len() > 0 && is_space(s.last()) {
        trim_end(s.drop_last())
    } else {
        s
    }
}

/// `s` without leading and trailing white space.
pub open spec fn trim_of(s: Seq<char>) -> Seq<char> {
    trim_end(trim_start(s))
}

/// The chars of `v` without leading and trailing white space.
pub fn trim_chars(v: &Vec<char>) -> (r: Vec<char>)
    ensures
        r@ == trim_of(v@),
{
    let n = v.len();
    let mut a: usize = 0;
    assert(v@.subrange(0, n as int) =~= v@);
    while a < n && is_space_exec(v[a])
        invariant
            a <= n,
            n == v@.len(),
            trim_start(v@) == trim_start(v@.subrange(a as int, n as int)),
        decreases n - a,
    {
        assert(v@.subrange(a as int, n as int).drop_first() =~= v@.subrange(a + 1, n as int));
        a = a + 1;
    }
    let mut b: usize = n;
    let ghost t = v@.subrange(a as int, n as int);
    assert(trim_start(v@) == t);
    assert(t.subrange(0, t.len() as int) =~= t);
    while b > a && is_space_exec(v[b - 1])
        invariant
            a <= b <= n,
            n == v@.len(),
            t == v@.subrange(a as int, n as int),
            trim_end(t) == trim_end(v@.subrange(a as int, b as int)),
        decreases b - a,
    {
        assert(v@.subrange(a as int, b as int).drop_last() =~= v@.subrange(a as int, b - 1));
        b = b - 1;
    }
    let mut r: Vec<char> = Vec::new();
    let mut i: usize = a;
    while i < b
        invariant
            a <= i <= b,
            b <= n,
            n == v@.len(),
            r@ == v@.subrange(a as int, i as int),
        decreases b - i,
    {
        r.push(v[i]);
        i = i + 1;
        assert(r@ =~= v@.subrange(a as int, i as int));
    }
    r
}

#[derive(Debug, Clone)]
pub struct FilePicker {
    pub action: Action,
    pub active: bool,
    pub files: Vec<String>,
    pub files_selected_index: usize,
    pub input: Vec<char>,
    pub cursor_pos: usize,
}

impl FilePicker {
    pub open spec fn action_spec(&self) -> Action {
        self.action
    }

    pub open spec fn active_spec(&self) -> bool {
        self.active
    }

    pub open spec fn files_spec(&self) -> Seq<String> {
        self.files@
    }

    pub open spec fn index_spec(&self) -> usize {
        self.files_selected_index
    }

    pub open spec fn input_spec(&self) -> Seq<char> {
        self.input@
    }

    pub open spec fn cursor_spec(&self) -> usize {
        self.cursor_pos
    }

    /// The selection lies in the list (or is 0 on an empty list) and the
    /// cursor lies in the input.
    pub open spec fn wf(&self) -> bool {
        &&& (self.files_selected_index == 0 || self.files_selected_index < self.files@.len())
        &&& self.cursor_pos <= self.input@.len()
    }

    pub fn new() -> (r: Self)
        ensures
            r.wf(),
            r.action_spec() == Action::Idle,
            !r.active_spec(),
            r.files_spec().len() == 0,
            r.index_spec() == 0,
            r.input_spec().len() == 0,
            r.cursor_spec() == 0,
    {
        FilePicker {
            action: Action::Idle,
            active: false,
            files_selected_index: 0,
            files: Vec::new(),
            cursor_pos: 0,
            input: Vec::new(),
        }
    }

    /// Whether the picker is open, and for what.
    pub fn state(&self) -> (r: (bool, Action))
        ensures
            r == (self.active_spec(), self.action_spec()),
    {
        (self.active, self.action)
    }

    /// Opens the picker for loading, over the given files, with the first
    /// one selected.
    pub fn init_file_picker(&mut self, files: Vec<String>)
        requires
            old(self).wf(),
        ensures
            final(self).wf(),
            final(self).files_spec() == files@,
            final(self).index_spec() == 0,
            final(self).active_spec(),
            final(self).action_spec() == Action::Load,
            final(self).input_spec() == old(self).input_spec(),
            final(self).cursor_spec() == old(self).cursor_spec(),
    {
        self.files = files;
        self.files_selected_index = 0;
        self.active = true;
        self.action = Action::Load;
    }

    /// Opens the picker for saving, with an empty name.
    pub fn init_file_save_as(&mut self)
        requires
            old(self).wf(),
        ensures
            final(self).wf(),
            final(self).active_spec(),
            final(self).action_spec() == Action::Save,
            final(self).input_spec().len() == 0,
            final(self).cursor_spec() == 0,
            final(self).files_spec() == old(self).files_spec(),
            final(self).index_spec() == old(self).index_spec(),
    {
        self.active = true;
        self.action = Action::Save;
        self.input.clear();
        self.cursor_pos = 0;
    }

    /// Moves the selection up one entry, staying at the first.
    pub fn move_file_picker_up(&mut self)
        requires
            old(self).wf(),
        ensures
            final(self).wf(),
            final(self).index_spec() == if old(self).index_spec() > 0 {
                (old(self).index_spec() - 1) as usize
            } else {
                0
            },
            final(self).files_spec() == old(self).files_spec(),
            final(self).active_spec() == old(self).active_spec(),
            final(self).action_spec() == old(self).action_spec(),
            final(self).input_spec() == old(self).input_spec(),
            final(self).cursor_spec() == old(self).cursor_spec(),
    {
        if self.files_selected_index > 0 {
            self.files_selected_index -= 1;
        }
    }

    /// Moves the selection down one entry, staying at the last.
    pub fn move_file_picker_down(&mut self)
        requires
            old(self).wf(),
        ensures
            final(self).wf(),
            final(self).index_spec() == if old(self).index_spec() + 1 < old(self).files_spec().len() {
                (old(self).index_spec() + 1) as usize
            } else {
                old(self).index_spec()
            },
            final(self).files_spec() == old(self).files_spec(),
            final(self).active_spec() == old(self).active_spec(),
            final(self).action_spec() == old(self).action_spec(),
            final(self).input_spec() == old(self).input_spec(),
            final(self).cursor_spec() == old(self).cursor_spec(),
    {
        if self.files_selected_index < self.files.len() && self.files_selected_index + 1
            < self.files.len() {
            self.files_selected_index += 1;
        }
    }

    /// The selected file, if the list is not empty.
    pub fn get_selected_file(&self) -> (r: Option<&String>)
        ensures
            self.index_spec() < self.files_spec().len() ==> r == Some(
                &self.files_spec()[self.index_spec() as int],
            ),
            self.index_spec() >= self.files_spec().len() ==> r.is_none(),
    {
        if self.files_selected_index < self.files.len() {
            Some(&self.files[self.files_selected_index])
        } else {
            None
        }
    }

    pub fn get_files(&self) -> (r: &Vec<String>)
        ensures
            r@ == self.files_spec(),
    {
        &self.files
    }

    pub fn get_selected_file_index(&self) -> (r: usize)
        ensures
            r == self.index_spec(),
    {
        self.files_selected_index
    }

    pub fn set_active(&mut self)
        requires
            old(self).wf(),
        ensures
            final(self).wf(),
            final(self).active_spec(),
            final(self).action_spec() == old(self).action_spec(),
            final(self).files_spec() == old(self).files_spec(),
            final(self).index_spec() == old(self).index_spec(),
            final(self).input_spec() == old(self).input_spec(),
            final(self).cursor_spec() == old(self).cursor_spec(),
    {
        self.active = true;
    }

    /// Closes the picker and clears its list and input.
    pub fn reset(&mut self)
        ensures
            final(self).wf(),
            !final(self).active_spec(),
            final(self).action_spec() == Action::Idle,
            final(self).files_spec().len() == 0,
            final(self).index_spec() == 0,
            final(self).input_spec().len() == 0,
            final(self).cursor_spec() == 0,
    {
        self.active = false;
        self.files.clear();
        self.files_selected_index = 0;
        self.input.clear();
        self.cursor_pos = 0;
        self.action = Action::Idle;
    }

    /// The typed-in name without surrounding white space.
    pub fn get_input(&self) -> (r: String)
        ensures
            r@ == trim_of(self.input_spec()),
            self.input_spec().len() == 0 ==> r@.len() == 0,
    {
        let t = trim_chars(&self.input);
        string_of_chars(&t)
    }

    pub fn cursor_pos(&self) -> (r: usize)
        ensures
            r == self.cursor_spec(),
    {
        self.cursor_pos
    }

    pub fn is_input_empty(&self) -> (r: bool)
        ensures
            r == (self.input_spec().len() == 0),
    {
        self.input.len() == 0
    }

    /// Inserts `c` at the cursor and moves the cursor past it.
    pub fn insert_char(&mut self, c: char)
        requires
            old(self).wf(),
        ensures
            final(self).wf(),
            final(self).input_spec() == old(self).input_spec().insert(
                old(self).cursor_spec() as int,
                c,
            ),
            final(self).cursor_spec() == old(self).cursor_spec() + 1,
            final(self).files_spec() == old(self).files_spec(),
            final(self).index_spec() == old(self).index_spec(),
            final(self).active_spec() == old(self).active_spec(),
            final(self).action_spec() == old(self).action_spec(),
    {
        self.input.insert(self.cursor_pos, c);
        let _n: usize = self.input.len();
        self.cursor_pos = self.cursor_pos + 1;
    }

    /// Removes the character before the cursor, if any, and moves the
    /// cursor back over it.
    pub fn delete_previous_char(&mut self)
        requires
            old(self).wf(),
        ensures
            final(self).wf(),
            old(self).cursor_spec() > 0 ==> final(self).input_spec() == old(self).input_spec().remove(old(self).cursor_spec() - 1) && final(self).cursor_spec()
                == old(self).cursor_spec() - 1,
            old(self).cursor_spec() == 0 ==> final(self).input_spec() == old(self).input_spec()
                && final(self).cursor_spec() == 0,
            final(self).files_spec() == old(self).files_spec(),
            final(self).index_spec() == old(self).index_spec(),
            final(self).active_spec() == old(self).active_spec(),
            final(self).action_spec() == old(self).action_spec(),
    {
        if self.cursor_pos > 0 && self.input.len() > 0 {
            self.input.remove(self.cursor_pos - 1);
            self.cursor_pos = self.cursor_pos - 1;
        }
    }

    /// Removes the character under the cursor, if any.
    pub fn delete_current_char(&mut self)
        requires
            old(self).wf(),
        ensures
            final(self).wf(),
            old(self).cursor_spec() < old(self).input_spec().len() ==> final(self).input_spec()
                == old(self).input_spec().remove(old(self).cursor_spec() as int),
            old(self).cursor_spec() >= old(self).input_spec().len() ==> final(self).input_spec()
                == old(self).input_spec(),
            final(self).cursor_spec() == old(self).cursor_spec(),
            final(self).files_spec() == old(self).files_spec(),
            final(self).index_spec() == old(self).index_spec(),
            final(self).active_spec() == old(self).active_spec(),
            final(self).action_spec() == old(self).action_spec(),
    {
        if self.cursor_pos < self.input.len() {
            self.input.remove(self.cursor_pos);
        }
    }

    /// Removes the character at `pos`, which must lie in the input; the
    /// cursor is kept within the input.
    pub fn remove_char(&mut self, pos: usize)
        requires
            old(self).wf(),
            pos < old(self).input_spec().len(),
        ensures
            final(self).wf(),
            final(self).input_spec() == old(self).input_spec().remove(pos as int),
            final(self).cursor_spec() == if old(self).cursor_spec() > final(self).input_spec().len() {
                final(self).input_spec().len() as usize
            } else {
                old(self).cursor_spec()
            },
            final(self).files_spec() == old(self).files_spec(),
            final(self).index_spec() == old(self).index_spec(),
            final(self).active_spec() == old(self).active_spec(),
            final(self).action_spec() == old(self).action_spec(),
    {
        self.input.remove(pos);
        if self.cursor_pos > self.input.len() {
            self.cursor_pos = self.input.len();
        }
    }

    /// Moves the cursor one character left, staying at the start.
    pub fn move_cursor_pos_left(&mut self)
        requires
            old(self).wf(),
        ensures
            final(self).wf(),
            final(self).cursor_spec() == if old(self).cursor_spec() > 0 {
                (old(self).cursor_spec() - 1) as usize
            } else {
                0
            },
            final(self).input_spec() == old(self).input_spec(),
            final(self).files_spec() == old(self).files_spec(),
            final(self).index_spec() == old(self).index_spec(),
            final(self).active_spec() == old(self).active_spec(),
            final(self).action_spec() == old(self).action_spec(),
    {
        if self.cursor_pos > 0 {
            self.cursor_pos -= 1;
        }
    }

    /// Moves the cursor one character right, staying at the end.
    pub fn move_cursor_pos_right(&mut self)
        requires
            old(self).cursor_spec() <= old(self).input_spec().len(),
        ensures
            final(self).cursor_spec() <= final(self).input_spec().len(),
            final(self).cursor_spec() == if old(self).cursor_spec() < old(self).input_spec().len() {
                (old(self).cursor_spec() + 1) as usize
            } else {
                old(self).cursor_spec()
            },
            final(self).input_spec() == old(self).input_spec(),
            final(self).files_spec() == old(self).files_spec(),
            final(self).index_spec() == old(self).index_spec(),
            final(self).active_spec() == old(self).active_spec(),
            final(self).action_spec() == old(self).action_spec(),
    {
        if self.cursor_pos < self.input.len() {
            self.cursor_pos += 1;
        }
    }
}

} // verus!

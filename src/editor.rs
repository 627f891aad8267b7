//! The editor: a text buffer with a cursor, a selection, a mode, the style
//! cache of its lines, and the modal key dispatcher.

use crate::async_handler::ApiResponse;
use crate::chat::{History, Model};
use crate::filepicker::{trim_of, Action};
use crate::highlight::{
    blocks_highlights, highlight_buffer, line_views, lines_bytes, lines_fit, scan_lines, ByteHighlight,
};
use crate::menu::{CommandsMenu, MenuType};
use crate::syntax::{
    highlight_style, style_of_char, style_query, Highlight, Style, SyntaxCache,
};
use crate::text::{
    byte_len, chars_within, content_len, lemma_char_in_its_line, lemma_line_order, lemma_line_start, lemma_sum_line_lens,
    line_count, line_len, line_of, line_start, nl_count, rope_char_to_line, rope_chars, rope_from_str,
    rope_byte_to_char, rope_insert, rope_insert_char, rope_len_bytes, rope_len_chars, rope_len_lines, rope_line_to_char, rope_new,
    rope_remove, rope_slice_chars, string_of_chars, rope_to_string, sum_line_lens,
};
use ropey::Rope;
use std::ops::Range;
use vstd::prelude::*;

verus! {

/// The editing mode.
#[derive(Debug, Clone, Copy, PartialEq, Eq, Structural)]
pub enum Mode {
    Normal,
    Insert,
    Select,
}

/// Char index of position `(row, col)`: the column is clamped to the line,
/// a row past the last line gives the end of the text.
pub open spec fn char_idx_spec(s: Seq<char>, row: int, col: int) -> int {
    if row >= line_count(s) {
        s.len() as int
    } else if col <= line_len(s, row) {
        line_start(s, row) + col
    } else {
        line_start(s, row) + line_len(s, row)
    }
}

/// Position `(row, col)` of char index `c`; from the end of the text on,
/// the end of the last line.
pub open spec fn position_spec(s: Seq<char>, c: int) -> (int, int) {
    if c >= s.len() {
        let last = line_count(s) - 1;
        (last, content_len(s, last))
    } else {
        (line_of(s, c) as int, c - line_start(s, line_of(s, c) as int))
    }
}

/// Whether `(row, col)` addresses a place in the text: an existing line,
/// and at most the line's length without its line feed.
pub open spec fn valid_position(s: Seq<char>, row: int, col: int) -> bool {
    0 <= row < line_count(s) && 0 <= col <= content_len(s, row)
}

/// Every char index up to the end of the text has a valid position.
pub proof fn lemma_position_valid(s: Seq<char>, c: int)
    requires
        0 <= c <= s.len(),
    ensures
        valid_position(s, position_spec(s, c).0, position_spec(s, c).1),
{
    if c >= s.len() {
        lemma_line_order(s, line_count(s) - 1);
    } else {
        lemma_char_in_its_line(s, c);
    }
}

/// Position and char index are mutual inverses: over valid positions, and
/// over char indices up to the end of the text.
pub proof fn lemma_position_round_trip(s: Seq<char>, row: int, col: int, c: int)
    requires
        valid_position(s, row, col),
        0 <= c <= s.len(),
    ensures
        position_spec(s, char_idx_spec(s, row, col)) == (row, col),
        char_idx_spec(s, position_spec(s, c).0, position_spec(s, c).1) == c,
{
    lemma_line_order(s, row);
    let i = line_start(s, row) + col;
    assert(char_idx_spec(s, row, col) == i);
    if i < s.len() {
        assert(line_of(s, i) == row);
    } else {
        // only the end of the last line reaches the end of the text
        if row + 1 < line_count(s) {
            lemma_line_start(s, row + 1);
            lemma_line_order(s, row + 1);
        }
        lemma_line_start(s, line_count(s) as int);
    }
    lemma_position_valid(s, c);
    if c >= s.len() {
        let last = line_count(s) - 1;
        lemma_line_order(s, last);
        lemma_line_start(s, line_count(s) as int);
    } else {
        lemma_char_in_its_line(s, c);
        lemma_line_order(s, line_of(s, c) as int);
    }
}

/// An empty text has one line, and `(0, 0)` is a valid position of every
/// text.
pub proof fn lemma_empty_and_origin(s: Seq<char>)
    ensures
        line_count(Seq::<char>::empty()) == 1,
        valid_position(s, 0, 0),
{
    lemma_line_order(s, 0);
}

/// The text's length is the sum of its lines' lengths, line feeds
/// included.
pub proof fn lemma_len_is_sum_of_lines(s: Seq<char>)
    ensures
        s.len() == sum_line_lens(s, line_count(s) as int),
{
    lemma_sum_line_lens(s, line_count(s) as int);
    lemma_line_start(s, line_count(s) as int);
}

/// The syntax styles of the chars of line `line`, line feed included.
pub open spec fn line_syntax_styles(s: Seq<char>, h: Seq<Highlight>, line: int) -> Seq<Style> {
    Seq::new(line_len(s, line) as nat, |i: int| highlight_style(h, line_start(s, line) + i))
}

/// The dirty lines after invalidating from `line` to `last`.
pub open spec fn dirty_from(d: Set<usize>, line: usize, last: usize) -> Set<usize> {
    d.union(Set::new(|l: usize| line <= l <= last))
}

/// A key as the dispatcher sees it.
#[derive(Debug, Clone, Copy, PartialEq, Eq, Structural)]
pub enum Key {
    Char(char),
    Up,
    Down,
    Left,
    Right,
    Enter,
    Backspace,
    Delete,
    Esc,
    Other,
}

/// The modifier keys held with a key.
#[derive(Debug, Clone, Copy, PartialEq, Eq, Structural)]
pub struct KeyModifiers {
    pub shift: bool,
    pub control: bool,
    pub alt: bool,
    pub meta: bool,
}

impl KeyModifiers {
    pub open spec fn none_held(&self) -> bool {
        !self.shift && !self.control && !self.alt && !self.meta
    }

    pub fn is_empty(&self) -> (r: bool)
        ensures
            r == self.none_held(),
    {
        !self.shift && !self.control && !self.alt && !self.meta
    }
}

/// Outside work a key asks for; the caller performs it and reports back.
#[derive(Debug, Clone)]
pub enum Effect {
    /// Nothing to do.
    Nothing,
    /// Leave the editor.
    Quit,
    /// Read the clipboard and hand the text to `paste_text`.
    Paste,
    /// Put this text on the clipboard, then call `finish_copy`.
    Copy(String),
    /// Write this content to the current file, then call `mark_saved`.
    Save(String),
    /// Save the content (second) under a new file name (first) in the
    /// history directory, then load it back with `load_content`.
    SaveAs(String, String),
    /// List the files to pick from and hand them to `open_file_picker`.
    ListFiles,
    /// Read this file from the history directory and hand it to
    /// `load_content`.
    Load(String),
    /// Send this content to this backend.
    Submit(String, Model),
}

pub struct Editor {
    buffer: Rope,
    cursor_row: usize,
    cursor_col: usize,
    mode: Mode,
    history: History,
    modified: bool,
    syntax_cache: SyntaxCache,
    syntax_highlights: Vec<Highlight>,
    highlights_stale: bool,
    selection_start: Option<(usize, usize)>,
    selection_active: bool,
    needs_response_check: bool,
    show_help_menu: bool,
    menu_status: CommandsMenu,
}

impl Editor {
    /// The text.
    pub closed spec fn text(&self) -> Seq<char> {
        rope_chars(self.buffer)
    }

    /// The cursor, as `(row, col)`.
    pub closed spec fn cursor(&self) -> (int, int) {
        (self.cursor_row as int, self.cursor_col as int)
    }

    pub closed spec fn mode_spec(&self) -> Mode {
        self.mode
    }

    pub closed spec fn modified_spec(&self) -> bool {
        self.modified
    }

    pub closed spec fn file_name_spec(&self) -> Seq<char> {
        self.history.file_path@
    }

    pub closed spec fn anchor(&self) -> Option<(usize, usize)> {
        self.selection_start
    }

    pub closed spec fn selecting(&self) -> bool {
        self.selection_active
    }

    pub closed spec fn cache(&self) -> SyntaxCache {
        self.syntax_cache
    }

    pub closed spec fn highlights(&self) -> Seq<Highlight> {
        self.syntax_highlights@
    }

    pub closed spec fn highlights_stale_spec(&self) -> bool {
        self.highlights_stale
    }

    pub closed spec fn awaiting_response(&self) -> bool {
        self.needs_response_check
    }

    pub closed spec fn menu(&self) -> CommandsMenu {
        self.menu_status
    }

    pub closed spec fn help_shown(&self) -> bool {
        self.show_help_menu
    }

    /// The cursor lies on the text, and the menus are well formed.
    pub closed spec fn wf(&self) -> bool {
        &&& valid_position(self.text(), self.cursor_row as int, self.cursor_col as int)
        &&& self.menu_status.wf()
    }

    /// The selected char range, when a selection is active.
    pub closed spec fn selection_spec(&self) -> Option<(int, int)> {
        if !self.selection_active || self.selection_start.is_none() {
            None
        } else {
            let (ar, ac) = self.selection_start.unwrap();
            let a = char_idx_spec(self.text(), ar as int, ac as int);
            let b = char_idx_spec(self.text(), self.cursor_row as int, self.cursor_col as int);
            if a <= b {
                Some((a, b))
            } else {
                Some((b, a))
            }
        }
    }

    /// A new editor on `history`'s file, holding a single line feed.
    pub fn new(history: History) -> (r: Self)
        ensures
            r.wf(),
            r.text() == seq!['\n'],
            r.cursor() == (0int, 0int),
            r.mode_spec() == Mode::Normal,
            !r.modified_spec(),
            r.file_name_spec() == history.file_path@,
            r.selection_spec().is_none(),
            r.no_menu(),
    {
        let mut buffer = rope_new();
        rope_insert_char(&mut buffer, 0, '\n');
        let ghost s = rope_chars(buffer);
        proof {
            assert(s =~= seq!['\n']);
            assert(s.drop_last() =~= Seq::<char>::empty());
            assert(nl_count(s.drop_last()) == 0);
            assert(nl_count(s) == 1);
            lemma_line_order(s, 0);
        }
        Editor {
            buffer,
            cursor_row: 0,
            cursor_col: 0,
            mode: Mode::Normal,
            history,
            modified: false,
            syntax_cache: SyntaxCache::new(),
            syntax_highlights: Vec::new(),
            highlights_stale: true,
            selection_start: None,
            selection_active: false,
            needs_response_check: false,
            show_help_menu: false,
            menu_status: CommandsMenu::new(),
        }
    }

    // ---- positions ----
    /// Length of line `row` without its line feed.
    fn line_content_len(&self, row: usize) -> (r: usize)
        requires
            row < line_count(self.text()),
        ensures
            r == content_len(self.text(), row as int),
    {
        proof {
            lemma_line_order(self.text(), row as int);
            lemma_line_start(self.text(), row as int + 1);
        }
        let total = rope_len_lines(&self.buffer);
        let start = rope_line_to_char(&self.buffer, row);
        let next = rope_line_to_char(&self.buffer, row + 1);
        if row + 1 < total {
            next - start - 1
        } else {
            next - start
        }
    }

    /// Char index of `(row, col)`, the column clamped to the line (line
    /// feed included), and the end of the text for a row past the last.
    pub fn char_idx_from_position(&self, row: usize, col: usize) -> (r: usize)
        ensures
            r == char_idx_spec(self.text(), row as int, col as int),
    {
        if row >= rope_len_lines(&self.buffer) {
            return rope_len_chars(&self.buffer);
        }
        proof {
            lemma_line_order(self.text(), row as int);
            lemma_line_start(self.text(), row as int + 1);
        }
        let line_start_idx = rope_line_to_char(&self.buffer, row);
        let line_len = rope_line_to_char(&self.buffer, row + 1) - line_start_idx;
        let clamped_col = if col < line_len {
            col
        } else {
            line_len
        };
        line_start_idx + clamped_col
    }

    /// Position of char index `char_idx`; from the end of the text on, the
    /// end of the last line.
    pub fn position_from_char_idx(&self, char_idx: usize) -> (r: (usize, usize))
        ensures
            (r.0 as int, r.1 as int) == position_spec(self.text(), char_idx as int),
            char_idx <= self.text().len() ==> valid_position(self.text(), r.0 as int, r.1 as int),
    {
        proof {
            if char_idx <= self.text().len() {
                lemma_position_valid(self.text(), char_idx as int);
            }
        }
        if char_idx >= rope_len_chars(&self.buffer) {
            let last = rope_len_lines(&self.buffer) - 1;
            return (last, self.line_content_len(last));
        }
        let line_idx = rope_char_to_line(&self.buffer, char_idx);
        proof {
            lemma_char_in_its_line(self.text(), char_idx as int);
        }
        let line_start_char = rope_line_to_char(&self.buffer, line_idx);
        (line_idx, char_idx - line_start_char)
    }

    /// Char index of the cursor.
    fn get_char_idx(&self) -> (r: usize)
        requires
            self.wf(),
        ensures
            r == char_idx_spec(self.text(), self.cursor_row as int, self.cursor_col as int),
            r == line_start(self.text(), self.cursor_row as int) + self.cursor_col,
            r <= self.text().len(),
    {
        proof {
            lemma_line_order(self.text(), self.cursor_row as int);
        }
        self.char_idx_from_position(self.cursor_row, self.cursor_col)
    }

    /// Puts the cursor at char index `idx`.
    fn set_cursor_to_char_idx(&mut self, idx: usize)
        requires
            old(self).menu().wf(),
            idx <= old(self).text().len(),
        ensures
            final(self).wf(),
            final(self).cursor() == position_spec(old(self).text(), idx as int),
            final(self).text() == old(self).text(),
            final(self).mode_spec() == old(self).mode_spec(),
            final(self).modified_spec() == old(self).modified_spec(),
            final(self).cache() == old(self).cache(),
            final(self).anchor() == old(self).anchor(),
            final(self).selecting() == old(self).selecting(),
            final(self).menu() == old(self).menu(),
            final(self).highlights() == old(self).highlights(),
            final(self).highlights_stale_spec() == old(self).highlights_stale_spec(),
            final(self).awaiting_response() == old(self).awaiting_response(),
            final(self).file_name_spec() == old(self).file_name_spec(),
    {
        let (row, col) = self.position_from_char_idx(idx);
        self.cursor_row = row;
        self.cursor_col = col;
    }

    // ---- cursor motion ----
    fn move_cursor_up(&mut self)
        requires
            old(self).wf(),
        ensures
            final(self).wf(),
            final(self).cursor() == if old(self).cursor().0 > 0 {
                let r = old(self).cursor().0 - 1;
                let c = old(self).cursor().1;
                (r, if c <= content_len(old(self).text(), r) {
                    c
                } else {
                    content_len(old(self).text(), r)
                })
            } else {
                old(self).cursor()
            },
            final(self).text() == old(self).text(),
            final(self).mode_spec() == old(self).mode_spec(),
            final(self).anchor() == old(self).anchor(),
            final(self).selecting() == old(self).selecting(),
            final(self).menu() == old(self).menu(),
    {
        if self.cursor_row > 0 {
            self.cursor_row -= 1;
            proof {
                lemma_line_order(self.text(), self.cursor_row as int);
            }
            let line_len = self.line_content_len(self.cursor_row);
            if self.cursor_col > line_len {
                self.cursor_col = line_len;
            }
        }
    }

    fn move_cursor_down(&mut self)
        requires
            old(self).wf(),
        ensures
            final(self).wf(),
            final(self).cursor() == if old(self).cursor().0 + 1 < line_count(old(self).text()) {
                let r = old(self).cursor().0 + 1;
                let c = old(self).cursor().1;
                (r, if c <= content_len(old(self).text(), r) {
                    c
                } else {
                    content_len(old(self).text(), r)
                })
            } else {
                old(self).cursor()
            },
            final(self).text() == old(self).text(),
            final(self).mode_spec() == old(self).mode_spec(),
            final(self).anchor() == old(self).anchor(),
            final(self).selecting() == old(self).selecting(),
            final(self).menu() == old(self).menu(),
    {
        let total_lines = rope_len_lines(&self.buffer);
        if self.cursor_row + 1 < total_lines {
            self.cursor_row += 1;
            proof {
                lemma_line_order(self.text(), self.cursor_row as int);
            }
            let line_len = self.line_content_len(self.cursor_row);
            if self.cursor_col > line_len {
                self.cursor_col = line_len;
            }
        }
    }

    /// Moves one column left, or to the end of the previous line.
    fn move_cursor_left(&mut self)
        requires
            old(self).wf(),
        ensures
            final(self).wf(),
            final(self).cursor() == if old(self).cursor().1 > 0 {
                (old(self).cursor().0, old(self).cursor().1 - 1)
            } else if old(self).cursor().0 > 0 {
                (
                    old(self).cursor().0 - 1,
                    content_len(old(self).text(), old(self).cursor().0 - 1),
                )
            } else {
                old(self).cursor()
            },
            final(self).text() == old(self).text(),
            final(self).mode_spec() == old(self).mode_spec(),
            final(self).anchor() == old(self).anchor(),
            final(self).selecting() == old(self).selecting(),
            final(self).menu() == old(self).menu(),
    {
        if self.cursor_col > 0 {
            self.cursor_col -= 1;
        } else if self.cursor_row > 0 {
            self.cursor_row -= 1;
            proof {
                lemma_line_order(self.text(), self.cursor_row as int);
            }
            self.cursor_col = self.line_content_len(self.cursor_row);
        }
    }

    /// Moves one column right, or to the start of the next line.
    fn move_cursor_right(&mut self)
        requires
            old(self).wf(),
        ensures
            final(self).wf(),
            final(self).cursor() == if old(self).cursor().1 < content_len(
                old(self).text(),
                old(self).cursor().0,
            ) {
                (old(self).cursor().0, old(self).cursor().1 + 1)
            } else if old(self).cursor().0 + 1 < line_count(old(self).text()) {
                (old(self).cursor().0 + 1, 0)
            } else {
                old(self).cursor()
            },
            final(self).text() == old(self).text(),
            final(self).mode_spec() == old(self).mode_spec(),
            final(self).anchor() == old(self).anchor(),
            final(self).selecting() == old(self).selecting(),
            final(self).menu() == old(self).menu(),
    {
        let line_len = self.line_content_len(self.cursor_row);
        let total = rope_len_lines(&self.buffer);
        if self.cursor_col < line_len {
            self.cursor_col += 1;
        } else if self.cursor_row + 1 < total {
            self.cursor_row += 1;
            self.cursor_col = 0;
            proof {
                lemma_line_order(self.text(), self.cursor_row as int);
            }
        }
    }

    fn move_to_end_of_line(&mut self)
        requires
            old(self).wf(),
        ensures
            final(self).wf(),
            final(self).cursor() == (
                old(self).cursor().0,
                content_len(old(self).text(), old(self).cursor().0),
            ),
            final(self).text() == old(self).text(),
            final(self).mode_spec() == old(self).mode_spec(),
            final(self).anchor() == old(self).anchor(),
            final(self).selecting() == old(self).selecting(),
            final(self).menu() == old(self).menu(),
    {
        self.cursor_col = self.line_content_len(self.cursor_row);
    }

    fn move_to_start_of_line(&mut self)
        requires
            old(self).wf(),
        ensures
            final(self).wf(),
            final(self).cursor() == (old(self).cursor().0, 0int),
            final(self).text() == old(self).text(),
            final(self).mode_spec() == old(self).mode_spec(),
            final(self).anchor() == old(self).anchor(),
            final(self).selecting() == old(self).selecting(),
            final(self).menu() == old(self).menu(),
    {
        proof {
            lemma_line_order(self.text(), self.cursor_row as int);
        }
        self.cursor_col = 0;
    }

    fn move_to_start_of_buffer(&mut self)
        requires
            old(self).wf(),
        ensures
            final(self).wf(),
            final(self).cursor() == (0int, 0int),
            final(self).text() == old(self).text(),
            final(self).mode_spec() == old(self).mode_spec(),
            final(self).anchor() == old(self).anchor(),
            final(self).selecting() == old(self).selecting(),
            final(self).menu() == old(self).menu(),
    {
        proof {
            lemma_line_order(self.text(), 0);
        }
        self.cursor_row = 0;
        self.cursor_col = 0;
    }

    fn move_to_end_of_buffer(&mut self)
        requires
            old(self).wf(),
        ensures
            final(self).wf(),
            final(self).cursor() == (
                line_count(old(self).text()) - 1,
                content_len(old(self).text(), line_count(old(self).text()) - 1),
            ),
            final(self).text() == old(self).text(),
            final(self).mode_spec() == old(self).mode_spec(),
            final(self).anchor() == old(self).anchor(),
            final(self).selecting() == old(self).selecting(),
            final(self).menu() == old(self).menu(),
    {
        let last = rope_len_lines(&self.buffer) - 1;
        proof {
            lemma_line_order(self.text(), last as int);
        }
        self.cursor_row = last;
        self.cursor_col = self.line_content_len(last);
    }
}


/// Where a motion key moves the cursor `(row, col)` over text `s`; `None`
/// for a key that is no motion.
pub open spec fn motion(s: Seq<char>, row: int, col: int, key: Key) -> Option<(int, int)> {
    match key {
        Key::Up | Key::Char('k') => Some(
            if row > 0 {
                (row - 1, if col <= content_len(s, row - 1) {
                    col
                } else {
                    content_len(s, row - 1)
                })
            } else {
                (row, col)
            },
        ),
        Key::Down | Key::Char('j') => Some(
            if row + 1 < line_count(s) {
                (row + 1, if col <= content_len(s, row + 1) {
                    col
                } else {
                    content_len(s, row + 1)
                })
            } else {
                (row, col)
            },
        ),
        Key::Left | Key::Char('h') => Some(
            if col > 0 {
                (row, col - 1)
            } else if row > 0 {
                (row - 1, content_len(s, row - 1))
            } else {
                (row, col)
            },
        ),
        Key::Right | Key::Char('l') => Some(
            if col < content_len(s, row) {
                (row, col + 1)
            } else if row + 1 < line_count(s) {
                (row + 1, 0)
            } else {
                (row, col)
            },
        ),
        _ => None,
    }
}

/// Styles of a freshly highlighted line are answered by the cache as the
/// direct computation gives them, until the line is marked stale.
pub proof fn lemma_highlight_round_trip(
    s: Seq<char>,
    h: Seq<Highlight>,
    m: Map<usize, Seq<Style>>,
    d: Set<usize>,
    line: usize,
    col: usize,
)
    requires
        col < line_len(s, line as int),
    ensures
        style_query(m.insert(line, line_syntax_styles(s, h, line as int)), d.remove(line), line, col)
            == Some(highlight_style(h, line_start(s, line as int) + col)),
        style_query(
            m.insert(line, line_syntax_styles(s, h, line as int)),
            d.remove(line).insert(line),
            line,
            col,
        ) == None::<Style>,
{
}

impl Editor {
    // ---- edits ----
    /// Marks the lines from `line` to the last one stale.
    pub fn invalidate_syntax_at_line(&mut self, line: usize)
        ensures
            final(self).cache().styles() == old(self).cache().styles(),
            final(self).cache().dirty() == dirty_from(
                old(self).cache().dirty(),
                line,
                line_count(old(self).text()) as usize,
            ),
            final(self).cache().last_content_length == old(self).cache().last_content_length,
            final(self).text() == old(self).text(),
            final(self).cursor() == old(self).cursor(),
            final(self).mode_spec() == old(self).mode_spec(),
            final(self).modified_spec() == old(self).modified_spec(),
            final(self).anchor() == old(self).anchor(),
            final(self).selecting() == old(self).selecting(),
            final(self).menu() == old(self).menu(),
            final(self).highlights() == old(self).highlights(),
            final(self).highlights_stale_spec() == old(self).highlights_stale_spec(),
            final(self).awaiting_response() == old(self).awaiting_response(),
            final(self).file_name_spec() == old(self).file_name_spec(),
            old(self).wf() ==> final(self).wf(),
    {
        let total_lines = rope_len_lines(&self.buffer);
        self.syntax_cache.mark_range_dirty(line, total_lines);
    }

    /// Inserts `c` (not a line feed) at the cursor and moves past it; the
    /// cursor's line is marked stale.
    fn insert_char(&mut self, c: char)
        requires
            old(self).wf(),
            c != '\n',
        ensures
            final(self).wf(),
            final(self).text() == old(self).text().insert(
                char_idx_spec(old(self).text(), old(self).cursor().0, old(self).cursor().1),
                c,
            ),
            final(self).cursor() == position_spec(
                final(self).text(),
                char_idx_spec(old(self).text(), old(self).cursor().0, old(self).cursor().1) + 1,
            ),
            final(self).modified_spec(),
            final(self).cache().styles() == old(self).cache().styles(),
            final(self).cache().dirty() == old(self).cache().dirty().insert(
                old(self).cursor().0 as usize,
            ),
            final(self).mode_spec() == old(self).mode_spec(),
            final(self).anchor() == old(self).anchor(),
            final(self).selecting() == old(self).selecting(),
            final(self).menu() == old(self).menu(),
    {
        let row = self.cursor_row;
        let char_idx = self.get_char_idx();
        rope_insert_char(&mut self.buffer, char_idx, c);
        let _len = rope_len_chars(&self.buffer);
        self.set_cursor_to_char_idx(char_idx + 1);
        self.modified = true;
        self.syntax_cache.mark_line_dirty(row);
    }

    /// Splits the line at the cursor and moves to the start of the new
    /// line; lines from the split one on are marked stale.
    fn insert_newline(&mut self)
        requires
            old(self).wf(),
        ensures
            final(self).wf(),
            final(self).text() == old(self).text().insert(
                char_idx_spec(old(self).text(), old(self).cursor().0, old(self).cursor().1),
                '\n',
            ),
            final(self).cursor() == position_spec(
                final(self).text(),
                char_idx_spec(old(self).text(), old(self).cursor().0, old(self).cursor().1) + 1,
            ),
            final(self).modified_spec(),
            final(self).cache().styles() == old(self).cache().styles(),
            final(self).cache().dirty() == dirty_from(
                old(self).cache().dirty(),
                old(self).cursor().0 as usize,
                line_count(final(self).text()) as usize,
            ),
            final(self).mode_spec() == old(self).mode_spec(),
            final(self).anchor() == old(self).anchor(),
            final(self).selecting() == old(self).selecting(),
            final(self).menu() == old(self).menu(),
    {
        let row = self.cursor_row;
        let char_idx = self.get_char_idx();
        rope_insert_char(&mut self.buffer, char_idx, '\n');
        let _len = rope_len_chars(&self.buffer);
        self.set_cursor_to_char_idx(char_idx + 1);
        self.modified = true;
        self.invalidate_syntax_at_line(row);
    }

    /// Removes the character before the cursor, if any, and moves back onto
    /// its place; lines from the one above on are marked stale.
    fn delete_char_before_cursor(&mut self)
        requires
            old(self).wf(),
        ensures
            final(self).wf(),
            ({
                let i = char_idx_spec(old(self).text(), old(self).cursor().0, old(self).cursor().1);
                if i > 0 {
                    &&& final(self).text() == old(self).text().remove(i - 1)
                    &&& final(self).cursor() == position_spec(final(self).text(), i - 1)
                    &&& final(self).modified_spec()
                    &&& final(self).cache().dirty() == dirty_from(
                        old(self).cache().dirty(),
                        if old(self).cursor().0 > 0 {
                            (old(self).cursor().0 - 1) as usize
                        } else {
                            0
                        },
                        line_count(final(self).text()) as usize,
                    )
                } else {
                    &&& final(self).text() == old(self).text()
                    &&& final(self).cursor() == old(self).cursor()
                    &&& final(self).modified_spec() == old(self).modified_spec()
                    &&& final(self).cache().dirty() == old(self).cache().dirty()
                }
            }),
            final(self).cache().styles() == old(self).cache().styles(),
            final(self).mode_spec() == old(self).mode_spec(),
            final(self).anchor() == old(self).anchor(),
            final(self).selecting() == old(self).selecting(),
            final(self).menu() == old(self).menu(),
    {
        let char_idx = self.get_char_idx();
        if char_idx > 0 {
            let current_line = self.cursor_row;
            rope_remove(&mut self.buffer, char_idx - 1, char_idx);
            proof {
                assert(old(self).text().subrange(0, char_idx - 1) + old(self).text().subrange(
                    char_idx as int,
                    old(self).text().len() as int,
                ) =~= old(self).text().remove(char_idx - 1));
            }
            self.set_cursor_to_char_idx(char_idx - 1);
            self.modified = true;
            let from = if current_line > 0 {
                current_line - 1
            } else {
                0
            };
            self.invalidate_syntax_at_line(from);
        }
    }

    /// Removes the character under the cursor, if any; the cursor keeps its
    /// char index, and lines from its line on are marked stale.
    fn delete_char_at_cursor(&mut self)
        requires
            old(self).wf(),
        ensures
            final(self).wf(),
            ({
                let i = char_idx_spec(old(self).text(), old(self).cursor().0, old(self).cursor().1);
                if i < old(self).text().len() {
                    &&& final(self).text() == old(self).text().remove(i)
                    &&& final(self).cursor() == position_spec(final(self).text(), i)
                    &&& final(self).modified_spec()
                    &&& final(self).cache().dirty() == dirty_from(
                        old(self).cache().dirty(),
                        old(self).cursor().0 as usize,
                        line_count(final(self).text()) as usize,
                    )
                } else {
                    &&& final(self).text() == old(self).text()
                    &&& final(self).cursor() == old(self).cursor()
                    &&& final(self).modified_spec() == old(self).modified_spec()
                    &&& final(self).cache().dirty() == old(self).cache().dirty()
                }
            }),
            final(self).cache().styles() == old(self).cache().styles(),
            final(self).mode_spec() == old(self).mode_spec(),
            final(self).anchor() == old(self).anchor(),
            final(self).selecting() == old(self).selecting(),
            final(self).menu() == old(self).menu(),
    {
        let char_idx = self.get_char_idx();
        if char_idx < rope_len_chars(&self.buffer) {
            let current_line = self.cursor_row;
            rope_remove(&mut self.buffer, char_idx, char_idx + 1);
            proof {
                assert(old(self).text().subrange(0, char_idx as int) + old(self).text().subrange(
                    char_idx + 1,
                    old(self).text().len() as int,
                ) =~= old(self).text().remove(char_idx as int));
            }
            self.set_cursor_to_char_idx(char_idx);
            self.modified = true;
            self.invalidate_syntax_at_line(current_line);
        }
    }

    // ---- selection ----
    /// The selected char range, ordered, when a selection is active.
    pub fn get_selection_range(&self) -> (r: Option<Range<usize>>)
        ensures
            r.is_some() == self.selection_spec().is_some(),
            r.is_some() ==> r.unwrap().start == self.selection_spec().unwrap().0
                && r.unwrap().end == self.selection_spec().unwrap().1,
    {
        if !self.selection_active || self.selection_start.is_none() {
            return None;
        }
        let (start_row, start_col) = self.selection_start.unwrap();
        let start_idx = self.char_idx_from_position(start_row, start_col);
        let end_idx = self.char_idx_from_position(self.cursor_row, self.cursor_col);
        if start_idx <= end_idx {
            Some(start_idx..end_idx)
        } else {
            Some(end_idx..start_idx)
        }
    }

    /// Whether the char at `(row, col)` lies in `selection_range`.
    pub fn is_position_selected(
        &self,
        row: usize,
        col: usize,
        selection_range: &Option<Range<usize>>,
    ) -> (r: bool)
        ensures
            r == (selection_range.is_some() && selection_range.unwrap().start <= char_idx_spec(
                self.text(),
                row as int,
                col as int,
            ) < selection_range.unwrap().end),
    {
        match selection_range {
            Some(range) => {
                let pos_idx = self.char_idx_from_position(row, col);
                range.start <= pos_idx && pos_idx < range.end
            },
            None => false,
        }
    }

    /// The selected text, when a selection is active.
    pub fn get_selected_text(&self) -> (r: Option<String>)
        ensures
            r.is_some() == self.selection_spec().is_some(),
            r.is_some() ==> r.unwrap()@ == self.text().subrange(
                self.selection_spec().unwrap().0,
                self.selection_spec().unwrap().1,
            ),
    {
        match self.get_selection_range() {
            Some(range) => {
                proof {
                    self.lemma_selection_in_text();
                }
                let chars = rope_slice_chars(&self.buffer, range.start, range.end);
                Some(string_of_chars(&chars))
            },
            None => None,
        }
    }

    proof fn lemma_selection_in_text(&self)
        ensures
            self.selection_spec() is Some ==> 0 <= self.selection_spec().unwrap().0
                <= self.selection_spec().unwrap().1 <= self.text().len(),
    {
        let s = self.text();
        if self.selection_spec() is Some {
            let (ar, ac) = self.selection_start.unwrap();
            self.lemma_char_idx_in_text(ar as int, ac as int);
            self.lemma_char_idx_in_text(self.cursor_row as int, self.cursor_col as int);
        }
    }

    proof fn lemma_char_idx_in_text(&self, row: int, col: int)
        requires
            row >= 0,
            col >= 0,
        ensures
            0 <= char_idx_spec(self.text(), row, col) <= self.text().len(),
    {
        let t = self.text();
        if 0 <= row < line_count(t) {
            lemma_line_order(t, row);
            lemma_line_start(t, row + 1);
            lemma_line_start(t, row);
            assert(line_start(t, row) + line_len(t, row) == line_start(t, row + 1));
        }
    }

    /// Starts a selection of the cursor's whole line, or, on a selection
    /// in Select mode, extends it to the end of the line after it.
    fn select_current_line(&mut self)
        requires
            old(self).wf(),
        ensures
            final(self).wf(),
            final(self).text() == old(self).text(),
            final(self).mode_spec() == Mode::Select,
            final(self).selecting(),
            final(self).menu() == old(self).menu(),
            !(old(self).mode_spec() == Mode::Select && old(self).selection_spec() is Some) ==> {
                &&& final(self).anchor() == Some((old(self).cursor().0 as usize, 0usize))
                &&& final(self).cursor() == (
                    old(self).cursor().0,
                    content_len(old(self).text(), old(self).cursor().0),
                )
            },
            old(self).mode_spec() == Mode::Select && old(self).selection_spec() is Some ==> {
                let end_row = line_of(old(self).text(), old(self).selection_spec().unwrap().1)
                    as int;
                &&& final(self).anchor() == old(self).anchor()
                &&& final(self).cursor() == if end_row + 1 < line_count(old(self).text()) {
                    (end_row + 1, content_len(old(self).text(), end_row + 1))
                } else {
                    old(self).cursor()
                }
            },
    {
        if self.mode == Mode::Select && self.selection_active && self.selection_start.is_some() {
            let range = self.get_selection_range().unwrap();
            proof {
                self.lemma_selection_in_text();
            }
            let end_row = rope_char_to_line(&self.buffer, range.end);
            proof {
                lemma_char_in_its_line(self.text(), range.end as int);
            }
            let total = rope_len_lines(&self.buffer);
            if end_row + 1 < total {
                self.cursor_row = end_row + 1;
                proof {
                    lemma_line_order(self.text(), self.cursor_row as int);
                }
                self.cursor_col = self.line_content_len(self.cursor_row);
            }
        } else {
            self.selection_start = Some((self.cursor_row, 0));
            self.cursor_col = self.line_content_len(self.cursor_row);
            self.selection_active = true;
            self.mode = Mode::Select;
        }
    }

    /// Deletes the selection, puts the cursor at its start and returns to
    /// Normal mode; lines from the selection's first one on are marked
    /// stale. Without a selection nothing changes and the error says so.
    fn delete_selection(&mut self) -> (r: Result<(), crate::error::Error>)
        requires
            old(self).wf(),
        ensures
            final(self).wf(),
            final(self).menu() == old(self).menu(),
            old(self).selection_spec() is None ==> r is Err && r->Err_0 is NoSelection && final(
                self).text() == old(self).text() && final(self).cursor() == old(self).cursor()
                && final(self).mode_spec() == old(self).mode_spec() && final(self).modified_spec()
                == old(self).modified_spec(),
            old(self).selection_spec() is Some ==> {
                let (a, b) = old(self).selection_spec().unwrap();
                &&& r is Ok
                &&& final(self).text() == old(self).text().subrange(0, a) + old(self).text().subrange(b, old(self).text().len() as int)
                &&& final(self).cursor() == position_spec(final(self).text(), a)
                &&& final(self).mode_spec() == Mode::Normal
                &&& !final(self).selecting()
                &&& final(self).anchor() is None
                &&& final(self).modified_spec()
                &&& final(self).cache().dirty() == dirty_from(
                    old(self).cache().dirty(),
                    line_of(old(self).text(), a) as usize,
                    line_count(final(self).text()) as usize,
                )
            },
    {
        match self.get_selection_range() {
            Some(range) => {
                proof {
                    self.lemma_selection_in_text();
                }
                let start_line = rope_char_to_line(&self.buffer, range.start);
                rope_remove(&mut self.buffer, range.start, range.end);
                self.set_cursor_to_char_idx(range.start);
                self.mode = Mode::Normal;
                self.selection_active = false;
                self.selection_start = None;
                self.modified = true;
                self.invalidate_syntax_at_line(start_line);
                Ok(())
            },
            None => Err(crate::error::Error::NoSelection),
        }
    }
}


/// A copy of a list of styles.
fn copy_styles(v: &Vec<Style>) -> (r: Vec<Style>)
    ensures
        r@ == v@,
{
    let mut r: Vec<Style> = Vec::new();
    let mut i: usize = 0;
    while i < v.len()
        invariant
            i <= v@.len(),
            r@ == v@.subrange(0, i as int),
        decreases v@.len() - i,
    {
        r.push(v[i]);
        i = i + 1;
        assert(r@ =~= v@.subrange(0, i as int));
    }
    assert(v@.subrange(0, v@.len() as int) =~= v@);
    r
}

impl Editor {
    /// Whether the editor's state leaves nothing else to check: for
    /// contracts that say most of the state is kept.
    pub closed spec fn same_but_cache(&self, other: &Editor) -> bool {
        &&& self.buffer == other.buffer
        &&& self.cursor_row == other.cursor_row
        &&& self.cursor_col == other.cursor_col
        &&& self.mode == other.mode
        &&& self.modified == other.modified
        &&& self.selection_start == other.selection_start
        &&& self.selection_active == other.selection_active
        &&& self.menu_status == other.menu_status
        &&& self.syntax_highlights == other.syntax_highlights
    }

    // ---- styles ----
    /// The style a char index is drawn with: the selection first, then a
    /// clean cached style of its line, else its syntax style.
    pub closed spec fn style_at(&self, char_idx: int) -> Style {
        let s = self.text();
        let (l, c) = position_spec(s, char_idx);
        let ci = char_idx_spec(s, l, c);
        let cache = self.syntax_cache;
        if self.selection_spec() is Some && self.selection_spec().unwrap().0 <= ci
            < self.selection_spec().unwrap().1 {
            Style::Selection
        } else if cache.styles().contains_key(l as usize) && !cache.dirty().contains(l as usize) {
            if c < cache.styles()[l as usize].len() {
                cache.styles()[l as usize][c]
            } else {
                Style::Normal
            }
        } else if c < line_len(s, l) {
            highlight_style(self.syntax_highlights@, line_start(s, l) + c)
        } else {
            Style::Normal
        }
    }

    /// The syntax styles of line `line_number`: the cached ones when the
    /// line is clean, else computed from the highlights and cached.
    pub fn highlight_line(&mut self, line_number: usize) -> (r: Vec<Style>)
        requires
            old(self).wf(),
            line_number < line_count(old(self).text()),
        ensures
            final(self).wf(),
            final(self).same_but_cache(old(self)),
            final(self).text() == old(self).text(),
            final(self).cursor() == old(self).cursor(),
            final(self).selection_spec() == old(self).selection_spec(),
            final(self).highlights() == old(self).highlights(),
            final(self).cache().last_content_length == old(self).cache().last_content_length,
            old(self).cache().styles().contains_key(line_number) && !old(self).cache().dirty().contains(
                line_number,
            ) ==> r@ == old(self).cache().styles()[line_number] && final(self).cache() == old(self).cache(),
            !(old(self).cache().styles().contains_key(line_number) && !old(self).cache().dirty().contains(line_number)) ==> r@ == line_syntax_styles(
                old(self).text(),
                old(self).highlights(),
                line_number as int,
            ) && final(self).cache().styles() == old(self).cache().styles().insert(
                line_number,
                r@,
            ) && final(self).cache().dirty() == old(self).cache().dirty().remove(line_number),
            final(self).cache().styles().contains_key(line_number) && !final(
                self).cache().dirty().contains(line_number),
            forall|i: int|
                0 <= i <= old(self).text().len() ==> #[trigger] final(self).style_at(i) == old(
                self).style_at(i),
    {
        if self.syntax_cache.is_line_cached(line_number) {
            match self.syntax_cache.line_styles.get(&line_number) {
                Some(v) => {
                    return copy_styles(v);
                },
                None => {
                    return Vec::new();
                },
            }
        }
        let total = rope_len_lines(&self.buffer);
        proof {
            lemma_line_order(self.text(), line_number as int);
            lemma_line_start(self.text(), line_number + 1);
        }
        let start = rope_line_to_char(&self.buffer, line_number);
        let next = rope_line_to_char(&self.buffer, line_number + 1);
        let n = next - start;
        let mut line_styles: Vec<Style> = Vec::new();
        let mut i: usize = 0;
        while i < n
            invariant
                i <= n,
                start + n <= usize::MAX,
                line_styles@ == Seq::new(
                    i as nat,
                    |k: int| highlight_style(self.syntax_highlights@, start + k),
                ),
            decreases n - i,
        {
            let st = style_of_char(&self.syntax_highlights, start + i);
            line_styles.push(st);
            i = i + 1;
            assert(line_styles@ =~= Seq::new(
                i as nat,
                |k: int| highlight_style(self.syntax_highlights@, start + k),
            ));
        }
        assert(line_styles@ =~= line_syntax_styles(self.text(), self.syntax_highlights@, line_number as int));
        let cached = copy_styles(&line_styles);
        self.syntax_cache.cache_line_styles(line_number, cached);
        proof {
            assert forall|i: int|
                0 <= i <= old(self).text().len() implies #[trigger] self.style_at(i) == old(
                self).style_at(i) by {
                lemma_position_valid(self.text(), i);
                let (l, c) = position_spec(self.text(), i);
                assert(l < line_count(self.text()));
                if l as usize == line_number {
                    assert(l == line_number);
                    assert(self.syntax_cache.styles()[line_number] == line_syntax_styles(
                        self.text(),
                        self.syntax_highlights@,
                        line_number as int,
                    ));
                } else {
                    assert(self.syntax_cache.styles().contains_key(l as usize) == old(
                        self).syntax_cache.styles().contains_key(l as usize));
                }
            }
        }
        line_styles
    }

    /// The style of char index `char_idx`; a line that is not cached
    /// clean is highlighted and cached on the way.
    pub fn get_style_at(&mut self, char_idx: usize) -> (r: Style)
        requires
            old(self).wf(),
        ensures
            final(self).wf(),
            final(self).same_but_cache(old(self)),
            final(self).text() == old(self).text(),
            final(self).cursor() == old(self).cursor(),
            final(self).highlights() == old(self).highlights(),
            final(self).selection_spec() == old(self).selection_spec(),
            final(self).mode_spec() == old(self).mode_spec(),
            r == old(self).style_at(char_idx as int),
            forall|i: int|
                0 <= i <= old(self).text().len() ==> #[trigger] final(self).style_at(i) == old(
                self).style_at(i),
            ({
                let (l, c) = position_spec(old(self).text(), char_idx as int);
                let sel = old(self).selection_spec();
                let ci = char_idx_spec(old(self).text(), l, c);
                !(sel is Some && sel.unwrap().0 <= ci < sel.unwrap().1) ==> final(
                    self).cache().styles().contains_key(l as usize) && !final(
                    self).cache().dirty().contains(l as usize)
            }),
    {
        let (line, col) = self.position_from_char_idx(char_idx);
        proof {
            lemma_position_valid(self.text(), if char_idx <= self.text().len() {
                char_idx as int
            } else {
                self.text().len() as int
            });
        }
        let selection = self.get_selection_range();
        if self.is_position_selected(line, col, &selection) {
            return Style::Selection;
        }
        if let Some(style) = self.syntax_cache.get_cached_style(line, col) {
            return style;
        }
        let line_styles = self.highlight_line(line);
        if col < line_styles.len() {
            line_styles[col]
        } else {
            Style::Normal
        }
    }

    /// The style at position `(row, col)`: the selection first, then that
    /// of its char index.
    pub fn get_style_for_position(&mut self, row: usize, col: usize) -> (r: Style)
        requires
            old(self).wf(),
        ensures
            final(self).wf(),
            final(self).same_but_cache(old(self)),
            final(self).text() == old(self).text(),
            final(self).cursor() == old(self).cursor(),
            final(self).highlights() == old(self).highlights(),
            final(self).selection_spec() == old(self).selection_spec(),
            final(self).mode_spec() == old(self).mode_spec(),
            forall|i: int|
                0 <= i <= old(self).text().len() ==> #[trigger] final(self).style_at(i) == old(
                self).style_at(i),
            ({
                let ci = char_idx_spec(old(self).text(), row as int, col as int);
                let sel = old(self).selection_spec();
                r == if sel is Some && sel.unwrap().0 <= ci < sel.unwrap().1 {
                    Style::Selection
                } else {
                    old(self).style_at(ci)
                }
            }),
            r == old(self).pos_style(row as int, col as int),
            forall|rr: int, cc: int|
                0 <= rr && 0 <= cc ==> #[trigger] final(self).pos_style(rr, cc) == old(
                self).pos_style(rr, cc),
    {
        let selection = self.get_selection_range();
        if self.is_position_selected(row, col, &selection) {
            return Style::Selection;
        }
        let char_idx = self.char_idx_from_position(row, col);
        let r = self.get_style_at(char_idx);
        proof {
            assert forall|rr: int, cc: int|
                0 <= rr && 0 <= cc implies #[trigger] self.pos_style(rr, cc) == old(self).pos_style(
                rr,
                cc,
            ) by {
                old(self).lemma_char_idx_in_text(rr, cc);
            }
        }
        r
    }

    /// The style position `(row, col)` is drawn with: the selection first,
    /// else that of its char index.
    pub open spec fn pos_style(&self, row: int, col: int) -> Style {
        let ci = char_idx_spec(self.text(), row, col);
        let sel = self.selection_spec();
        if sel is Some && sel.unwrap().0 <= ci < sel.unwrap().1 {
            Style::Selection
        } else {
            self.style_at(ci)
        }
    }

    /// Notes that the highlights must be recomputed; when the text's length
    /// differs from the one last recorded, every cached line is dropped.
    pub fn update_syntax_highlighting(&mut self)
        requires
            old(self).wf(),
        ensures
            final(self).wf(),
            final(self).same_but_cache(old(self)),
            final(self).text() == old(self).text(),
            final(self).cursor() == old(self).cursor(),
            final(self).highlights_stale_spec(),
            final(self).awaiting_response() == old(self).awaiting_response(),
            final(self).file_name_spec() == old(self).file_name_spec(),
            final(self).mode_spec() == old(self).mode_spec(),
            final(self).selection_spec() == old(self).selection_spec(),
            final(self).modified_spec() == old(self).modified_spec(),
            final(self).menu() == old(self).menu(),
            final(self).cache().last_content_length == old(self).text().len(),
            old(self).text().len() != old(self).cache().last_content_length ==> final(self).cache().styles().is_empty() && final(self).cache().dirty().is_empty(),
            old(self).text().len() == old(self).cache().last_content_length ==> final(self).cache()
                == old(self).cache(),
    {
        let current_len = rope_len_chars(&self.buffer);
        if current_len != self.syntax_cache.last_content_length {
            self.syntax_cache.mark_all_dirty();
            self.syntax_cache.last_content_length = current_len;
        }
        self.highlights_stale = true;
    }

    /// Whether the highlights wait to be recomputed from the text.
    pub fn highlights_stale(&self) -> (r: bool)
        ensures
            r == self.highlights_stale_spec(),
    {
        self.highlights_stale
    }

    /// Takes the recomputed highlights, in char ranges of the text.
    pub fn set_syntax_highlights(&mut self, highlights: Vec<Highlight>)
        requires
            old(self).wf(),
        ensures
            final(self).wf(),
            final(self).highlights() == highlights@,
            !final(self).highlights_stale_spec(),
            final(self).text() == old(self).text(),
            final(self).cursor() == old(self).cursor(),
            final(self).cache() == old(self).cache(),
            final(self).selection_spec() == old(self).selection_spec(),
            final(self).mode_spec() == old(self).mode_spec(),
            final(self).menu() == old(self).menu(),
            final(self).modified_spec() == old(self).modified_spec(),
    {
        self.syntax_highlights = highlights;
        self.highlights_stale = false;
    }

    /// Recomputes the highlights from the text's fenced code blocks (only
    /// blocks tagged with a registered language are parsed); a text too
    /// large to count in bytes gets none.
    pub fn refresh_highlights(&mut self)
        requires
            old(self).wf(),
        ensures
            final(self).wf(),
            !final(self).highlights_stale_spec(),
            final(self).text() == old(self).text(),
            final(self).cursor() == old(self).cursor(),
            final(self).cache() == old(self).cache(),
            final(self).selection_spec() == old(self).selection_spec(),
            final(self).mode_spec() == old(self).mode_spec(),
            final(self).menu() == old(self).menu(),
            lines_bytes(lines_of(old(self).text())) <= usize::MAX ==> final(self).highlights()
                == char_highlights(
                old(self).text(),
                blocks_highlights(scan_lines(lines_of(old(self).text())).blocks),
            ),
            lines_bytes(lines_of(old(self).text())) > usize::MAX ==> final(self).highlights().len()
                == 0,
    {
        let lines = self.lines();
        proof {
            assert(line_views(lines@) == lines_of(self.text()));
        }
        if lines_fit(&lines) {
            let byte_ranges = highlight_buffer(&lines);
            let ranges = self.convert_highlights_to_char_ranges(&byte_ranges);
            self.set_syntax_highlights(ranges);
        } else {
            self.set_syntax_highlights(Vec::new());
        }
    }

    /// Drops every cached line and asks for new highlights.
    pub fn refresh_display(&mut self)
        requires
            old(self).wf(),
        ensures
            final(self).wf(),
            final(self).same_but_cache(old(self)),
            final(self).text() == old(self).text(),
            final(self).cache().styles().is_empty(),
            final(self).cache().dirty().is_empty(),
            final(self).highlights_stale_spec(),
    {
        self.syntax_cache.mark_all_dirty();
        self.update_syntax_highlighting();
    }

    // ---- outside results ----
    /// Consumes the response a finished request left, once one was
    /// submitted: a successful, non-empty answer is appended to the end of
    /// the text and the cursor moves to the end.
    pub fn check_api_responses(&mut self, response: Option<ApiResponse>)
        requires
            old(self).wf(),
        ensures
            final(self).wf(),
            final(self).mode_spec() == old(self).mode_spec(),
            !old(self).awaiting_response() || response is None ==> {
                &&& final(self).text() == old(self).text()
                &&& final(self).cursor() == old(self).cursor()
                &&& final(self).modified_spec() == old(self).modified_spec()
                &&& final(self).awaiting_response() == old(self).awaiting_response()
            },
            old(self).awaiting_response() && response is Some ==> !final(self).awaiting_response(),
            old(self).awaiting_response() && response is Some && !(response.unwrap().error is None
                && response.unwrap().content@.len() > 0) ==> final(self).text() == old(self).text()
                && final(self).cursor() == old(self).cursor() && final(self).modified_spec() == old(
                self).modified_spec(),
            old(self).awaiting_response() && response is Some && response.unwrap().error is None
                && response.unwrap().content@.len() > 0 ==> {
                &&& final(self).text() == old(self).text() + response.unwrap().content@
                &&& final(self).cursor() == position_spec(
                    final(self).text(),
                    final(self).text().len() as int,
                )
                &&& final(self).modified_spec()
                &&& final(self).highlights_stale_spec()
                &&& forall|l: usize|
                    line_count(old(self).text()) - 1 <= l <= line_count(final(self).text()) ==> !(
                    #[trigger] final(self).cache().styles().contains_key(l) && !final(
                        self).cache().dirty().contains(l))
            },
    {
        if !self.needs_response_check {
            return ;
        }
        if let Some(response) = response {
            if response.error.is_none() && !response.content.as_str().is_empty() {
                let char_idx = rope_len_chars(&self.buffer);
                let old_last = rope_len_lines(&self.buffer) - 1;
                rope_insert(&mut self.buffer, char_idx, response.content.as_str());
                let _lines = rope_len_lines(&self.buffer);
                proof {
                    assert(old(self).text().subrange(0, char_idx as int) =~= old(self).text());
                    assert(old(self).text().subrange(char_idx as int, char_idx as int)
                        =~= Seq::<char>::empty());
                    assert(self.text() =~= old(self).text() + response.content@);
                }
                let end = rope_len_chars(&self.buffer);
                self.set_cursor_to_char_idx(end);
                self.invalidate_syntax_at_line(old_last);
                let ghost mid = self.syntax_cache;
                self.update_syntax_highlighting();
                self.modified = true;
                proof {
                    assert forall|l: usize|
                        old_last <= l <= line_count(self.text()) implies !(
                        #[trigger] self.cache().styles().contains_key(l) && !self.cache().dirty().contains(
                            l,
                        )) by {
                        assert(mid.dirty().contains(l));
                        if self.cache().styles().contains_key(l) {
                            assert(self.cache() == mid);
                        }
                    }
                }
            }
            self.needs_response_check = false;
        }
    }

    /// Whether a submitted request's response is still to be consumed.
    pub fn is_awaiting_response(&self) -> (r: bool)
        ensures
            r == self.awaiting_response(),
    {
        self.needs_response_check
    }

    /// Replaces the text with a loaded file's content, under its name.
    pub fn load_content(&mut self, content: &str, file_name: String)
        requires
            old(self).wf(),
        ensures
            final(self).wf(),
            final(self).text() == content@,
            final(self).cursor() == (0int, 0int),
            !final(self).modified_spec(),
            final(self).file_name_spec() == file_name@,
            final(self).mode_spec() == old(self).mode_spec(),
            final(self).highlights_stale_spec(),
            final(self).menu() == old(self).menu(),
    {
        self.buffer = rope_from_str(content);
        proof {
            lemma_line_order(self.text(), 0);
        }
        self.cursor_row = 0;
        self.cursor_col = 0;
        self.modified = false;
        self.history.file_path = file_name;
        self.update_syntax_highlighting();
    }

    /// Inserts pasted text at the cursor and moves past it; every cached
    /// line is dropped.
    pub fn paste_text(&mut self, content: &str)
        requires
            old(self).wf(),
        ensures
            final(self).wf(),
            final(self).mode_spec() == old(self).mode_spec(),
            content@.len() == 0 ==> final(self).text() == old(self).text() && final(self).cursor()
                == old(self).cursor(),
            content@.len() > 0 ==> {
                let i = char_idx_spec(old(self).text(), old(self).cursor().0, old(self).cursor().1);
                &&& final(self).text() == old(self).text().subrange(0, i) + content@ + old(self).text().subrange(i, old(self).text().len() as int)
                &&& final(self).cursor() == position_spec(final(self).text(), i + content@.len())
                &&& final(self).modified_spec()
                &&& final(self).cache().styles().is_empty()
                &&& final(self).highlights_stale_spec()
            },
    {
        if content.is_empty() {
            return ;
        }
        let char_idx = self.get_char_idx();
        let old_len = rope_len_chars(&self.buffer);
        rope_insert(&mut self.buffer, char_idx, content);
        let new_len = rope_len_chars(&self.buffer);
        let added = new_len - old_len;
        self.set_cursor_to_char_idx(char_idx + added);
        self.modified = true;
        self.syntax_cache.mark_all_dirty();
        self.update_syntax_highlighting();
    }

    /// The clipboard took the selection: a Select mode ends.
    pub fn finish_copy(&mut self)
        requires
            old(self).wf(),
        ensures
            final(self).wf(),
            final(self).text() == old(self).text(),
            final(self).cursor() == old(self).cursor(),
            old(self).mode_spec() == Mode::Select ==> final(self).mode_spec() == Mode::Normal
                && !final(self).selecting() && final(self).anchor() is None,
            old(self).mode_spec() != Mode::Select ==> final(self).mode_spec() == old(self).mode_spec() && final(self).selection_spec() == old(self).selection_spec(),
    {
        if self.mode == Mode::Select {
            self.mode = Mode::Normal;
            self.selection_active = false;
            self.selection_start = None;
        }
    }

    /// The text was written out.
    pub fn mark_saved(&mut self)
        requires
            old(self).wf(),
        ensures
            final(self).wf(),
            !final(self).modified_spec(),
            final(self).text() == old(self).text(),
            final(self).cursor() == old(self).cursor(),
    {
        self.modified = false;
    }

    /// Opens the file picker for loading, over `files`.
    pub fn open_file_picker(&mut self, files: Vec<String>)
        requires
            old(self).wf(),
        ensures
            final(self).wf(),
            final(self).menu().file_picker.files_spec() == files@,
            final(self).menu().file_picker.active_spec(),
            final(self).menu().file_picker.action_spec() == Action::Load,
            final(self).text() == old(self).text(),
            final(self).cursor() == old(self).cursor(),
    {
        self.menu_status.file_picker.init_file_picker(files);
    }

    // ---- reading the state ----
    pub fn get_content(&self) -> (r: String)
        ensures
            r@ == self.text(),
    {
        rope_to_string(&self.buffer)
    }

    pub fn get_cursor_position(&self) -> (r: (usize, usize))
        ensures
            (r.0 as int, r.1 as int) == self.cursor(),
    {
        (self.cursor_row, self.cursor_col)
    }

    pub fn get_mode(&self) -> (r: &Mode)
        ensures
            *r == self.mode_spec(),
    {
        &self.mode
    }

    pub fn is_modified(&self) -> (r: bool)
        ensures
            r == self.modified_spec(),
    {
        self.modified
    }

    pub fn get_file_name(&self) -> (r: Option<&str>)
        ensures
            r is Some && r.unwrap()@ == self.file_name_spec(),
    {
        Some(self.history.file_path.as_str())
    }

    pub fn menu_status(&self) -> (r: &CommandsMenu)
        ensures
            *r == self.menu(),
    {
        &self.menu_status
    }

    pub fn line_count(&self) -> (r: usize)
        ensures
            r == line_count(self.text()),
    {
        rope_len_lines(&self.buffer)
    }

    pub fn len_chars(&self) -> (r: usize)
        ensures
            r == self.text().len(),
    {
        rope_len_chars(&self.buffer)
    }

    /// Whether a menu waits for its key (the file picker takes keys of its
    /// own).
    pub fn is_waiting_for_command(&self) -> (r: bool)
        ensures
            r == (self.menu().active_spec() && !self.menu().file_picker.active_spec()),
    {
        self.menu_status.is_active_menu() && !self.menu_status.is_file_picker_active()
    }

    pub fn is_help_popup_active(&self) -> (r: bool)
        ensures
            r == self.help_shown(),
    {
        self.show_help_menu
    }

    pub fn toggle_help_popup(&mut self)
        ensures
            final(self).help_shown() == !old(self).help_shown(),
            final(self).same_but_cache(old(self)),
            final(self).cache() == old(self).cache(),
            old(self).wf() ==> final(self).wf(),
    {
        self.show_help_menu = !self.show_help_menu;
    }

    /// The title and help lines of the menu that waits for its key.
    pub fn get_help_content(&self) -> (r: (Option<String>, Option<Vec<String>>))
        ensures
            self.menu().menu_type_spec() == MenuType::InActive ==> r.0.is_none() && r.1.is_none(),
            self.menu().menu_type_spec() != MenuType::InActive ==> r.0.is_some() && r.1.is_some()
                && r.0.unwrap()@ == crate::menu::menu_title(self.menu().menu_type_spec())
                && crate::menu::string_views(r.1.unwrap()@) == crate::menu::menu_help(
                self.menu().menu_type_spec(),
            ),
    {
        self.menu_status.show_menu()
    }

    pub fn get_syntax_cache_dirty_lines(&self, real_line_number: usize) -> (r: bool)
        ensures
            r == self.cache().dirty().contains(real_line_number),
    {
        self.syntax_cache.dirty_lines.contains(&real_line_number)
    }

    pub fn syntax_cache_is_line_cached(&self, real_line_number: usize) -> (r: bool)
        ensures
            r == (self.cache().styles().contains_key(real_line_number) && !self.cache().dirty().contains(
                real_line_number,
            )),
    {
        self.syntax_cache.is_line_cached(real_line_number)
    }

    pub fn set_syntax_cache_line_styles(&mut self, real_line_number: usize, line_styles: Vec<Style>)
        ensures
            final(self).cache().styles() == old(self).cache().styles().insert(
                real_line_number,
                line_styles@,
            ),
            final(self).cache().dirty() == old(self).cache().dirty().remove(real_line_number),
            final(self).same_but_cache(old(self)),
            old(self).wf() ==> final(self).wf(),
    {
        self.syntax_cache.cache_line_styles(real_line_number, line_styles);
    }

    pub fn get_syntax_cache_cached_style(&self, actual_row: usize, char_col: usize) -> (r: Option<
        Style,
    >)
        ensures
            r == style_query(self.cache().styles(), self.cache().dirty(), actual_row, char_col),
    {
        self.syntax_cache.get_cached_style(actual_row, char_col)
    }

    /// Marks one line stale.
    pub fn invalidate_line(&mut self, line: usize)
        ensures
            final(self).cache().styles() == old(self).cache().styles(),
            final(self).cache().dirty() == old(self).cache().dirty().insert(line),
            final(self).same_but_cache(old(self)),
            old(self).wf() ==> final(self).wf(),
    {
        self.syntax_cache.mark_line_dirty(line);
    }
}


/// Whether `key` is one of the commands of menu `m`.
pub open spec fn menu_command(m: MenuType, key: Key) -> bool {
    match m {
        MenuType::GoTo => key == Key::Char('l') || key == Key::Char('h') || key == Key::Char('g')
            || key == Key::Char('e'),
        MenuType::AI => key == Key::Char('a') || key == Key::Char('o') || key == Key::Char('l'),
        MenuType::File => key == Key::Char('w') || key == Key::Char('s') || key == Key::Char('S')
            || key == Key::Char('l') || key == Key::Char('q'),
        _ => false,
    }
}

/// Where a Go-To command puts a cursor on row `row` of text `s`: end or
/// start of the line, start or end of the text.
pub open spec fn goto_target(s: Seq<char>, row: int, key: Key) -> (int, int) {
    if key == Key::Char('l') {
        (row, content_len(s, row))
    } else if key == Key::Char('h') {
        (row, 0)
    } else if key == Key::Char('g') {
        (0, 0)
    } else {
        (line_count(s) - 1, content_len(s, line_count(s) - 1))
    }
}

/// The backend an AI menu command asks for.
pub open spec fn ai_model(key: Key) -> Model {
    if key == Key::Char('a') {
        Model::ANTROPIC
    } else if key == Key::Char('o') {
        Model::OPENAI
    } else {
        Model::OLLAMA
    }
}

impl Editor {
    // ---- key dispatch ----
    /// Whether neither a menu nor the file picker waits for keys.
    pub open spec fn no_menu(&self) -> bool {
        !self.menu().active_spec() && !self.menu().file_picker.active_spec()
    }

    /// Whether the key asks for a paste in Normal mode.
    pub open spec fn normal_paste_key(key: Key, mods: KeyModifiers) -> bool {
        (mods.alt && key == Key::Char('v')) || (mods.none_held() && key == Key::Char('p'))
    }

    /// Text, cursor, mode and selection are as in `self`.
    pub open spec fn same_view(&self, new: Editor) -> bool {
        &&& new.text() == self.text()
        &&& new.cursor() == self.cursor()
        &&& new.mode_spec() == self.mode_spec()
        &&& new.selection_spec() == self.selection_spec()
    }

    /// What a key does in Normal mode: the file picker takes it first, then
    /// a waiting menu (which closes whatever the key), then the key itself.
    pub open spec fn normal_key_spec(&self, new: Editor, key: Key, mods: KeyModifiers, r: Effect) -> bool {
        let fp = self.menu().file_picker;
        let saving = fp.active_spec() && fp.action_spec() == Action::Save;
        let loading = fp.active_spec() && fp.action_spec() == Action::Load;
        let in_menu = self.menu().active_spec() && !fp.active_spec();
        let mt = self.menu().menu_type_spec();
        let i = char_idx_spec(self.text(), self.cursor().0, self.cursor().1);
        &&& saving ==> {
            &&& self.same_view(new)
            &&& key is Char ==> new.menu().file_picker.input_spec() == fp.input_spec().insert(
                fp.cursor_spec() as int,
                key->Char_0,
            ) && r is Nothing
            &&& (key == Key::Enter || key == Key::Esc) ==> !new.menu().file_picker.active_spec()
            &&& key == Key::Enter && trim_of(fp.input_spec()).len() > 0 ==> r is SaveAs
                && r->SaveAs_0@ == trim_of(fp.input_spec()) && r->SaveAs_1@ == self.text()
            &&& !(key == Key::Enter && trim_of(fp.input_spec()).len() > 0) ==> r is Nothing
        }
        &&& loading ==> {
            let j = fp.index_spec();
            let n = fp.files_spec().len();
            &&& self.same_view(new)
            &&& (key == Key::Up || key == Key::Down) ==> {
                &&& r is Nothing
                &&& new.menu().file_picker.index_spec() == if key == Key::Up {
                    if j > 0 {
                        (j - 1) as usize
                    } else {
                        0
                    }
                } else if j + 1 < n {
                    (j + 1) as usize
                } else {
                    j
                }
                &&& new.menu().file_picker.files_spec() == fp.files_spec()
                &&& new.menu().file_picker.active_spec()
                &&& new.menu().file_picker.action_spec() == Action::Load
            }
            &&& key == Key::Esc ==> r is Nothing && !new.menu().file_picker.active_spec()
                && new.menu().file_picker.files_spec().len() == 0
            &&& key == Key::Enter && j < n ==> r is Load && r->Load_0@ == fp.files_spec()[j as int]@
                && !new.menu().file_picker.active_spec()
            &&& !(key == Key::Up || key == Key::Down || key == Key::Enter || key == Key::Esc) ==> r is Nothing
                && new.menu() == self.menu()
        }
        &&& in_menu ==> {
            &&& !new.menu().active_spec()
            &&& !menu_command(mt, key) ==> r is Nothing && self.same_view(new)
            &&& mt == MenuType::GoTo && menu_command(mt, key) ==> {
                &&& r is Nothing
                &&& new.cursor() == goto_target(self.text(), self.cursor().0, key)
                &&& new.text() == self.text()
                &&& new.mode_spec() == self.mode_spec()
            }
            &&& mt == MenuType::AI && menu_command(mt, key) ==> {
                &&& r is Submit
                &&& r->Submit_0@ == self.text()
                &&& r->Submit_1 == ai_model(key)
                &&& new.awaiting_response()
                &&& self.same_view(new)
            }
            &&& mt == MenuType::File && key == Key::Char('q') ==> r is Quit && self.same_view(new)
            &&& mt == MenuType::File && key == Key::Char('s') ==> r is Save && r->Save_0@
                == self.text() && self.same_view(new)
            &&& mt == MenuType::File && key == Key::Char('l') ==> r is ListFiles && self.same_view(new)
            &&& mt == MenuType::File && key == Key::Char('w') ==> r is Save && r->Save_0@.len() == 0
                && new.text().len() == 0 && new.cursor() == (0int, 0int)
            &&& mt == MenuType::File && key == Key::Char('S') ==> r is Nothing
                && new.menu().file_picker.active_spec() && new.menu().file_picker.action_spec()
                == Action::Save && self.same_view(new)
        }
        &&& self.no_menu() ==> {
            &&& Self::normal_paste_key(key, mods) ==> r is Paste && self.same_view(new)
            &&& !Self::normal_paste_key(key, mods) && motion(
                self.text(),
                self.cursor().0,
                self.cursor().1,
                key,
            ) is Some ==> {
                &&& new.cursor() == motion(self.text(), self.cursor().0, self.cursor().1, key).unwrap()
                &&& new.text() == self.text()
                &&& new.mode_spec() == self.mode_spec()
                &&& new.anchor() == self.anchor()
                &&& r is Nothing
            }
            &&& (key == Key::Char('g') || key == Key::Char(' ') || key == Key::Char('"')) ==> {
                &&& r is Nothing
                &&& self.same_view(new)
                &&& new.menu().active_spec()
                &&& new.menu().menu_type_spec() == if key == Key::Char('g') {
                    MenuType::GoTo
                } else if key == Key::Char(' ') {
                    MenuType::File
                } else {
                    MenuType::AI
                }
            }
            &&& key == Key::Char('s') ==> r is Save && r->Save_0@ == self.text() && self.same_view(new)
            &&& key == Key::Char('q') ==> r is Quit && self.same_view(new)
            &&& key == Key::Char('d') ==> {
                &&& r is Nothing
                &&& new.mode_spec() == Mode::Normal
                &&& i < self.text().len() ==> new.text() == self.text().remove(i) && new.cursor()
                    == position_spec(new.text(), i)
                &&& i >= self.text().len() ==> new.text() == self.text() && new.cursor() == self.cursor()
            }
            &&& key == Key::Char('i') ==> {
                &&& r is Nothing
                &&& new.mode_spec() == Mode::Insert
                &&& new.cursor() == self.cursor()
                &&& self.text().len() > 0 ==> new.text() == self.text()
                &&& self.text().len() == 0 ==> new.text() == seq!['\n']
            }
            &&& key == Key::Char('v') && !mods.alt ==> {
                &&& r is Nothing
                &&& new.mode_spec() == Mode::Select
                &&& new.anchor() == Some((self.cursor().0 as usize, self.cursor().1 as usize))
                &&& new.selecting()
                &&& new.cursor() == self.cursor()
                &&& new.text() == self.text()
            }
        }
    }

    /// What a key does in Insert mode.
    pub open spec fn insert_key_spec(&self, new: Editor, key: Key, mods: KeyModifiers, r: Effect) -> bool {
        let i = char_idx_spec(self.text(), self.cursor().0, self.cursor().1);
        &&& mods.meta && key == Key::Char('v') ==> r is Paste && self.same_view(new)
        &&& (key == Key::Up || key == Key::Down || key == Key::Left || key == Key::Right) ==> {
            &&& r is Nothing
            &&& new.cursor() == motion(self.text(), self.cursor().0, self.cursor().1, key).unwrap()
            &&& new.text() == self.text()
            &&& new.mode_spec() == Mode::Insert
        }
        &&& key is Char && key->Char_0 != '\n' && !(mods.meta && key == Key::Char('v')) ==> {
            &&& r is Nothing
            &&& new.text() == self.text().insert(i, key->Char_0)
            &&& new.cursor() == position_spec(new.text(), i + 1)
            &&& new.modified_spec()
            &&& new.mode_spec() == Mode::Insert
            &&& new.cache().dirty() == self.cache().dirty().insert(self.cursor().0 as usize)
        }
        &&& (key == Key::Enter || key == Key::Char('\n')) ==> {
            &&& r is Nothing
            &&& new.text() == self.text().insert(i, '\n')
            &&& new.cursor() == position_spec(new.text(), i + 1)
            &&& new.modified_spec()
            &&& new.mode_spec() == Mode::Insert
        }
        &&& key == Key::Backspace ==> {
            &&& r is Nothing
            &&& i > 0 ==> new.text() == self.text().remove(i - 1) && new.cursor() == position_spec(
                new.text(),
                i - 1,
            ) && new.modified_spec()
            &&& i == 0 ==> new.text() == self.text() && new.cursor() == self.cursor()
            &&& new.mode_spec() == Mode::Insert
        }
        &&& key == Key::Delete ==> {
            &&& r is Nothing
            &&& i < self.text().len() ==> new.text() == self.text().remove(i) && new.cursor()
                == position_spec(new.text(), i) && new.modified_spec()
            &&& i >= self.text().len() ==> new.text() == self.text() && new.cursor() == self.cursor()
            &&& new.mode_spec() == Mode::Insert
        }
        &&& key == Key::Esc ==> r is Nothing && new.mode_spec() == Mode::Normal && new.text()
            == self.text() && new.cursor() == self.cursor()
    }

    /// What a key does in Select mode: a waiting Go-To menu takes it first.
    pub open spec fn select_key_spec(&self, new: Editor, key: Key, r: Effect) -> bool {
        let goto = self.menu().active_spec() && self.menu().menu_type_spec() == MenuType::GoTo;
        &&& goto ==> {
            &&& r is Nothing
            &&& !new.menu().active_spec()
            &&& !menu_command(MenuType::GoTo, key) ==> self.same_view(new)
            &&& menu_command(MenuType::GoTo, key) ==> new.cursor() == goto_target(
                self.text(),
                self.cursor().0,
                key,
            ) && new.text() == self.text() && new.mode_spec() == Mode::Select && new.anchor()
                == self.anchor()
        }
        &&& !goto ==> {
            &&& motion(self.text(), self.cursor().0, self.cursor().1, key) is Some ==> {
                &&& new.cursor() == motion(self.text(), self.cursor().0, self.cursor().1, key).unwrap()
                &&& new.text() == self.text()
                &&& new.mode_spec() == Mode::Select
                &&& new.anchor() == self.anchor()
                &&& new.selecting() == self.selecting()
                &&& r is Nothing
            }
            &&& key == Key::Esc ==> {
                &&& r is Nothing
                &&& new.mode_spec() == Mode::Normal
                &&& new.selection_spec() is None
                &&& new.text() == self.text()
                &&& new.cursor() == self.cursor()
            }
            &&& key == Key::Char('d') && self.selection_spec() is Some ==> {
                let (a, b) = self.selection_spec().unwrap();
                &&& r is Nothing
                &&& new.text() == self.text().subrange(0, a) + self.text().subrange(
                    b,
                    self.text().len() as int,
                )
                &&& new.cursor() == position_spec(new.text(), a)
                &&& new.mode_spec() == Mode::Normal
                &&& new.selection_spec() is None
            }
            &&& key == Key::Char('y') ==> self.same_view(new) && (self.selection_spec() is Some
                ==> r is Copy && r->Copy_0@ == self.text().subrange(
                self.selection_spec().unwrap().0,
                self.selection_spec().unwrap().1,
            ))
        }
    }

    /// Applies a key to the editor, by mode and by the menu or file picker
    /// that waits for it, and returns the outside work it asks for.
    pub fn handle_key(&mut self, key: Key, modifiers: KeyModifiers) -> (r: Effect)
        requires
            old(self).wf(),
        ensures
            final(self).wf(),
            old(self).mode_spec() == Mode::Normal ==> old(self).normal_key_spec(
                *final(self),
                key,
                modifiers,
                r,
            ),
            old(self).mode_spec() == Mode::Insert ==> old(self).insert_key_spec(
                *final(self),
                key,
                modifiers,
                r,
            ),
            old(self).mode_spec() == Mode::Select ==> old(self).select_key_spec(*final(self), key, r),
    {
        match self.mode {
            Mode::Normal => self.handle_normal_mode(key, modifiers),
            Mode::Insert => self.handle_insert_mode(key, modifiers),
            Mode::Select => self.handle_select_mode(key, modifiers),
        }
    }

    /// Applies a motion key; `false` for a key that is no motion.
    fn apply_motion(&mut self, key: Key) -> (r: bool)
        requires
            old(self).wf(),
        ensures
            final(self).wf(),
            r == motion(old(self).text(), old(self).cursor().0, old(self).cursor().1, key) is Some,
            r ==> final(self).cursor() == motion(
                old(self).text(),
                old(self).cursor().0,
                old(self).cursor().1,
                key,
            ).unwrap(),
            !r ==> final(self).cursor() == old(self).cursor(),
            final(self).text() == old(self).text(),
            final(self).mode_spec() == old(self).mode_spec(),
            final(self).anchor() == old(self).anchor(),
            final(self).selecting() == old(self).selecting(),
            final(self).menu() == old(self).menu(),
    {
        match key {
            Key::Up | Key::Char('k') => {
                self.move_cursor_up();
                true
            },
            Key::Down | Key::Char('j') => {
                self.move_cursor_down();
                true
            },
            Key::Left | Key::Char('h') => {
                self.move_cursor_left();
                true
            },
            Key::Right | Key::Char('l') => {
                self.move_cursor_right();
                true
            },
            _ => false,
        }
    }

    /// The keys of the Go-To menu.
    fn handle_goto_key(&mut self, key: Key)
        requires
            old(self).wf(),
        ensures
            final(self).wf(),
            final(self).text() == old(self).text(),
            final(self).mode_spec() == old(self).mode_spec(),
            final(self).anchor() == old(self).anchor(),
            final(self).selecting() == old(self).selecting(),
            final(self).menu() == old(self).menu(),
            !menu_command(MenuType::GoTo, key) ==> final(self).cursor() == old(self).cursor(),
            menu_command(MenuType::GoTo, key) ==> final(self).cursor() == goto_target(
                old(self).text(),
                old(self).cursor().0,
                key,
            ),
            key == Key::Char('l') ==> final(self).cursor() == (
                old(self).cursor().0,
                content_len(old(self).text(), old(self).cursor().0),
            ),
            key == Key::Char('h') ==> final(self).cursor() == (old(self).cursor().0, 0int),
            key == Key::Char('g') ==> final(self).cursor() == (0int, 0int),
            key == Key::Char('e') ==> final(self).cursor() == (
                line_count(old(self).text()) - 1,
                content_len(old(self).text(), line_count(old(self).text()) - 1),
            ),
    {
        match key {
            Key::Char('l') => self.move_to_end_of_line(),
            Key::Char('h') => self.move_to_start_of_line(),
            Key::Char('g') => self.move_to_start_of_buffer(),
            Key::Char('e') => self.move_to_end_of_buffer(),
            _ => {},
        }
    }

    /// The keys of the save-as file name input.
    fn handle_save_as_key(&mut self, key: Key) -> (r: Effect)
        requires
            old(self).wf(),
        ensures
            final(self).wf(),
            final(self).text() == old(self).text(),
            final(self).cursor() == old(self).cursor(),
            final(self).mode_spec() == old(self).mode_spec(),
            key is Char ==> final(self).menu().file_picker.input_spec() == old(self).menu().file_picker.input_spec().insert(
                old(self).menu().file_picker.cursor_spec() as int,
                key->Char_0,
            ),
            (key == Key::Enter || key == Key::Esc) ==> !final(self).menu().file_picker.active_spec(),
            final(self).anchor() == old(self).anchor(),
            final(self).selecting() == old(self).selecting(),
            key == Key::Enter && crate::filepicker::trim_of(
                old(self).menu().file_picker.input_spec(),
            ).len() > 0 ==> r is SaveAs && r->SaveAs_0@ == crate::filepicker::trim_of(
                old(self).menu().file_picker.input_spec(),
            ) && r->SaveAs_1@ == old(self).text(),
            !(key == Key::Enter && crate::filepicker::trim_of(
                old(self).menu().file_picker.input_spec(),
            ).len() > 0) ==> r is Nothing,
    {
        match key {
            Key::Char(c) => {
                self.menu_status.file_picker.insert_char(c);
                Effect::Nothing
            },
            Key::Backspace => {
                self.menu_status.file_picker.delete_previous_char();
                Effect::Nothing
            },
            Key::Delete => {
                self.menu_status.file_picker.delete_current_char();
                Effect::Nothing
            },
            Key::Left => {
                self.menu_status.file_picker.move_cursor_pos_left();
                Effect::Nothing
            },
            Key::Right => {
                self.menu_status.file_picker.move_cursor_pos_right();
                Effect::Nothing
            },
            Key::Enter => {
                let file_name = self.menu_status.file_picker.get_input();
                self.menu_status.reset();
                if file_name.as_str().is_empty() {
                    Effect::Nothing
                } else {
                    Effect::SaveAs(file_name, self.get_content())
                }
            },
            Key::Esc => {
                self.menu_status.reset();
                Effect::Nothing
            },
            _ => Effect::Nothing,
        }
    }

    /// The keys of the file picker open for loading.
    fn handle_load_key(&mut self, key: Key) -> (r: Effect)
        requires
            old(self).wf(),
        ensures
            final(self).wf(),
            final(self).text() == old(self).text(),
            final(self).cursor() == old(self).cursor(),
            final(self).mode_spec() == old(self).mode_spec(),
            key == Key::Esc ==> !final(self).menu().file_picker.active_spec()
                && final(self).menu().file_picker.files_spec().len() == 0,
            key == Key::Up || key == Key::Down ==> {
                let fp = old(self).menu().file_picker;
                let j = fp.index_spec();
                let n = fp.files_spec().len();
                &&& final(self).menu().file_picker.index_spec() == if key == Key::Up {
                    if j > 0 {
                        (j - 1) as usize
                    } else {
                        0
                    }
                } else if j + 1 < n {
                    (j + 1) as usize
                } else {
                    j
                }
                &&& final(self).menu().file_picker.files_spec() == fp.files_spec()
                &&& final(self).menu().file_picker.active_spec() == fp.active_spec()
                &&& final(self).menu().file_picker.action_spec() == fp.action_spec()
                &&& final(self).menu().active_spec() == old(self).menu().active_spec()
            },
            !(key == Key::Up || key == Key::Down || key == Key::Enter || key == Key::Esc) ==> final(
                self).menu() == old(self).menu(),
            final(self).anchor() == old(self).anchor(),
            final(self).selecting() == old(self).selecting(),
            key == Key::Enter && old(self).menu().file_picker.index_spec() < old(self).menu().file_picker.files_spec().len() ==> !final(self).menu().file_picker.active_spec()
                && r is Load && r->Load_0@ == old(self).menu().file_picker.files_spec()[old(self).menu().file_picker.index_spec() as int]@,
            !(key == Key::Enter && old(self).menu().file_picker.index_spec() < old(self).menu().file_picker.files_spec().len()) ==> r is Nothing,
    {
        match key {
            Key::Up => {
                self.menu_status.file_picker.move_file_picker_up();
                Effect::Nothing
            },
            Key::Down => {
                self.menu_status.file_picker.move_file_picker_down();
                Effect::Nothing
            },
            Key::Enter => {
                match self.menu_status.file_picker.get_selected_file() {
                    Some(f) => {
                        let name = f.clone();
                        self.menu_status.reset();
                        Effect::Load(name)
                    },
                    None => Effect::Nothing,
                }
            },
            Key::Esc => {
                self.menu_status.reset();
                Effect::Nothing
            },
            _ => Effect::Nothing,
        }
    }

    /// Starts a request of the whole text to `model`.
    fn submit(&mut self, model: Model) -> (r: Effect)
        requires
            old(self).wf(),
        ensures
            final(self).wf(),
            final(self).awaiting_response(),
            r is Submit && r->Submit_0@ == old(self).text() && r->Submit_1 == model,
            final(self).text() == old(self).text(),
            final(self).cursor() == old(self).cursor(),
            final(self).mode_spec() == old(self).mode_spec(),
            final(self).menu() == old(self).menu(),
            final(self).anchor() == old(self).anchor(),
            final(self).selecting() == old(self).selecting(),
    {
        let content = self.get_content();
        self.needs_response_check = true;
        Effect::Submit(content, model)
    }

    /// Empties the text and asks for it to be saved.
    fn wipe_buffer(&mut self) -> (r: Effect)
        requires
            old(self).wf(),
        ensures
            final(self).wf(),
            final(self).text().len() == 0,
            final(self).cursor() == (0int, 0int),
            r is Save && r->Save_0@.len() == 0,
            final(self).mode_spec() == old(self).mode_spec(),
            final(self).menu() == old(self).menu(),
            final(self).anchor() == old(self).anchor(),
            final(self).selecting() == old(self).selecting(),
    {
        self.buffer = rope_new();
        proof {
            assert(self.text().len() == 0);
            assert(nl_count(self.text()) == 0);
            lemma_line_order(self.text(), 0);
        }
        self.cursor_row = 0;
        self.cursor_col = 0;
        self.modified = false;
        self.update_syntax_highlighting();
        Effect::Save(self.get_content())
    }

    /// Copies the selection, if any.
    fn copy_selection(&self) -> (r: Effect)
        ensures
            self.selection_spec() is Some ==> r is Copy && r->Copy_0@ == self.text().subrange(
                self.selection_spec().unwrap().0,
                self.selection_spec().unwrap().1,
            ),
            self.selection_spec() is None ==> r is Nothing,
    {
        match self.get_selected_text() {
            Some(text) => Effect::Copy(text),
            None => Effect::Nothing,
        }
    }

    fn handle_normal_mode(&mut self, key: Key, modifiers: KeyModifiers) -> (r: Effect)
        requires
            old(self).wf(),
            old(self).mode_spec() == Mode::Normal,
        ensures
            final(self).wf(),
            old(self).normal_key_spec(*final(self), key, modifiers, r),
    {
        if self.menu_status.file_picker_state(Action::Save) {
            return self.handle_save_as_key(key);
        }
        if self.menu_status.file_picker_state(Action::Load) {
            return self.handle_load_key(key);
        }
        if self.menu_status.is_active(MenuType::GoTo) && !self.menu_status.is_file_picker_active() {
            self.menu_status.reset();
            self.handle_goto_key(key);
            return Effect::Nothing;
        }
        if self.menu_status.is_active(MenuType::AI) && !self.menu_status.is_file_picker_active() {
            self.menu_status.reset();
            return match key {
                Key::Char('a') => self.submit(Model::ANTROPIC),
                Key::Char('o') => self.submit(Model::OPENAI),
                Key::Char('l') => self.submit(Model::OLLAMA),
                _ => Effect::Nothing,
            };
        }
        if self.menu_status.is_active(MenuType::File) && !self.menu_status.is_file_picker_active() {
            self.menu_status.reset();
            return match key {
                Key::Char('w') => self.wipe_buffer(),
                Key::Char('s') => Effect::Save(self.get_content()),
                Key::Char('S') => {
                    self.menu_status.file_picker.init_file_save_as();
                    Effect::Nothing
                },
                Key::Char('l') => Effect::ListFiles,
                Key::Char('q') => Effect::Quit,
                _ => Effect::Nothing,
            };
        }
        if self.menu_status.is_active_menu() && !self.menu_status.is_file_picker_active() {
            // a menu without commands of its own takes the key too
            self.menu_status.reset();
            return Effect::Nothing;
        }
        if self.menu_status.is_file_picker_active() {
            // a picker open for nothing takes no keys
            return Effect::Nothing;
        }
        if (modifiers.alt && key == Key::Char('v')) || (modifiers.is_empty() && key == Key::Char(
            'p',
        )) {
            return Effect::Paste;
        }
        if self.apply_motion(key) {
            return Effect::Nothing;
        }
        match key {
            Key::Char('x') => {
                self.select_current_line();
                Effect::Nothing
            },
            Key::Char('g') => {
                let _ = self.menu_status.set_active_menu(MenuType::GoTo);
                Effect::Nothing
            },
            Key::Char(' ') => {
                let _ = self.menu_status.set_active_menu(MenuType::File);
                Effect::Nothing
            },
            Key::Char('"') => {
                let _ = self.menu_status.set_active_menu(MenuType::AI);
                Effect::Nothing
            },
            Key::Char('v') => {
                self.mode = Mode::Select;
                self.selection_start = Some((self.cursor_row, self.cursor_col));
                self.selection_active = true;
                Effect::Nothing
            },
            Key::Char('y') => self.copy_selection(),
            Key::Char('i') => {
                self.mode = Mode::Insert;
                if rope_len_chars(&self.buffer) == 0 {
                    rope_insert(&mut self.buffer, 0, "\n");
                    proof {
                        reveal_strlit("\n");
                        assert(self.text() =~= seq!['\n']);
                        assert(self.text().drop_last() =~= Seq::<char>::empty());
                        assert(nl_count(self.text().drop_last()) == 0);
                        lemma_line_order(self.text(), 0);
                    }
                    self.cursor_row = 0;
                    self.cursor_col = 0;
                }
                Effect::Nothing
            },
            Key::Char('s') => Effect::Save(self.get_content()),
            Key::Char('d') => {
                self.delete_char_at_cursor();
                Effect::Nothing
            },
            Key::Char('q') => Effect::Quit,
            _ => Effect::Nothing,
        }
    }

    fn handle_insert_mode(&mut self, key: Key, modifiers: KeyModifiers) -> (r: Effect)
        requires
            old(self).wf(),
            old(self).mode_spec() == Mode::Insert,
        ensures
            final(self).wf(),
            old(self).insert_key_spec(*final(self), key, modifiers, r),
    {
        if modifiers.meta && key == Key::Char('v') {
            return Effect::Paste;
        }
        match key {
            Key::Esc => {
                self.mode = Mode::Normal;
            },
            Key::Char(c) => {
                if c == '\n' {
                    self.insert_newline();
                } else {
                    self.insert_char(c);
                }
            },
            Key::Enter => self.insert_newline(),
            Key::Backspace => self.delete_char_before_cursor(),
            Key::Delete => self.delete_char_at_cursor(),
            Key::Up | Key::Down | Key::Left | Key::Right => {
                let _ = self.apply_motion(key);
            },
            _ => {},
        }
        Effect::Nothing
    }

    fn handle_select_mode(&mut self, key: Key, modifiers: KeyModifiers) -> (r: Effect)
        requires
            old(self).wf(),
            old(self).mode_spec() == Mode::Select,
        ensures
            final(self).wf(),
            old(self).select_key_spec(*final(self), key, r),
    {
        if self.menu_status.is_active(MenuType::GoTo) {
            self.menu_status.reset();
            self.handle_goto_key(key);
            return Effect::Nothing;
        }
        if self.apply_motion(key) {
            return Effect::Nothing;
        }
        match key {
            Key::Char('x') => {
                self.select_current_line();
                Effect::Nothing
            },
            Key::Char('g') => {
                let _ = self.menu_status.set_active_menu(MenuType::GoTo);
                Effect::Nothing
            },
            Key::Esc => {
                self.mode = Mode::Normal;
                self.selection_active = false;
                self.selection_start = None;
                Effect::Nothing
            },
            Key::Char('y') => self.copy_selection(),
            Key::Char('d') => {
                let _ = self.delete_selection();
                Effect::Nothing
            },
            _ => {
                self.menu_status.reset();
                Effect::Nothing
            },
        }
    }
}

/// The lines of `s`, without their line feeds.
pub open spec fn lines_of(s: Seq<char>) -> Seq<Seq<char>> {
    Seq::new(
        line_count(s),
        |i: int| s.subrange(line_start(s, i), line_start(s, i) + content_len(s, i)),
    )
}

impl Editor {
    /// A well-formed editor's cursor lies on its text.
    pub proof fn lemma_cursor_valid(&self)
        requires
            self.wf(),
        ensures
            valid_position(self.text(), self.cursor().0, self.cursor().1),
    {
    }

    /// The chars of line `row`, without its line feed.
    pub fn line_chars(&self, row: usize) -> (r: Vec<char>)
        requires
            row < line_count(self.text()),
        ensures
            r@ == lines_of(self.text())[row as int],
    {
        proof {
            lemma_line_order(self.text(), row as int);
        }
        let _len = rope_len_chars(&self.buffer);
        let start = rope_line_to_char(&self.buffer, row);
        let n = self.line_content_len(row);
        rope_slice_chars(&self.buffer, start, start + n)
    }

    /// Every line of the text, without line feeds.
    pub fn lines(&self) -> (r: Vec<Vec<char>>)
        ensures
            r@.map_values(|l: Vec<char>| l@) == lines_of(self.text()),
    {
        let n = rope_len_lines(&self.buffer);
        let mut r: Vec<Vec<char>> = Vec::new();
        let mut i: usize = 0;
        while i < n
            invariant
                i <= n,
                n == line_count(self.text()),
                r@.map_values(|l: Vec<char>| l@) == lines_of(self.text()).subrange(0, i as int),
            decreases n - i,
        {
            let l = self.line_chars(i);
            let ghost before = r@;
            r.push(l);
            assert(r@.map_values(|l: Vec<char>| l@) =~= before.map_values(|l: Vec<char>| l@).push(
                l@,
            ));
            i = i + 1;
            assert(r@.map_values(|l: Vec<char>| l@) =~= lines_of(self.text()).subrange(0, i as int));
        }
        assert(lines_of(self.text()).subrange(0, n as int) =~= lines_of(self.text()));
        r
    }
}


/// Byte-range highlights of text `s` turned into char ranges; those past
/// the end of the text are dropped.
pub open spec fn char_highlights(s: Seq<char>, h: Seq<ByteHighlight>) -> Seq<Highlight>
    decreases h.len(),
{
    if h.len() == 0 {
        seq![]
    } else {
        let rest = char_highlights(s, h.drop_last());
        let b = h.last();
        if b.start <= byte_len(s) && b.end <= byte_len(s) {
            rest.push(
                Highlight {
                    start: chars_within(s, b.start as int) as usize,
                    end: chars_within(s, b.end as int) as usize,
                    style: b.style,
                },
            )
        } else {
            rest
        }
    }
}

impl Editor {
    /// Turns highlights over byte ranges of the text into char ranges.
    pub fn convert_highlights_to_char_ranges(&self, highlights: &Vec<ByteHighlight>) -> (r: Vec<
        Highlight,
    >)
        ensures
            r@ == char_highlights(self.text(), highlights@),
    {
        let len_bytes = rope_len_bytes(&self.buffer);
        let mut r: Vec<Highlight> = Vec::new();
        let mut i: usize = 0;
        while i < highlights.len()
            invariant
                i <= highlights@.len(),
                len_bytes == byte_len(self.text()),
                r@ == char_highlights(self.text(), highlights@.subrange(0, i as int)),
            decreases highlights@.len() - i,
        {
            let b = highlights[i];
            proof {
                let next = highlights@.subrange(0, i + 1);
                assert(next.drop_last() =~= highlights@.subrange(0, i as int));
                assert(next.last() == b);
            }
            if b.start <= len_bytes && b.end <= len_bytes {
                let start = rope_byte_to_char(&self.buffer, b.start);
                let end = rope_byte_to_char(&self.buffer, b.end);
                r.push(Highlight { start, end, style: b.style });
            }
            i = i + 1;
        }
        assert(highlights@.subrange(0, highlights@.len() as int) =~= highlights@);
        r
    }
}

} // verus!

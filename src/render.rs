//! The view: soft-wrapped line geometry, scrolling, a double-buffered
//! cell frame, and the minimal writes that turn one frame into the next.

use crate::async_handler::RequestState;
use crate::editor::{lines_of, Editor, Mode};
use crate::syntax::Style;
use crate::text::string_of_chars;
use vstd::prelude::*;

verus! {

/// Terminal colours the view uses.
#[derive(Debug, Clone, Copy, PartialEq, Eq, Structural)]
pub enum Color {
    Reset,
    White,
    Black,
    Grey,
    DarkGrey,
    Red,
    Green,
    Yellow,
    Blue,
    Magenta,
    Cyan,
}

/// One screen cell: a character with its foreground and background.
#[derive(Debug, Clone, Copy, PartialEq, Eq, Structural)]
pub struct Cell {
    pub ch: char,
    pub fg: Color,
    pub bg: Option<Color>,
}

/// The blank cell.
pub open spec fn blank_cell() -> Cell {
    Cell { ch: ' ', fg: Color::Reset, bg: None }
}

/// The colours a style is drawn with.
pub open spec fn style_colors_spec(style: Style) -> (Color, Option<Color>) {
    match style {
        Style::Normal => (Color::White, None),
        Style::Keyword => (Color::Magenta, None),
        Style::Function => (Color::Blue, None),
        Style::Type => (Color::Cyan, None),
        Style::String => (Color::Green, None),
        Style::Number => (Color::Yellow, None),
        Style::Comment => (Color::DarkGrey, None),
        Style::Variable => (Color::White, None),
        Style::Constant => (Color::Yellow, None),
        Style::Operator => (Color::White, None),
        Style::Selection => (Color::Black, Some(Color::Grey)),
        Style::Error => (Color::Red, Some(Color::White)),
    }
}

pub fn style_colors(style: Style) -> (r: (Color, Option<Color>))
    ensures
        r == style_colors_spec(style),
{
    match style {
        Style::Normal => (Color::White, None),
        Style::Keyword => (Color::Magenta, None),
        Style::Function => (Color::Blue, None),
        Style::Type => (Color::Cyan, None),
        Style::String => (Color::Green, None),
        Style::Number => (Color::Yellow, None),
        Style::Comment => (Color::DarkGrey, None),
        Style::Variable => (Color::White, None),
        Style::Constant => (Color::Yellow, None),
        Style::Operator => (Color::White, None),
        Style::Selection => (Color::Black, Some(Color::Grey)),
        Style::Error => (Color::Red, Some(Color::White)),
    }
}

/// Tab stops are this many columns apart.
pub const TAB_WIDTH: usize = 4;

/// Columns that `c` takes when `dw` columns are drawn before it: a tab
/// reaches the next tab stop, anything else takes one.
pub open spec fn char_width(c: char, dw: int) -> int {
    if c == '\t' {
        TAB_WIDTH - dw % (TAB_WIDTH as int)
    } else {
        1
    }
}

/// How many chars of `line` from `pos` on fit within `max_width` columns
/// when `dw` columns are drawn already.
pub open spec fn fit_count(line: Seq<char>, pos: int, dw: int, max_width: int) -> nat
    decreases line.len() - pos,
{
    if pos < 0 || pos >= line.len() {
        0
    } else if dw + char_width(line[pos], dw) > max_width {
        0
    } else {
        1 + fit_count(line, pos + 1, dw + char_width(line[pos], dw), max_width)
    }
}

/// Start columns of the screen rows of `line` from column `start` on.
pub open spec fn chunk_starts_from(line: Seq<char>, start: int, max_width: int) -> Seq<int>
    decreases line.len() - start,
{
    if start < 0 || start >= line.len() {
        seq![]
    } else {
        let n = fit_count(line, start, 0, max_width);
        let step: int = if n == 0 {
            1
        } else {
            n as int
        };
        let next = if start + step > line.len() {
            line.len() as int
        } else {
            start + step
        };
        seq![start] + chunk_starts_from(line, next, max_width)
    }
}

/// Start columns of the screen rows of `line`; an empty line takes one.
pub open spec fn chunk_starts(line: Seq<char>, max_width: int) -> Seq<int> {
    if line.len() == 0 {
        seq![0]
    } else {
        chunk_starts_from(line, 0, max_width)
    }
}

/// Where a screen row of the wrapped document starts.
#[derive(Debug, Clone, Copy, PartialEq, Eq, Structural)]
pub struct WrappedLineInfo {
    pub logical_line: usize,
    pub start_col: usize,
    pub screen_row: usize,
}

/// The screen rows of the wrapped lines, in order: `(line, start column)`.
pub open spec fn wrapped_rows(lines: Seq<Seq<char>>, max_width: int) -> Seq<(int, int)>
    decreases lines.len(),
{
    if lines.len() == 0 {
        seq![]
    } else {
        let k = lines.len() - 1;
        wrapped_rows(lines.drop_last(), max_width) + chunk_starts(lines[k], max_width).map_values(
            |s: int| (k, s),
        )
    }
}

/// The wrapped-line geometry: each screen row with its line and start.
pub open spec fn wrap_spec(lines: Seq<Seq<char>>, max_width: int) -> Seq<WrappedLineInfo> {
    let rows = wrapped_rows(lines, max_width);
    Seq::new(
        rows.len(),
        |i: int|
            WrappedLineInfo {
                logical_line: rows[i].0 as usize,
                start_col: rows[i].1 as usize,
                screen_row: i as usize,
            },
    )
}

/// How many chars of `line` from `start` fit within `max_width` columns.
fn fit_chars(line: &Vec<char>, start: usize, max_width: usize) -> (r: usize)
    requires
        start <= line@.len(),
    ensures
        r == fit_count(line@, start as int, 0, max_width as int),
        start + r <= line@.len(),
{
    let mut dw: usize = 0;
    let mut k: usize = 0;
    while k < line.len() - start
        invariant
            start + k <= line@.len(),
            dw <= max_width,
            k + fit_count(line@, start + k, dw as int, max_width as int) == fit_count(
                line@,
                start as int,
                0,
                max_width as int,
            ),
        decreases line@.len() - start - k,
    {
        let ch = line[start + k];
        assert(line@[start + k] == ch);
        let width: usize = if ch == '\t' {
            TAB_WIDTH - dw % TAB_WIDTH
        } else {
            1
        };
        if width > max_width - dw {
            return k;
        }
        dw = dw + width;
        k = k + 1;
    }
    k
}

/// Start columns of the screen rows of one line.
pub fn wrap_line(line: &Vec<char>, max_width: usize) -> (r: Vec<usize>)
    ensures
        r@.map_values(|v: usize| v as int) == chunk_starts(line@, max_width as int),
{
    let mut r: Vec<usize> = Vec::new();
    if line.len() == 0 {
        r.push(0);
        assert(r@.map_values(|v: usize| v as int) =~= seq![0int]);
        return r;
    }
    let mut pos: usize = 0;
    while pos < line.len()
        invariant
            pos <= line@.len(),
            line@.len() > 0,
            r@.map_values(|v: usize| v as int) + chunk_starts_from(line@, pos as int, max_width as int)
                == chunk_starts_from(line@, 0, max_width as int),
        decreases line@.len() - pos,
    {
        let ghost old_r = r@;
        let n = fit_chars(line, pos, max_width);
        let step: usize = if n == 0 {
            1
        } else {
            n
        };
        r.push(pos);
        assert(r@.map_values(|v: usize| v as int) =~= old_r.map_values(|v: usize| v as int).push(
            pos as int,
        ));
        assert(chunk_starts_from(line@, pos as int, max_width as int) =~= seq![pos as int]
            + chunk_starts_from(line@, pos + step, max_width as int));
        pos = pos + step;
    }
    assert(chunk_starts_from(line@, pos as int, max_width as int) =~= Seq::<int>::empty());
    r
}

/// The wrapped-line geometry of `lines` at `max_width` columns.
pub fn compute_wrapped_lines(lines: &Vec<Vec<char>>, max_width: usize) -> (r: Vec<WrappedLineInfo>)
    ensures
        r@ == wrap_spec(lines@.map_values(|l: Vec<char>| l@), max_width as int),
{
    let ghost ls = lines@.map_values(|l: Vec<char>| l@);
    let mut r: Vec<WrappedLineInfo> = Vec::new();
    let mut i: usize = 0;
    while i < lines.len()
        invariant
            i <= lines@.len(),
            ls == lines@.map_values(|l: Vec<char>| l@),
            r@ == wrap_spec(ls.subrange(0, i as int), max_width as int),
        decreases lines@.len() - i,
    {
        let starts = wrap_line(&lines[i], max_width);
        let ghost before = r@;
        let ghost prev_rows = wrapped_rows(ls.subrange(0, i as int), max_width as int);
        let mut j: usize = 0;
        while j < starts.len()
            invariant
                i < lines@.len(),
                j <= starts@.len(),
                starts@.map_values(|v: usize| v as int) == chunk_starts(ls[i as int], max_width as int),
                before == wrap_spec(ls.subrange(0, i as int), max_width as int),
                prev_rows == wrapped_rows(ls.subrange(0, i as int), max_width as int),
                r@.len() == before.len() + j,
                r@.subrange(0, before.len() as int) == before,
                forall|k: int|
                    0 <= k < j ==> #[trigger] r@[before.len() + k] == (WrappedLineInfo {
                        logical_line: i,
                        start_col: starts@[k],
                        screen_row: (before.len() + k) as usize,
                    }),
            decreases starts@.len() - j,
        {
            let row = r.len();
            r.push(WrappedLineInfo { logical_line: i, start_col: starts[j], screen_row: row });
            j = j + 1;
            assert(r@.subrange(0, before.len() as int) =~= before);
        }
        proof {
            let next = ls.subrange(0, i + 1);
            assert(next.drop_last() =~= ls.subrange(0, i as int));
            assert(next[i as int] == ls[i as int]);
            let rows = wrapped_rows(next, max_width as int);
            assert(rows == prev_rows + chunk_starts(ls[i as int], max_width as int).map_values(
                |s: int| (i as int, s),
            ));
            assert(r@ =~= wrap_spec(next, max_width as int)) by {
                assert forall|k: int| 0 <= k < r@.len() implies r@[k] == wrap_spec(
                    next,
                    max_width as int,
                )[k] by {
                    if k >= before.len() {
                        let kk = k - before.len();
                        assert(r@[before.len() + kk] == r@[k]);
                        assert(starts@.map_values(|v: usize| v as int)[kk] == starts@[kk] as int);
                    } else {
                        assert(r@[k] == r@.subrange(0, before.len() as int)[k]);
                    }
                }
            }
        }
        i = i + 1;
    }
    assert(ls.subrange(0, lines@.len() as int) =~= ls);
    r
}


/// The decimal digit for `d < 10`.
pub open spec fn digit_char(d: nat) -> char {
    if d == 0 {
        '0'
    } else if d == 1 {
        '1'
    } else if d == 2 {
        '2'
    } else if d == 3 {
        '3'
    } else if d == 4 {
        '4'
    } else if d == 5 {
        '5'
    } else if d == 6 {
        '6'
    } else if d == 7 {
        '7'
    } else if d == 8 {
        '8'
    } else {
        '9'
    }
}

/// The decimal notation of `n`.
pub open spec fn decimal(n: nat) -> Seq<char>
    decreases n,
{
    if n < 10 {
        seq![digit_char(n)]
    } else {
        decimal(n / 10).push(digit_char(n % 10))
    }
}

fn digit(d: usize) -> (r: char)
    requires
        d < 10,
    ensures
        r == digit_char(d as nat),
{
    if d == 0 {
        '0'
    } else if d == 1 {
        '1'
    } else if d == 2 {
        '2'
    } else if d == 3 {
        '3'
    } else if d == 4 {
        '4'
    } else if d == 5 {
        '5'
    } else if d == 6 {
        '6'
    } else if d == 7 {
        '7'
    } else if d == 8 {
        '8'
    } else {
        '9'
    }
}

/// The decimal digits of `n`.
pub fn decimal_chars(n: usize) -> (r: Vec<char>)
    ensures
        r@ == decimal(n as nat),
    decreases n,
{
    if n < 10 {
        let mut v: Vec<char> = Vec::new();
        v.push(digit(n));
        assert(v@ =~= decimal(n as nat));
        v
    } else {
        let mut v = decimal_chars(n / 10);
        v.push(digit(n % 10));
        v
    }
}

/// A line number right-aligned in `width` columns, then a space.
pub open spec fn line_number_label_spec(n: nat, width: nat) -> Seq<char> {
    let d = decimal(n);
    let pad: nat = if d.len() < width {
        (width - d.len()) as nat
    } else {
        0
    };
    Seq::new(pad, |i: int| ' ') + d + seq![' ']
}

pub fn line_number_label(n: usize, width: usize) -> (r: Vec<char>)
    ensures
        r@ == line_number_label_spec(n as nat, width as nat),
{
    let d = decimal_chars(n);
    let pad: usize = if d.len() < width {
        width - d.len()
    } else {
        0
    };
    let mut r: Vec<char> = Vec::new();
    let mut i: usize = 0;
    while i < pad
        invariant
            i <= pad,
            r@ == Seq::new(i as nat, |k: int| ' '),
        decreases pad - i,
    {
        r.push(' ');
        i = i + 1;
        assert(r@ =~= Seq::new(i as nat, |k: int| ' '));
    }
    let mut j: usize = 0;
    while j < d.len()
        invariant
            j <= d@.len(),
            r@ == Seq::new(pad as nat, |k: int| ' ') + d@.subrange(0, j as int),
        decreases d@.len() - j,
    {
        r.push(d[j]);
        j = j + 1;
        assert(r@ =~= Seq::new(pad as nat, |k: int| ' ') + d@.subrange(0, j as int));
    }
    r.push(' ');
    assert(d@.subrange(0, d@.len() as int) =~= d@);
    assert(r@ =~= line_number_label_spec(n as nat, width as nat));
    r
}

/// The screen-row info holding the cursor `(row, col)`: of the rows of
/// line `row` that start at or before `col`, the one starting last.
pub open spec fn cursor_row_info(infos: Seq<WrappedLineInfo>, row: int, col: int) -> Option<
    WrappedLineInfo,
>
    decreases infos.len(),
{
    if infos.len() == 0 {
        None
    } else {
        let prev = cursor_row_info(infos.drop_last(), row, col);
        let w = infos.last();
        if w.logical_line == row && w.start_col <= col && (prev is None || w.start_col
            > prev.unwrap().start_col) {
            Some(w)
        } else {
            prev
        }
    }
}

/// The screen row of the cursor in the wrapped document (0 if none holds
/// it).
pub open spec fn cursor_screen_row(infos: Seq<WrappedLineInfo>, row: int, col: int) -> int {
    match cursor_row_info(infos, row, col) {
        Some(w) => w.screen_row as int,
        None => 0,
    }
}

/// The scroll offset after bringing the cursor's screen row into a
/// viewport of `height` rows, clamped to the last full viewport.
pub open spec fn scrolled(offset: int, cursor_row: int, height: int, total: int) -> int {
    let s1 = if cursor_row < offset {
        cursor_row
    } else if cursor_row >= offset + height {
        cursor_row - height + 1
    } else {
        offset
    };
    let max_scroll = if total > height {
        total - height
    } else {
        0
    };
    if s1 > max_scroll {
        max_scroll
    } else {
        s1
    }
}

/// The info of the screen row that holds the cursor.
pub fn find_cursor_row(infos: &Vec<WrappedLineInfo>, row: usize, col: usize) -> (r: Option<
    WrappedLineInfo,
>)
    ensures
        r == cursor_row_info(infos@, row as int, col as int),
{
    let mut best: Option<WrappedLineInfo> = None;
    let mut i: usize = 0;
    while i < infos.len()
        invariant
            i <= infos@.len(),
            best == cursor_row_info(infos@.subrange(0, i as int), row as int, col as int),
        decreases infos@.len() - i,
    {
        let w = infos[i];
        proof {
            let next = infos@.subrange(0, i + 1);
            assert(next.drop_last() =~= infos@.subrange(0, i as int));
            assert(next.last() == w);
        }
        if w.logical_line == row && w.start_col <= col {
            match best {
                Some(b) => {
                    if w.start_col > b.start_col {
                        best = Some(w);
                    }
                },
                None => {
                    best = Some(w);
                },
            }
        }
        i = i + 1;
    }
    assert(infos@.subrange(0, infos@.len() as int) =~= infos@);
    best
}

/// A write to the terminal.
#[derive(Debug, Clone)]
pub enum DrawOp {
    MoveTo(usize, usize),
    SetForeground(Color),
    SetBackground(Color),
    ResetColor,
    Print(String),
}

/// The view's state: terminal size, scroll, the wrapped geometry, and the
/// current and previous frames (row after row, `width` cells each).
pub struct RenderState {
    wrapped_lines_info: Vec<WrappedLineInfo>,
    scroll_offset: usize,
    term_width: u16,
    term_height: u16,
    line_number_width: usize,
    force_full_redraw: bool,
    current_buffer: Vec<Cell>,
    previous_buffer: Vec<Cell>,
}

/// A frame of `n` blank cells.
pub open spec fn blank_frame(n: nat) -> Seq<Cell> {
    Seq::new(n, |i: int| blank_cell())
}

fn blank_cells(n: usize) -> (r: Vec<Cell>)
    ensures
        r@ == blank_frame(n as nat),
{
    let mut v: Vec<Cell> = Vec::new();
    let mut i: usize = 0;
    while i < n
        invariant
            i <= n,
            v@ == blank_frame(i as nat),
        decreases n - i,
    {
        v.push(Cell { ch: ' ', fg: Color::Reset, bg: None });
        i = i + 1;
        assert(v@ =~= blank_frame(i as nat));
    }
    v
}

impl RenderState {
    pub closed spec fn width(&self) -> nat {
        self.term_width as nat
    }

    pub closed spec fn height(&self) -> nat {
        self.term_height as nat
    }

    /// The frame being drawn.
    pub closed spec fn frame(&self) -> Seq<Cell> {
        self.current_buffer@
    }

    /// The frame last shown.
    pub closed spec fn previous_frame(&self) -> Seq<Cell> {
        self.previous_buffer@
    }

    pub closed spec fn scroll(&self) -> nat {
        self.scroll_offset as nat
    }

    pub closed spec fn wrapped(&self) -> Seq<WrappedLineInfo> {
        self.wrapped_lines_info@
    }

    pub closed spec fn number_width(&self) -> nat {
        self.line_number_width as nat
    }

    /// Both frames hold `width * height` cells.
    pub closed spec fn wf(&self) -> bool {
        &&& self.current_buffer@.len() == self.width() * self.height()
        &&& self.previous_buffer@.len() == self.width() * self.height()
        &&& self.line_number_width <= 32
    }

    /// A terminal's size fits in `u16`, and a well-formed frame holds
    /// `width * height` cells.
    pub proof fn lemma_bounds(&self)
        ensures
            self.width() <= 0xffff,
            self.height() <= 0xffff,
            self.wf() ==> self.frame().len() == self.width() * self.height(),
    {
    }

    /// A view of `width` by `height` cells, both frames blank.
    pub fn new(term_width: u16, term_height: u16) -> (r: Self)
        ensures
            r.wf(),
            r.width() == term_width,
            r.height() == term_height,
            r.frame() == blank_frame(r.width() * r.height()),
            r.previous_frame() == blank_frame(r.width() * r.height()),
            r.scroll() == 0,
            r.wrapped().len() == 0,
            r.number_width() == 4,
    {
        proof {
            lemma_frame_size(term_width as int, term_height as int);
        }
        let n = (term_width as usize) * (term_height as usize);
        RenderState {
            wrapped_lines_info: Vec::new(),
            scroll_offset: 0,
            term_width,
            term_height,
            line_number_width: 4,
            force_full_redraw: false,
            current_buffer: blank_cells(n),
            previous_buffer: blank_cells(n),
        }
    }

    /// Takes the terminal's size; on a change both frames become blank at
    /// the new size and `true` asks for the screen to be cleared.
    pub fn update_dimensions(&mut self, width: u16, height: u16) -> (r: bool)
        requires
            old(self).wf(),
        ensures
            final(self).wf(),
            r == (width as nat != old(self).width() || height as nat != old(self).height()),
            final(self).width() == width,
            final(self).height() == height,
            r ==> final(self).frame() == blank_frame(final(self).width() * final(self).height())
                && final(self).previous_frame() == blank_frame(
                final(self).width() * final(self).height(),
            ),
            !r ==> final(self).frame() == old(self).frame() && final(self).previous_frame() == old(self).previous_frame(),
            final(self).scroll() == old(self).scroll(),
            final(self).wrapped() == old(self).wrapped(),
    {
        if width != self.term_width || height != self.term_height {
            self.term_width = width;
            self.term_height = height;
            proof {
                lemma_frame_size(width as int, height as int);
            }
            let n = (width as usize) * (height as usize);
            self.current_buffer = blank_cells(n);
            self.previous_buffer = blank_cells(n);
            self.force_full_redraw = true;
            true
        } else {
            false
        }
    }

    pub fn term_width(&self) -> (r: u16)
        ensures
            r == self.width(),
    {
        self.term_width
    }

    pub fn term_height(&self) -> (r: u16)
        ensures
            r == self.height(),
    {
        self.term_height
    }

    pub fn scroll_offset(&self) -> (r: usize)
        ensures
            r == self.scroll(),
    {
        self.scroll_offset
    }

    pub fn wrapped_lines_info(&self) -> (r: &Vec<WrappedLineInfo>)
        ensures
            r@ == self.wrapped(),
    {
        &self.wrapped_lines_info
    }

    pub fn line_number_width(&self) -> (r: usize)
        ensures
            r == self.number_width(),
    {
        self.line_number_width
    }

    /// The cell at `(x, y)` of the frame being drawn.
    pub fn cell(&self, x: usize, y: usize) -> (r: Option<Cell>)
        requires
            self.wf(),
        ensures
            x < self.width() && y < self.height() ==> r == Some(
                self.frame()[at(self.width(), x as int, y as int)],
            ),
            !(x < self.width() && y < self.height()) ==> r is None,
    {
        if y < self.term_height as usize && x < self.term_width as usize {
            let w = self.term_width as usize;
            proof {
                lemma_cell_index(x as int, y as int, self.width() as int, self.height() as int);
            }
            Some(self.current_buffer[y * w + x])
        } else {
            None
        }
    }

    /// Writes a cell of the frame being drawn; outside the frame nothing
    /// happens.
    pub fn set_cell(&mut self, x: usize, y: usize, ch: char, fg: Color, bg: Option<Color>)
        requires
            old(self).wf(),
        ensures
            final(self).wf(),
            final(self).width() == old(self).width(),
            final(self).height() == old(self).height(),
            final(self).previous_frame() == old(self).previous_frame(),
            final(self).scroll() == old(self).scroll(),
            final(self).wrapped() == old(self).wrapped(),
            final(self).number_width() == old(self).number_width(),
            x < old(self).width() && y < old(self).height() ==> final(self).frame() == old(self).frame().update(at(old(self).width(), x as int, y as int), Cell { ch, fg, bg }),
            !(x < old(self).width() && y < old(self).height()) ==> final(self).frame() == old(self).frame(),
    {
        if y < self.term_height as usize && x < self.term_width as usize {
            let w = self.term_width as usize;
            proof {
                lemma_cell_index(x as int, y as int, self.width() as int, self.height() as int);
            }
            self.current_buffer.set(y * w + x, Cell { ch, fg, bg });
        }
    }

    /// Whether the cell at `(x, y)` differs from the frame last shown.
    pub fn cell_changed(&self, x: usize, y: usize) -> (r: bool)
        requires
            self.wf(),
        ensures
            r == (x < self.width() && y < self.height() && self.frame()[at(self.width(), x as int, y as int)]
                != self.previous_frame()[at(self.width(), x as int, y as int)]),
    {
        if y >= self.term_height as usize || x >= self.term_width as usize {
            return false;
        }
        let w = self.term_width as usize;
        proof {
            lemma_cell_index(x as int, y as int, self.width() as int, self.height() as int);
        }
        self.current_buffer[y * w + x] != self.previous_buffer[y * w + x]
    }

    /// The frame just drawn becomes the one last shown.
    pub fn swap_buffers(&mut self)
        requires
            old(self).wf(),
        ensures
            final(self).wf(),
            final(self).frame() == old(self).previous_frame(),
            final(self).previous_frame() == old(self).frame(),
            final(self).width() == old(self).width(),
            final(self).height() == old(self).height(),
            final(self).scroll() == old(self).scroll(),
            final(self).wrapped() == old(self).wrapped(),
            final(self).number_width() == old(self).number_width(),
    {
        std::mem::swap(&mut self.current_buffer, &mut self.previous_buffer);
    }

    /// Blanks the frame being drawn.
    pub fn clear_buffer(&mut self)
        requires
            old(self).wf(),
        ensures
            final(self).wf(),
            final(self).frame() == blank_frame(old(self).width() * old(self).height()),
            final(self).previous_frame() == old(self).previous_frame(),
            final(self).width() == old(self).width(),
            final(self).height() == old(self).height(),
            final(self).scroll() == old(self).scroll(),
            final(self).wrapped() == old(self).wrapped(),
            final(self).number_width() == old(self).number_width(),
    {
        let n = self.current_buffer.len();
        let mut i: usize = 0;
        while i < n
            invariant
                i <= n,
                n == self.current_buffer@.len(),
                self.current_buffer@.len() == old(self).current_buffer@.len(),
                self.previous_buffer == old(self).previous_buffer,
                self.term_width == old(self).term_width,
                self.term_height == old(self).term_height,
                self.scroll_offset == old(self).scroll_offset,
                self.wrapped_lines_info == old(self).wrapped_lines_info,
                self.line_number_width == old(self).line_number_width,
                forall|k: int| 0 <= k < i ==> self.current_buffer@[k] == blank_cell(),
            decreases n - i,
        {
            self.current_buffer.set(i, Cell { ch: ' ', fg: Color::Reset, bg: None });
            i = i + 1;
        }
        assert(self.current_buffer@ =~= blank_frame(old(self).width() * old(self).height()));
    }

    /// Brings the cursor's screen row into the viewport (the rows above the
    /// two status lines), through the current wrapped geometry.
    pub fn adjust_scroll(&mut self, cursor_row: usize, cursor_col: usize)
        requires
            old(self).wf(),
        ensures
            final(self).wf(),
            final(self).scroll() == scrolled(
                old(self).scroll() as int,
                cursor_screen_row(old(self).wrapped(), cursor_row as int, cursor_col as int),
                viewport_rows(old(self).height() as int),
                old(self).wrapped().len() as int,
            ),
            final(self).frame() == old(self).frame(),
            final(self).previous_frame() == old(self).previous_frame(),
            final(self).width() == old(self).width(),
            final(self).height() == old(self).height(),
            final(self).wrapped() == old(self).wrapped(),
            final(self).number_width() == old(self).number_width(),
    {
        let viewport_height: usize = if self.term_height > 2 {
            (self.term_height - 2) as usize
        } else {
            1
        };
        let visual = match find_cursor_row(&self.wrapped_lines_info, cursor_row, cursor_col) {
            Some(w) => w.screen_row,
            None => 0,
        };
        let total = self.wrapped_lines_info.len();
        let mut s = self.scroll_offset;
        if visual < s {
            s = visual;
        } else if visual - s >= viewport_height {
            s = visual - viewport_height + 1;
        }
        let max_scroll = if total > viewport_height {
            total - viewport_height
        } else {
            0
        };
        if s > max_scroll {
            s = max_scroll;
        }
        self.scroll_offset = s;
    }
}

/// Index of cell `(x, y)` in a frame `width` cells wide.
pub open spec fn at(width: nat, x: int, y: int) -> int {
    y * width + x
}

/// Rows of text above the two status lines (at least one).
pub open spec fn viewport_rows(height: int) -> int {
    if height > 2 {
        height - 2
    } else {
        1
    }
}

/// A frame of terminal size fits in `usize`.
pub proof fn lemma_frame_size(width: int, height: int)
    requires
        0 <= width <= 0xffff,
        0 <= height <= 0xffff,
    ensures
        0 <= width * height <= 0xfffe0001,
        width * height <= usize::MAX,
{
    assert(0 <= width * height <= 0xfffe0001) by (nonlinear_arith)
        requires
            0 <= width <= 0xffff,
            0 <= height <= 0xffff,
    ;
}

/// Cell `(x, y)` of a `width` by `height` frame lies within it.
pub proof fn lemma_cell_index(x: int, y: int, width: int, height: int)
    requires
        0 <= x < width <= 0xffff,
        0 <= y < height <= 0xffff,
    ensures
        0 <= y * width + x < width * height,
        y * width + x <= usize::MAX,
        0 <= y * width <= usize::MAX,
{
    lemma_frame_size(width, height);
    assert(y * width + x < width * height) by (nonlinear_arith)
        requires
            0 <= x < width,
            0 <= y < height,
    ;
    assert(0 <= y * width) by (nonlinear_arith)
        requires
            0 <= y,
            0 <= width,
    ;
}


/// Columns left for text after the line numbers.
pub open spec fn text_columns(width: int, number_width: int) -> int {
    if width > number_width + 1 {
        width - number_width - 1
    } else {
        0
    }
}

/// The label of a screen row: its line's number where the line starts,
/// blanks on the rows it wraps onto.
pub open spec fn row_label(info: WrappedLineInfo, number_width: nat) -> Seq<char> {
    if info.start_col == 0 {
        line_number_label_spec(one_based(info.logical_line as nat), number_width)
    } else {
        Seq::new(number_width + 1, |i: int| ' ')
    }
}

/// The characters a line shows from `pos` on, `dw` columns being drawn,
/// within `max_w` columns: a tab as spaces up to its stop.
pub open spec fn shown_chars(line: Seq<char>, pos: int, dw: int, max_w: int) -> Seq<char>
    decreases line.len() - pos,
{
    if pos < 0 || pos >= line.len() || dw + char_width(line[pos], dw) > max_w {
        seq![]
    } else {
        let w = char_width(line[pos], dw);
        let ch = if line[pos] == '\t' {
            ' '
        } else {
            line[pos]
        };
        Seq::new(w as nat, |i: int| ch) + shown_chars(line, pos + 1, dw + w, max_w)
    }
}

/// The styles of the cells `shown_chars` gives: each char's cells take the
/// style `e` draws its position `(row, pos)` with.
pub open spec fn shown_styles(e: Editor, row: int, line: Seq<char>, pos: int, dw: int, max_w: int) -> Seq<
    Style,
>
    decreases line.len() - pos,
{
    if pos < 0 || pos >= line.len() || dw + char_width(line[pos], dw) > max_w {
        seq![]
    } else {
        let w = char_width(line[pos], dw);
        Seq::new(w as nat, |i: int| e.pos_style(row, pos)) + shown_styles(
            e,
            row,
            line,
            pos + 1,
            dw + w,
            max_w,
        )
    }
}

proof fn lemma_shown_styles_len(e: Editor, row: int, line: Seq<char>, pos: int, dw: int, max_w: int)
    ensures
        shown_styles(e, row, line, pos, dw, max_w).len() == shown_chars(line, pos, dw, max_w).len(),
    decreases line.len() - pos,
{
    if !(pos < 0 || pos >= line.len() || dw + char_width(line[pos], dw) > max_w) {
        lemma_shown_styles_len(e, row, line, pos + 1, dw + char_width(line[pos], dw), max_w);
    }
}

/// The styles of what the screen row `info` shows of `lines`.
pub open spec fn row_styles(e: Editor, lines: Seq<Seq<char>>, info: WrappedLineInfo, max_w: int) -> Seq<
    Style,
> {
    if info.logical_line < lines.len() {
        shown_styles(
            e,
            info.logical_line as int,
            lines[info.logical_line as int],
            info.start_col as int,
            0,
            max_w,
        )
    } else {
        seq![]
    }
}

/// What the screen row `info` shows of `lines` in `max_w` columns.
pub open spec fn row_shown(lines: Seq<Seq<char>>, info: WrappedLineInfo, max_w: int) -> Seq<
    char,
> {
    if info.logical_line < lines.len() {
        shown_chars(lines[info.logical_line as int], info.start_col as int, 0, max_w)
    } else {
        seq![]
    }
}

/// Whether row `y` of `frame` (`width` cells wide) shows the label, then
/// the shown text (in any colours), then blanks.
pub open spec fn row_drawn(
    frame: Seq<Cell>,
    width: nat,
    y: int,
    label: Seq<char>,
    number_width: nat,
    shown: Seq<char>,
    styles: Seq<Style>,
) -> bool {
    forall|x: int|
        0 <= x < width ==> {
            let c = #[trigger] frame[at(width, x, y)];
            if x < number_width + 1 {
                c == Cell { ch: label[x], fg: Color::DarkGrey, bg: None }
            } else if x < number_width + 1 + shown.len() {
                c.ch == shown[x - number_width - 1] && (c.fg, c.bg) == style_colors_spec(
                    styles[x - number_width - 1],
                )
            } else {
                c == blank_cell()
            }
        }
}

proof fn lemma_row_drawn_same(
    f1: Seq<Cell>,
    f2: Seq<Cell>,
    width: nat,
    y: int,
    label: Seq<char>,
    number_width: nat,
    shown: Seq<char>,
    styles: Seq<Style>,
)
    requires
        row_drawn(f1, width, y, label, number_width, shown, styles),
        forall|x: int| 0 <= x < width ==> #[trigger] f2[at(width, x, y)] == f1[at(width, x, y)],
    ensures
        row_drawn(f2, width, y, label, number_width, shown, styles),
{
    assert forall|x: int| 0 <= x < width implies {
        let c = #[trigger] f2[at(width, x, y)];
        if x < number_width + 1 {
            c == Cell { ch: label[x], fg: Color::DarkGrey, bg: None }
        } else if x < number_width + 1 + shown.len() {
            c.ch == shown[x - number_width - 1] && (c.fg, c.bg) == style_colors_spec(
                styles[x - number_width - 1],
            )
        } else {
            c == blank_cell()
        }
    } by {
        assert(f2[at(width, x, y)] == f1[at(width, x, y)]);
    }
}

proof fn lemma_label_len(info: WrappedLineInfo, number_width: nat)
    ensures
        row_label(info, number_width).len() >= number_width + 1,
{
}

proof fn lemma_shown_len(line: Seq<char>, pos: int, dw: int, max_w: int)
    requires
        0 <= dw <= max_w,
    ensures
        shown_chars(line, pos, dw, max_w).len() <= max_w - dw,
    decreases line.len() - pos,
{
    if !(pos < 0 || pos >= line.len() || dw + char_width(line[pos], dw) > max_w) {
        let w = char_width(line[pos], dw);
        lemma_shown_len(line, pos + 1, dw + w, max_w);
    }
}

/// Row `y` lies at other indices than the cells of any other row.
proof fn lemma_rows_apart(width: int, x: int, y: int, y2: int)
    requires
        0 <= x < width,
        0 <= y,
        0 <= y2,
        y != y2,
    ensures
        !(y2 * width <= y * width + x < y2 * width + width),
{
    if y < y2 {
        assert(y * width + width <= y2 * width) by (nonlinear_arith)
            requires
                y < y2,
                0 <= width,
        ;
    } else {
        assert(y2 * width + width <= y * width) by (nonlinear_arith)
            requires
                y2 < y,
                0 <= width,
        ;
    }
}

impl RenderState {
    /// Writes `cells` into row `y` from the left, blanks after them; the
    /// other rows keep.
    fn write_row(&mut self, y: usize, cells: &Vec<Cell>)
        requires
            old(self).wf(),
        ensures
            final(self).wf(),
            final(self).width() == old(self).width(),
            final(self).height() == old(self).height(),
            final(self).scroll() == old(self).scroll(),
            final(self).wrapped() == old(self).wrapped(),
            final(self).number_width() == old(self).number_width(),
            final(self).previous_frame() == old(self).previous_frame(),
            y < old(self).height() ==> forall|x: int|
                0 <= x < old(self).width() ==> #[trigger] final(self).frame()[at(
                    old(self).width(),
                    x,
                    y as int,
                )] == if x < cells@.len() {
                    cells@[x]
                } else {
                    blank_cell()
                },
            forall|i: int|
                0 <= i < old(self).frame().len() && !(y < old(self).height() && y * old(self).width() <= i < y * old(
                    self).width() + old(self).width()) ==> #[trigger] final(self).frame()[i] == old(
                    self).frame()[i],
    {
        if y >= self.term_height as usize {
            return ;
        }
        let width = self.term_width as usize;
        let ghost w = old(self).width() as int;
        let ghost h = old(self).height() as int;
        proof {
            lemma_frame_size(w, h);
            assert(y * w <= usize::MAX) by (nonlinear_arith)
                requires
                    0 <= y < h,
                    0 <= w,
                    w * h <= usize::MAX,
            ;
            assert(y * w + w <= w * h) by (nonlinear_arith)
                requires
                    0 <= y < h,
                    0 <= w,
            ;
        }
        let base = y * width;
        let mut x: usize = 0;
        while x < width
            invariant
                x <= width,
                width == w,
                base == y * w,
                base + width <= self.current_buffer@.len(),
                self.current_buffer@.len() <= usize::MAX,
                self.current_buffer@.len() == old(self).current_buffer@.len(),
                self.previous_buffer == old(self).previous_buffer,
                self.term_width == old(self).term_width,
                self.term_height == old(self).term_height,
                self.scroll_offset == old(self).scroll_offset,
                self.wrapped_lines_info == old(self).wrapped_lines_info,
                self.line_number_width == old(self).line_number_width,
                forall|i: int|
                    0 <= i < self.current_buffer@.len() && !(base <= i < base + x)
                        ==> self.current_buffer@[i] == old(self).current_buffer@[i],
                forall|k: int|
                    0 <= k < x ==> #[trigger] self.current_buffer@[base + k] == if k
                        < cells@.len() {
                        cells@[k]
                    } else {
                        blank_cell()
                    },
            decreases width - x,
        {
            let cell = row_cell_at(cells, x);
            self.current_buffer.set(base + x, cell);
            x = x + 1;
        }
    }
}

/// The char at `i` of `v`.
fn char_at(v: &Vec<char>, i: usize) -> (r: char)
    requires
        i < v@.len(),
    ensures
        r == v@[i as int],
{
    v[i]
}

/// The label of a screen row.
fn row_label_chars(info: WrappedLineInfo, number_width: usize) -> (r: Vec<char>)
    requires
        number_width <= 32,
    ensures
        r@ == row_label(info, number_width as nat),
{
    if info.start_col == 0 {
        let number = if info.logical_line < usize::MAX {
            info.logical_line + 1
        } else {
            info.logical_line
        };
        line_number_label(number, number_width)
    } else {
        let mut spaces: Vec<char> = Vec::new();
        let mut k: usize = 0;
        while k < number_width + 1
            invariant
                number_width <= 32,
                k <= number_width + 1,
                spaces@ == Seq::new(k as nat, |i: int| ' '),
            decreases number_width + 1 - k,
        {
            spaces.push(' ');
            k = k + 1;
            assert(spaces@ =~= Seq::new(k as nat, |i: int| ' '));
        }
        spaces
    }
}

/// The cell at `x` of `cells`, blank past its end.
fn row_cell_at(cells: &Vec<Cell>, x: usize) -> (r: Cell)
    ensures
        r == if x < cells@.len() {
            cells@[x as int]
        } else {
            blank_cell()
        },
{
    if x < cells.len() {
        cells[x]
    } else {
        Cell { ch: ' ', fg: Color::Reset, bg: None }
    }
}

/// Draws the visible screen rows of the wrapped document into the frame:
/// line numbers on the rows where lines start, each shown char in the
/// colours of its style (a tab as spaces up to its stop), the rest of the
/// row blank; rows below the text stay blank. The wrapped geometry is
/// recomputed from the whole text first.
pub fn draw_content_to_buffer(editor: &mut Editor, render_state: &mut RenderState)
    requires
        old(editor).wf(),
        old(render_state).wf(),
    ensures
        final(editor).wf(),
        final(editor).text() == old(editor).text(),
        final(editor).cursor() == old(editor).cursor(),
        final(editor).selection_spec() == old(editor).selection_spec(),
        final(editor).mode_spec() == old(editor).mode_spec(),
        final(render_state).wf(),
        final(render_state).wrapped() == wrap_spec(
            lines_of(old(editor).text()),
            text_columns(old(render_state).width() as int, old(render_state).number_width() as int),
        ),
        final(render_state).width() == old(render_state).width(),
        final(render_state).height() == old(render_state).height(),
        final(render_state).scroll() == old(render_state).scroll(),
        final(render_state).number_width() == old(render_state).number_width(),
        final(render_state).previous_frame() == old(render_state).previous_frame(),
        ({
            let rs = *final(render_state);
            let total = rs.wrapped().len() as int;
            let start = if rs.scroll() < total {
                rs.scroll() as int
            } else {
                total
            };
            let rows = if total - start > viewport_rows(rs.height() as int) {
                viewport_rows(rs.height() as int)
            } else {
                total - start
            };
            let max_w = text_columns(rs.width() as int, rs.number_width() as int);
            &&& forall|k: int|
                0 <= k < rows && k < rs.height() ==> #[trigger] row_drawn(
                    rs.frame(),
                    rs.width(),
                    k,
                    row_label(rs.wrapped()[start + k], rs.number_width()),
                    rs.number_width(),
                    row_shown(lines_of(old(editor).text()), rs.wrapped()[start + k], max_w),
                    row_styles(
                        *old(editor),
                        lines_of(old(editor).text()),
                        rs.wrapped()[start + k],
                        max_w,
                    ),
                )
            &&& forall|x: int, y: int|
                0 <= x < rs.width() && rows <= y < rs.height() ==> #[trigger] rs.frame()[at(
                    rs.width(),
                    x,
                    y,
                )] == blank_cell()
        }),
{
    proof {
        render_state.lemma_bounds();
    }
    let width = render_state.term_width as usize;
    let height = render_state.term_height as usize;
    let viewport_height: usize = if render_state.term_height > 2 {
        (render_state.term_height - 2) as usize
    } else {
        1
    };
    let line_number_width = render_state.line_number_width;
    let max_line_width: usize = if width > line_number_width + 1 {
        width - line_number_width - 1
    } else {
        0
    };
    let lines = editor.lines();
    let ghost ls = lines_of(editor.text());
    render_state.wrapped_lines_info = compute_wrapped_lines(&lines, max_line_width);
    render_state.clear_buffer();
    let total = render_state.wrapped_lines_info.len();
    let viewport_start = if render_state.scroll_offset < total {
        render_state.scroll_offset
    } else {
        total
    };
    let viewport_end: usize = if total - viewport_start > viewport_height {
        viewport_start + viewport_height
    } else {
        total
    };
    let ghost e0 = *editor;
    let ghost r0 = *render_state;
    let ghost w = r0.width();
    let ghost nw = r0.number_width();
    proof {
        assert forall|x: int, y: int|
            0 <= x < w && 0 <= y < r0.height() implies #[trigger] render_state.frame()[at(
                w,
                x,
                y,
            )] == blank_cell() by {
            lemma_cell_index(x, y, w as int, r0.height() as int);
        }
    }
    let mut screen_row = viewport_start;
    while screen_row < viewport_end
        invariant
            viewport_start <= screen_row <= viewport_end,
            viewport_end <= total,
            viewport_end - viewport_start <= viewport_height,
            total == render_state.wrapped_lines_info@.len(),
            line_number_width <= 32,
            line_number_width == nw,
            w == r0.width(),
            nw == r0.number_width(),
            max_line_width == text_columns(w as int, nw as int),
            max_line_width <= width,
            width == w,
            height == r0.height(),
            w <= 0xffff,
            lines@.map_values(|l: Vec<char>| l@) == ls,
            ls == lines_of(e0.text()),
            editor.wf(),
            editor.text() == e0.text(),
            editor.cursor() == e0.cursor(),
            editor.selection_spec() == e0.selection_spec(),
            editor.mode_spec() == e0.mode_spec(),
            render_state.wf(),
            render_state.width() == r0.width(),
            render_state.height() == r0.height(),
            render_state.scroll() == r0.scroll(),
            render_state.wrapped() == r0.wrapped(),
            render_state.number_width() == r0.number_width(),
            render_state.previous_frame() == r0.previous_frame(),
            forall|k: int|
                0 <= k < screen_row - viewport_start && k < r0.height() ==> #[trigger] row_drawn(
                    render_state.frame(),
                    w,
                    k,
                    row_label(r0.wrapped()[viewport_start + k], nw),
                    nw,
                    row_shown(ls, r0.wrapped()[viewport_start + k], max_line_width as int),
                    row_styles(e0, ls, r0.wrapped()[viewport_start + k], max_line_width as int),
                ),
            forall|rr: int, cc: int|
                0 <= rr && 0 <= cc ==> #[trigger] editor.pos_style(rr, cc) == e0.pos_style(rr, cc),
            forall|x: int, y: int|
                0 <= x < w && screen_row - viewport_start <= y < r0.height() ==> #[trigger] render_state.frame()[at(
                    w,
                    x,
                    y,
                )] == blank_cell(),
        decreases viewport_end - screen_row,
    {
        let y = screen_row - viewport_start;
        let ghost rs_mid = *render_state;
        let wli = render_state.wrapped_lines_info[screen_row];
        let logical_line = wli.logical_line;
        let start_col = wli.start_col;
        let label = row_label_chars(wli, line_number_width);
        proof {
            lemma_label_len(wli, nw);
            assert(label@ == row_label(wli, nw));
        }
        let mut cells: Vec<Cell> = Vec::new();
        let mut x: usize = 0;
        while x < line_number_width + 1
            invariant
                *render_state == rs_mid,
                label@ == row_label(wli, nw),
                nw == line_number_width,
                line_number_width <= 32,
                x <= line_number_width + 1,
                label@.len() >= line_number_width + 1,
                cells@.len() == x,
                forall|i: int|
                    0 <= i < x ==> #[trigger] cells@[i] == (Cell {
                        ch: label@[i],
                        fg: Color::DarkGrey,
                        bg: None,
                    }),
            decreases line_number_width + 1 - x,
        {
            let c = char_at(&label, x);
            cells.push(Cell { ch: c, fg: Color::DarkGrey, bg: None });
            x = x + 1;
        }
        let ghost shown = row_shown(ls, wli, max_line_width as int);
        let ghost styles = row_styles(e0, ls, wli, max_line_width as int);
        if logical_line < lines.len() {
            let line_chars = &lines[logical_line];
            proof {
                assert(line_chars@ == ls[logical_line as int]);
                lemma_shown_len(line_chars@, start_col as int, 0, max_line_width as int);
                lemma_shown_styles_len(
                    e0,
                    logical_line as int,
                    line_chars@,
                    start_col as int,
                    0,
                    max_line_width as int,
                );
            }
            let mut displayed_width: usize = 0;
            let mut chars_drawn: usize = 0;
            let mut full = false;
            while !full && start_col < line_chars.len() && chars_drawn < line_chars.len() - start_col
                invariant
                    *render_state == rs_mid,
                    label@ == row_label(wli, nw),
                    full ==> shown_chars(
                        line_chars@,
                        start_col + chars_drawn,
                        displayed_width as int,
                        max_line_width as int,
                    ).len() == 0,
                    displayed_width <= max_line_width,
                    max_line_width <= width,
                    width <= 0xffff,
                    line_number_width <= 32,
                    line_chars@ == ls[logical_line as int],
                    shown == shown_chars(line_chars@, start_col as int, 0, max_line_width as int),
                    cells@.len() == line_number_width + 1 + displayed_width,
                    shown_chars(line_chars@, start_col + chars_drawn, displayed_width as int, max_line_width as int)
                        == shown.subrange(displayed_width as int, shown.len() as int),
                    displayed_width <= shown.len(),
                    forall|i: int|
                        0 <= i < line_number_width + 1 ==> #[trigger] cells@[i] == (Cell {
                            ch: label@[i],
                            fg: Color::DarkGrey,
                            bg: None,
                        }),
                    forall|i: int|
                        0 <= i < displayed_width ==> #[trigger] cells@[line_number_width + 1 + i].ch
                            == shown[i],
                    forall|i: int|
                        0 <= i < displayed_width ==> (#[trigger] cells@[line_number_width + 1 + i].fg,
                        cells@[line_number_width + 1 + i].bg) == style_colors_spec(styles[i]),
                    styles == shown_styles(
                        e0,
                        logical_line as int,
                        line_chars@,
                        start_col as int,
                        0,
                        max_line_width as int,
                    ),
                    styles.len() == shown.len(),
                    shown_styles(
                        e0,
                        logical_line as int,
                        line_chars@,
                        start_col + chars_drawn,
                        displayed_width as int,
                        max_line_width as int,
                    ) == styles.subrange(displayed_width as int, styles.len() as int),
                    forall|rr: int, cc: int|
                        0 <= rr && 0 <= cc ==> #[trigger] editor.pos_style(rr, cc) == e0.pos_style(
                            rr,
                            cc,
                        ),
                    editor.wf(),
                    editor.text() == e0.text(),
                    editor.cursor() == e0.cursor(),
                    editor.selection_spec() == e0.selection_spec(),
                    editor.mode_spec() == e0.mode_spec(),
                decreases (if full {
                    0int
                } else {
                    1int
                }), line_chars@.len() - start_col - chars_drawn,
            {
                let ch = char_at(line_chars, start_col + chars_drawn);
                let char_w: usize = if ch == '\t' {
                    TAB_WIDTH - displayed_width % TAB_WIDTH
                } else {
                    1
                };
                if char_w > max_line_width - displayed_width {
                    full = true;
                    continue;
                }
                let style = editor.get_style_for_position(logical_line, start_col + chars_drawn);
                let (fg, bg) = style_colors(style);
                let shown_ch = if ch == '\t' {
                    ' '
                } else {
                    ch
                };
                proof {
                    let p = start_col + chars_drawn;
                    let rest = shown_chars(line_chars@, p, displayed_width as int, max_line_width as int);
                    assert(rest == Seq::new(char_w as nat, |i: int| shown_ch) + shown_chars(
                        line_chars@,
                        p + 1,
                        displayed_width + char_w,
                        max_line_width as int,
                    ));
                }
                let ghost before = cells@;
                let mut i: usize = 0;
                while i < char_w
                    invariant
                        *render_state == rs_mid,
                        i <= char_w,
                        char_w <= 4,
                        cells@.len() == before.len() + i,
                        forall|k: int| 0 <= k < before.len() ==> #[trigger] cells@[k] == before[k],
                        forall|k: int| 0 <= k < i ==> #[trigger] cells@[before.len() + k] == (Cell {
                            ch: shown_ch,
                            fg,
                            bg,
                        }),
                    decreases char_w - i,
                {
                    cells.push(Cell { ch: shown_ch, fg, bg });
                    i = i + 1;
                }
                proof {
                    let p = start_col + chars_drawn;
                    let rest = shown_chars(line_chars@, p, displayed_width as int, max_line_width as int);
                    assert forall|k: int| 0 <= k < displayed_width + char_w implies #[trigger] cells@[line_number_width + 1 + k].ch == shown[k] by {
                        if k >= displayed_width {
                            assert(rest[k - displayed_width] == shown[k]);
                            assert(cells@[before.len() + (k - displayed_width)] == (Cell { ch: shown_ch, fg, bg }));
                        } else {
                            assert(cells@[line_number_width + 1 + k] == before[line_number_width + 1 + k]);
                        }
                    }
                    let rest_s = shown_styles(
                        e0,
                        logical_line as int,
                        line_chars@,
                        p as int,
                        displayed_width as int,
                        max_line_width as int,
                    );
                    let tail_s = shown_styles(
                        e0,
                        logical_line as int,
                        line_chars@,
                        p + 1,
                        displayed_width + char_w,
                        max_line_width as int,
                    );
                    assert(style == e0.pos_style(logical_line as int, p as int));
                    assert(rest_s == Seq::new(char_w as nat, |i: int| e0.pos_style(logical_line as int, p as int)) + tail_s);
                    assert(rest_s == styles.subrange(displayed_width as int, styles.len() as int));
                    assert forall|k: int| 0 <= k < displayed_width + char_w implies (#[trigger] cells@[line_number_width + 1 + k].fg,
                        cells@[line_number_width + 1 + k].bg) == style_colors_spec(styles[k]) by {
                        if k >= displayed_width {
                            assert(rest_s[k - displayed_width] == styles[k]);
                            assert(cells@[before.len() + (k - displayed_width)] == (Cell { ch: shown_ch, fg, bg }));
                        } else {
                            assert(cells@[line_number_width + 1 + k] == before[line_number_width + 1 + k]);
                        }
                    }
                    assert(tail_s =~= rest_s.subrange(char_w as int, rest_s.len() as int));
                    assert(tail_s =~= styles.subrange(displayed_width + char_w, styles.len() as int));
                    let tail = shown_chars(line_chars@, p + 1, displayed_width + char_w, max_line_width as int);
                    assert(rest == shown.subrange(displayed_width as int, shown.len() as int));
                    assert(tail =~= rest.subrange(char_w as int, rest.len() as int));
                    assert(tail =~= shown.subrange(displayed_width + char_w, shown.len() as int));
                }
                displayed_width = displayed_width + char_w;
                chars_drawn = chars_drawn + 1;
            }
            proof {
                // the loop stops only where nothing more is shown
                let p = start_col + chars_drawn;
                assert(shown_chars(line_chars@, p, displayed_width as int, max_line_width as int).len() == 0);
                assert(displayed_width == shown.len());
            }
        } else {
            proof {
                assert(shown.len() == 0);
                assert(styles.len() == 0);
            }
        }
        let ghost before_frame = render_state.frame();

        render_state.write_row(y, &cells);
        proof {
            let ss = screen_row - viewport_start;
            assert(cells@.len() == nw + 1 + shown.len());
            assert forall|k: int| 0 <= k < ss + 1 && k < r0.height() implies #[trigger] row_drawn(
                render_state.frame(),
                w,
                k,
                row_label(r0.wrapped()[viewport_start + k], nw),
                nw,
                row_shown(ls, r0.wrapped()[viewport_start + k], max_line_width as int),
                row_styles(e0, ls, r0.wrapped()[viewport_start + k], max_line_width as int),
            ) by {
                if k < ss {
                    assert forall|x: int| 0 <= x < w implies #[trigger] render_state.frame()[at(w, x, k)] == before_frame[at(w, x, k)] by {
                        lemma_cell_index(x, k, w as int, r0.height() as int);
                        if y < height {
                            lemma_rows_apart(w as int, x, k, y as int);
                        }
                    }
                    lemma_row_drawn_same(
                        before_frame,
                        render_state.frame(),
                        w,
                        k,
                        row_label(r0.wrapped()[viewport_start + k], nw),
                        nw,
                        row_shown(ls, r0.wrapped()[viewport_start + k], max_line_width as int),
                        row_styles(e0, ls, r0.wrapped()[viewport_start + k], max_line_width as int),
                    );
                } else {
                    assert(r0.wrapped()[viewport_start + k] == wli);
                    assert forall|x: int| 0 <= x < w implies {
                        let c = #[trigger] render_state.frame()[at(w, x, k)];
                        if x < nw + 1 {
                            c == (Cell { ch: row_label(wli, nw)[x], fg: Color::DarkGrey, bg: None })
                        } else if x < nw + 1 + shown.len() {
                            c.ch == shown[x - nw - 1] && (c.fg, c.bg) == style_colors_spec(
                                styles[x - nw - 1],
                            )
                        } else {
                            c == blank_cell()
                        }
                    } by {
                        if x < cells@.len() {
                            assert(render_state.frame()[at(w, x, k)] == cells@[x]);
                            if x >= nw + 1 {
                                let j = x - nw - 1;
                                assert(cells@[line_number_width + 1 + j].ch == shown[j]);
                                assert((cells@[line_number_width + 1 + j].fg, cells@[line_number_width
                                    + 1 + j].bg) == style_colors_spec(styles[j]));
                            }
                        } else {
                            assert(render_state.frame()[at(w, x, k)] == blank_cell());
                        }
                    }
                }
            }
        }
        proof {
            let ss = screen_row - viewport_start;
            assert forall|x: int, y2: int|
                0 <= x < w && ss + 1 <= y2 < r0.height() implies #[trigger] render_state.frame()[at(
                w,
                x,
                y2,
            )] == blank_cell() by {
                lemma_cell_index(x, y2, w as int, r0.height() as int);
                if y < height {
                    lemma_rows_apart(w as int, x, y2, y as int);
                }
                let i = at(w, x, y2);
                assert(before_frame.len() == w * r0.height());
                assert(0 <= i < before_frame.len());
                assert(!(y < r0.height() && y * w <= i < y * w + w));
                assert(render_state.frame()[i] == before_frame[i]);
            }
        }
        screen_row = screen_row + 1;
    }
}

/// The text of the status line: file name, a mark when modified, the mode
/// (or that a menu waits), then the 1-based cursor line and column at the
/// right end of `width` columns.
pub open spec fn status_text(
    name: Seq<char>,
    modified: bool,
    mode: Seq<char>,
    row: nat,
    col: nat,
    width: nat,
) -> Seq<char> {
    let left = name + (if modified {
        " [+] "@
    } else {
        " "@
    }) + " - "@ + mode + " "@;
    let right = "  "@ + decimal(one_based(row)) + ":"@ + decimal(one_based(col)) + "  "@;
    let pad: nat = if width > left.len() + right.len() {
        (width - left.len() - right.len()) as nat
    } else {
        0
    };
    left + Seq::new(pad, |i: int| ' ') + right
}

/// The 1-based number of a 0-based index (the largest index keeps its
/// number).
pub open spec fn one_based(n: nat) -> nat {
    if n < usize::MAX {
        n + 1
    } else {
        n
    }
}

/// The label of a mode in the status line.
pub open spec fn mode_label(waiting: bool, mode: Mode) -> Seq<char> {
    if waiting {
        "WAITING FOR COMMAND"@
    } else {
        match mode {
            Mode::Normal => "NORMAL"@,
            Mode::Insert => "INSERT"@,
            Mode::Select => "SELECT"@,
        }
    }
}

fn push_str(v: &mut Vec<char>, s: &str)
    ensures
        final(v)@ == old(v)@ + s@,
{
    let chars = crate::text::chars_of(s);
    let mut i: usize = 0;
    while i < chars.len()
        invariant
            i <= chars@.len(),
            chars@ == s@,
            v@ == old(v)@ + chars@.subrange(0, i as int),
        decreases chars@.len() - i,
    {
        v.push(chars[i]);
        i = i + 1;
        assert(v@ =~= old(v)@ + chars@.subrange(0, i as int));
    }
    assert(chars@.subrange(0, chars@.len() as int) =~= chars@);
}

fn push_chars(v: &mut Vec<char>, s: &Vec<char>)
    ensures
        final(v)@ == old(v)@ + s@,
{
    let mut i: usize = 0;
    while i < s.len()
        invariant
            i <= s@.len(),
            v@ == old(v)@ + s@.subrange(0, i as int),
        decreases s@.len() - i,
    {
        v.push(s[i]);
        i = i + 1;
        assert(v@ =~= old(v)@ + s@.subrange(0, i as int));
    }
    assert(s@.subrange(0, s@.len() as int) =~= s@);
}

/// The status line's text for `editor` in `width` columns.
pub fn status_line(editor: &Editor, width: usize) -> (r: Vec<char>)
    ensures
        r@ == status_text(
            editor.file_name_spec(),
            editor.modified_spec(),
            mode_label(
                editor.menu().active_spec() && !editor.menu().file_picker.active_spec(),
                editor.mode_spec(),
            ),
            editor.cursor().0 as nat,
            editor.cursor().1 as nat,
            width as nat,
        ),
{
    let mut left: Vec<char> = Vec::new();
    let name = editor.get_file_name().unwrap();
    push_str(&mut left, name);
    if editor.is_modified() {
        push_str(&mut left, " [+] ");
    } else {
        push_str(&mut left, " ");
    }
    push_str(&mut left, " - ");
    let mode = if editor.is_waiting_for_command() {
        "WAITING FOR COMMAND"
    } else {
        match editor.get_mode() {
            Mode::Normal => "NORMAL",
            Mode::Insert => "INSERT",
            Mode::Select => "SELECT",
        }
    };
    push_str(&mut left, mode);
    push_str(&mut left, " ");
    let (row, col) = editor.get_cursor_position();
    let mut right: Vec<char> = Vec::new();
    push_str(&mut right, "  ");
    let row_digits = if row < usize::MAX {
        decimal_chars(row + 1)
    } else {
        decimal_chars(row)
    };
    push_chars(&mut right, &row_digits);
    push_str(&mut right, ":");
    let col_digits = if col < usize::MAX {
        decimal_chars(col + 1)
    } else {
        decimal_chars(col)
    };
    push_chars(&mut right, &col_digits);
    push_str(&mut right, "  ");
    let pad: usize = if left.len() < width && right.len() < width - left.len() {
        width - left.len() - right.len()
    } else {
        0
    };
    let mut r = left;
    let mut i: usize = 0;
    let ghost l = r@;
    while i < pad
        invariant
            i <= pad,
            r@ == l + Seq::new(i as nat, |k: int| ' '),
        decreases pad - i,
    {
        r.push(' ');
        i = i + 1;
        assert(r@ =~= l + Seq::new(i as nat, |k: int| ' '));
    }
    push_chars(&mut r, &right);
    r
}

/// The request status line's text.
pub open spec fn request_text(state: RequestState) -> Seq<char> {
    match state {
        RequestState::Idle => "Request Status: Idle"@,
        RequestState::Processing => "Request Status: In Progress"@,
        RequestState::Error(e) => "Request Status: Error: "@ + e@,
    }
}

pub fn request_line(state: &RequestState) -> (r: Vec<char>)
    ensures
        r@ == request_text(*state),
{
    let mut r: Vec<char> = Vec::new();
    match state {
        RequestState::Idle => push_str(&mut r, "Request Status: Idle"),
        RequestState::Processing => push_str(&mut r, "Request Status: In Progress"),
        RequestState::Error(e) => {
            push_str(&mut r, "Request Status: Error: ");
            push_str(&mut r, e.as_str());
        },
    }
    r
}

impl RenderState {
    /// Writes `text` into row `y` from the left, clipped to the width, and
    /// fills the rest of the row with `fill_fg`/`fill_bg` blanks.
    fn draw_text_row(
        &mut self,
        y: usize,
        text: &Vec<char>,
        fg: Color,
        bg: Option<Color>,
        fill_fg: Color,
        fill_bg: Option<Color>,
    )
        requires
            old(self).wf(),
        ensures
            final(self).wf(),
            final(self).width() == old(self).width(),
            final(self).height() == old(self).height(),
            final(self).scroll() == old(self).scroll(),
            final(self).wrapped() == old(self).wrapped(),
            final(self).number_width() == old(self).number_width(),
            final(self).previous_frame() == old(self).previous_frame(),
            y < old(self).height() ==> forall|x: int|
                0 <= x < old(self).width() ==> #[trigger] final(self).frame()[at(old(self).width(), x, y as int)] == if x < text@.len() {
                    Cell { ch: text@[x], fg, bg }
                } else {
                    Cell { ch: ' ', fg: fill_fg, bg: fill_bg }
                },
    {
        if y < self.term_height as usize {
            self.fill_row(y, text, fg, bg, fill_fg, fill_bg);
        }
    }

    fn fill_row(
        &mut self,
        y: usize,
        text: &Vec<char>,
        fg: Color,
        bg: Option<Color>,
        fill_fg: Color,
        fill_bg: Option<Color>,
    )
        requires
            old(self).wf(),
            y < old(self).height(),
        ensures
            final(self).wf(),
            final(self).width() == old(self).width(),
            final(self).height() == old(self).height(),
            final(self).scroll() == old(self).scroll(),
            final(self).wrapped() == old(self).wrapped(),
            final(self).number_width() == old(self).number_width(),
            final(self).previous_frame() == old(self).previous_frame(),
            forall|x: int|
                0 <= x < old(self).width() ==> #[trigger] final(self).frame()[at(old(self).width(), x, y as int)] == if x < text@.len() {
                    Cell { ch: text@[x], fg, bg }
                } else {
                    Cell { ch: ' ', fg: fill_fg, bg: fill_bg }
                },
    {
        let width = self.term_width as usize;
        
        let ghost w = old(self).width() as int;
        let ghost h = old(self).height() as int;
        proof {
            lemma_frame_size(w, old(self).height() as int);
            assert(y * w <= usize::MAX) by (nonlinear_arith)
                requires
                    0 <= y < h,
                    0 <= w,
                    w * h <= usize::MAX,
            ;
            assert(y * w + w <= w * h) by (nonlinear_arith)
                requires
                    0 <= y < h,
                    0 <= w,
            ;
        }
        let base = y * width;
        assert(old(self).current_buffer@.len() == w * old(self).height());
        let mut x: usize = 0;
        while x < width
            invariant
                x <= width,
                width == w,
                base == y * w,
                base + width <= self.current_buffer@.len(),
                self.current_buffer@.len() <= usize::MAX,
                self.current_buffer@.len() == old(self).current_buffer@.len(),
                self.previous_buffer == old(self).previous_buffer,
                self.term_width == old(self).term_width,
                self.term_height == old(self).term_height,
                self.scroll_offset == old(self).scroll_offset,
                self.wrapped_lines_info == old(self).wrapped_lines_info,
                self.line_number_width == old(self).line_number_width,
                forall|i: int|
                    0 <= i < self.current_buffer@.len() && !(base <= i < base + x)
                        ==> self.current_buffer@[i] == old(self).current_buffer@[i],
                forall|k: int|
                    0 <= k < x ==> #[trigger] self.current_buffer@[base + k] == if k < text@.len() {
                        Cell { ch: text@[k], fg, bg }
                    } else {
                        Cell { ch: ' ', fg: fill_fg, bg: fill_bg }
                    },
            decreases width - x,
        {
            let cell = row_cell(text, x, fg, bg, fill_fg, fill_bg);
            self.current_buffer.set(base + x, cell);
            x = x + 1;
        }
        proof {
            assert forall|k: int| 0 <= k < w implies #[trigger] self.frame()[at(old(self).width(), k, y as int)]
                == self.current_buffer@[base + k] by {}
        }
    }
}

/// The cell at column `x` of a row showing `text`, then blanks.
fn row_cell(
    text: &Vec<char>,
    x: usize,
    fg: Color,
    bg: Option<Color>,
    fill_fg: Color,
    fill_bg: Option<Color>,
) -> (r: Cell)
    ensures
        r == if x < text@.len() {
            Cell { ch: text@[x as int], fg, bg }
        } else {
            Cell { ch: ' ', fg: fill_fg, bg: fill_bg }
        },
{
    if x < text.len() {
        Cell { ch: text[x], fg, bg }
    } else {
        Cell { ch: ' ', fg: fill_fg, bg: fill_bg }
    }
}

/// Draws the status line into the second row from the bottom.
pub fn draw_status_line_to_buffer(editor: &Editor, render_state: &mut RenderState)
    requires
        old(render_state).wf(),
        old(render_state).height() >= 2,
    ensures
        final(render_state).wf(),
        final(render_state).width() == old(render_state).width(),
        final(render_state).height() == old(render_state).height(),
        final(render_state).scroll() == old(render_state).scroll(),
        final(render_state).wrapped() == old(render_state).wrapped(),
        final(render_state).previous_frame() == old(render_state).previous_frame(),
        final(render_state).number_width() == old(render_state).number_width(),
        forall|x: int|
            0 <= x < old(render_state).width() ==> {
                let t = status_text(
                    editor.file_name_spec(),
                    editor.modified_spec(),
                    mode_label(
                        editor.menu().active_spec() && !editor.menu().file_picker.active_spec(),
                        editor.mode_spec(),
                    ),
                    editor.cursor().0 as nat,
                    editor.cursor().1 as nat,
                    old(render_state).width(),
                );
                #[trigger] final(render_state).frame()[at(old(render_state).width(), x, old(render_state).height() - 2)] == if x < t.len() {
                    Cell { ch: t[x], fg: Color::Black, bg: Some(Color::White) }
                } else {
                    Cell { ch: ' ', fg: Color::Black, bg: Some(Color::White) }
                }
            },
{
    let row = (render_state.term_height - 2) as usize;
    let text = status_line(editor, render_state.term_width as usize);
    render_state.draw_text_row(
        row,
        &text,
        Color::Black,
        Some(Color::White),
        Color::Black,
        Some(Color::White),
    );
}

/// Draws the request status into the bottom row.
pub fn draw_request_state_line_to_buffer(state: &RequestState, render_state: &mut RenderState)
    requires
        old(render_state).wf(),
        old(render_state).height() >= 1,
    ensures
        final(render_state).wf(),
        final(render_state).width() == old(render_state).width(),
        final(render_state).height() == old(render_state).height(),
        final(render_state).scroll() == old(render_state).scroll(),
        final(render_state).wrapped() == old(render_state).wrapped(),
        final(render_state).previous_frame() == old(render_state).previous_frame(),
        final(render_state).number_width() == old(render_state).number_width(),
        forall|x: int|
            0 <= x < old(render_state).width() ==> #[trigger] final(render_state).frame()[at(old(render_state).width(), x, old(render_state).height() - 1)] == if x < request_text(
                *state,
            ).len() {
                Cell { ch: request_text(*state)[x], fg: Color::White, bg: None }
            } else {
                Cell { ch: ' ', fg: Color::Reset, bg: None }
            },
{
    let row = (render_state.term_height - 1) as usize;
    let text = request_line(state);
    render_state.draw_text_row(row, &text, Color::White, None, Color::Reset, None);
}


/// A run of changed cells of one row that share their colours.
#[derive(Debug, Clone)]
pub struct Run {
    pub x: usize,
    pub y: usize,
    pub cells: Vec<Cell>,
}

/// Whether cell `(x, y)` is covered by one of `runs`.
pub open spec fn covered(runs: Seq<Run>, x: int, y: int) -> bool {
    exists|j: int|
        0 <= j < runs.len() && runs[j].y == y && runs[j].x <= x < runs[j].x + runs[j].cells@.len()
}

/// Whether `run` is a proper run of `frame` over `previous`: inside a
/// `width` by `height` frame, non-empty, every cell changed, equal to the
/// new frame, and all in the colours of the first; and maximal, so that no
/// changed cell of those colours stands right before or after it.
pub open spec fn run_ok(
    run: Run,
    frame: Seq<Cell>,
    previous: Seq<Cell>,
    width: nat,
    height: nat,
) -> bool {
    &&& run.y < height
    &&& run.cells@.len() > 0
    &&& run.x + run.cells@.len() <= width
    &&& forall|i: int|
        0 <= i < run.cells@.len() ==> {
            &&& #[trigger] run.cells@[i] == frame[at(width, run.x + i, run.y as int)]
            &&& frame[at(width, run.x + i, run.y as int)] != previous[at(
                width,
                run.x + i,
                run.y as int,
            )]
            &&& run.cells@[i].fg == run.cells@[0].fg
            &&& run.cells@[i].bg == run.cells@[0].bg
        }
    &&& run.x + run.cells@.len() < width ==> !(frame[at(
        width,
        run.x + run.cells@.len(),
        run.y as int,
    )] != previous[at(width, run.x + run.cells@.len(), run.y as int)] && same_colors(
        frame[at(width, run.x + run.cells@.len(), run.y as int)],
        run.cells@[0],
    ))
    &&& run.x > 0 ==> !(frame[at(width, run.x - 1, run.y as int)] != previous[at(
        width,
        run.x - 1,
        run.y as int,
    )] && same_colors(frame[at(width, run.x - 1, run.y as int)], run.cells@[0]))
}

/// Whether two cells have the same colours.
pub open spec fn same_colors(a: Cell, b: Cell) -> bool {
    a.fg == b.fg && a.bg == b.bg
}

impl RenderState {
    /// The changed cells, grouped into runs of equal colours row by row:
    /// every changed cell lies in a run, and every run is proper.
    pub fn changed_runs(&self) -> (r: Vec<Run>)
        requires
            self.wf(),
        ensures
            forall|j: int|
                0 <= j < r@.len() ==> run_ok(
                    #[trigger] r@[j],
                    self.frame(),
                    self.previous_frame(),
                    self.width(),
                    self.height(),
                ),
            forall|x: int, y: int|
                0 <= x < self.width() && 0 <= y < self.height() && self.frame()[at(
                    self.width(),
                    x,
                    y,
                )] != self.previous_frame()[at(self.width(), x, y)] ==> covered(r@, x, y),
    {
        let width = self.term_width as usize;
        let height = self.term_height as usize;
        let ghost w = self.width();
        let ghost h = self.height();
        let ghost fr = self.frame();
        let ghost pf = self.previous_frame();
        let mut runs: Vec<Run> = Vec::new();
        let mut y: usize = 0;
        while y < height
            invariant
                y <= height,
                width == w,
                height == h,
                w <= 0xffff,
                h <= 0xffff,
                self.wf(),
                fr == self.frame(),
                pf == self.previous_frame(),
                w == self.width(),
                h == self.height(),
                forall|j: int| 0 <= j < runs@.len() ==> run_ok(#[trigger] runs@[j], fr, pf, w, h),
                forall|xx: int, yy: int|
                    0 <= xx < w && 0 <= yy < y && fr[at(w, xx, yy)] != pf[at(w, xx, yy)]
                        ==> covered(runs@, xx, yy),
            decreases height - y,
        {
            let mut x: usize = 0;
            while x < width
                invariant
                    x <= width,
                    y < height,
                    width == w,
                    height == h,
                    w <= 0xffff,
                    h <= 0xffff,
                    self.wf(),
                    fr == self.frame(),
                    pf == self.previous_frame(),
                    w == self.width(),
                    h == self.height(),
                    forall|j: int|
                        0 <= j < runs@.len() ==> run_ok(#[trigger] runs@[j], fr, pf, w, h),
                    forall|xx: int, yy: int|
                        0 <= xx < w && 0 <= yy < y && fr[at(w, xx, yy)] != pf[at(w, xx, yy)]
                            ==> covered(runs@, xx, yy),
                    forall|xx: int|
                        0 <= xx < x && fr[at(w, xx, y as int)] != pf[at(w, xx, y as int)]
                            ==> covered(runs@, xx, y as int),
                    0 < x < w ==> !(fr[at(w, x - 1, y as int)] != pf[at(w, x - 1, y as int)]
                        && fr[at(w, x as int, y as int)] != pf[at(w, x as int, y as int)]
                        && same_colors(fr[at(w, x - 1, y as int)], fr[at(w, x as int, y as int)])),
                decreases width - x,
            {
                if !self.cell_changed(x, y) {
                    x = x + 1;
                } else {
                    let first = self.cell(x, y).unwrap();
                    let start = x;
                    let mut cells: Vec<Cell> = Vec::new();
                    while x < width && self.cell_changed(x, y) && self.cell(x, y).unwrap().fg
                        == first.fg && self.cell(x, y).unwrap().bg == first.bg
                        invariant
                            start <= x <= width,
                            y < height,
                            width == w,
                            height == h,
                            w <= 0xffff,
                            h <= 0xffff,
                            self.wf(),
                            fr == self.frame(),
                            pf == self.previous_frame(),
                            w == self.width(),
                            h == self.height(),
                            start < width,
                            first == fr[at(w, start as int, y as int)],
                            0 < start < w ==> !(fr[at(w, start - 1, y as int)] != pf[at(
                                w,
                                start - 1,
                                y as int,
                            )] && fr[at(w, start as int, y as int)] != pf[at(
                                w,
                                start as int,
                                y as int,
                            )] && same_colors(
                                fr[at(w, start - 1, y as int)],
                                fr[at(w, start as int, y as int)],
                            )),
                            cells@.len() == x - start,
                            x > start ==> cells@[0] == first,
                            forall|i: int|
                                0 <= i < cells@.len() ==> {
                                    &&& #[trigger] cells@[i] == fr[at(w, start + i, y as int)]
                                    &&& fr[at(w, start + i, y as int)] != pf[at(
                                        w,
                                        start + i,
                                        y as int,
                                    )]
                                    &&& cells@[i].fg == first.fg
                                    &&& cells@[i].bg == first.bg
                                },
                        decreases width - x,
                    {
                        cells.push(self.cell(x, y).unwrap());
                        x = x + 1;
                    }
                    proof {
                        if start < x && 0 < x < w {
                            assert(cells@[x - 1 - start] == fr[at(w, x - 1, y as int)]);
                        }
                        assert(x > start) by {
                            assert(x == start ==> false) by {
                                // the first cell itself qualifies
                                lemma_cell_index(start as int, y as int, w as int, h as int);
                            }
                        }
                    }
                    let ghost before = runs@;
                    runs.push(Run { x: start, y, cells });
                    proof {
                        let nr = runs@.len() - 1;
                        assert(run_ok(runs@[nr], fr, pf, w, h));
                        assert forall|j: int| 0 <= j < runs@.len() implies run_ok(
                            #[trigger] runs@[j],
                            fr,
                            pf,
                            w,
                            h,
                        ) by {
                            if j < nr {
                                assert(runs@[j] == before[j]);
                            }
                        }
                        assert forall|xx: int, yy: int|
                            0 <= xx < w && 0 <= yy < y && fr[at(w, xx, yy)] != pf[at(w, xx, yy)]
                                implies covered(runs@, xx, yy) by {
                            assert(covered(before, xx, yy));
                            let j = choose|j: int|
                                0 <= j < before.len() && before[j].y == yy && before[j].x <= xx
                                    < before[j].x + before[j].cells@.len();
                            assert(runs@[j] == before[j]);
                        }
                        assert forall|xx: int|
                            0 <= xx < x && fr[at(w, xx, y as int)] != pf[at(w, xx, y as int)]
                                implies covered(runs@, xx, y as int) by {
                            if xx < start {
                                assert(covered(before, xx, y as int));
                                let j = choose|j: int|
                                    0 <= j < before.len() && before[j].y == y && before[j].x <= xx
                                        < before[j].x + before[j].cells@.len();
                                assert(runs@[j] == before[j]);
                            } else {
                                assert(runs@[nr].x <= xx < runs@[nr].x + runs@[nr].cells@.len());
                            }
                        }
                    }
                }
            }
            y = y + 1;
        }
        runs
    }
}


/// A run to write: move to `(x, y)`, switch the colours that differ from
/// those left by the previous run, print `text`.
#[derive(Debug, Clone)]
pub struct RunWrite {
    pub x: usize,
    pub y: usize,
    pub fg: Color,
    pub bg: Option<Color>,
    pub set_fg: bool,
    pub set_bg: bool,
    pub text: String,
}

/// The foreground in effect before run `j` is written.
pub open spec fn fg_before(runs: Seq<Run>, j: int) -> Color {
    if j <= 0 {
        Color::Reset
    } else {
        runs[j - 1].cells@[0].fg
    }
}

/// The background in effect before run `j` is written.
pub open spec fn bg_before(runs: Seq<Run>, j: int) -> Option<Color> {
    if j <= 0 {
        None
    } else {
        runs[j - 1].cells@[0].bg
    }
}

/// The writes for `runs`, switching colours only where they change.
pub fn run_writes(runs: &Vec<Run>) -> (r: Vec<RunWrite>)
    requires
        forall|j: int| 0 <= j < runs@.len() ==> (#[trigger] runs@[j]).cells@.len() > 0,
    ensures
        r@.len() == runs@.len(),
        forall|j: int|
            0 <= j < r@.len() ==> {
                let run = runs@[j];
                &&& (#[trigger] r@[j]).x == run.x
                &&& r@[j].y == run.y
                &&& r@[j].fg == run.cells@[0].fg
                &&& r@[j].bg == run.cells@[0].bg
                &&& r@[j].set_fg == (run.cells@[0].fg != fg_before(runs@, j))
                &&& r@[j].set_bg == (run.cells@[0].bg != bg_before(runs@, j))
                &&& r@[j].text@ == run.cells@.map_values(|c: Cell| c.ch)
            },
{
    let mut r: Vec<RunWrite> = Vec::new();
    let mut current_fg = Color::Reset;
    let mut current_bg: Option<Color> = None;
    let mut j: usize = 0;
    while j < runs.len()
        invariant
            j <= runs@.len(),
            forall|k: int| 0 <= k < runs@.len() ==> (#[trigger] runs@[k]).cells@.len() > 0,
            current_fg == fg_before(runs@, j as int),
            current_bg == bg_before(runs@, j as int),
            r@.len() == j,
            forall|k: int|
                0 <= k < j ==> {
                    let run = runs@[k];
                    &&& (#[trigger] r@[k]).x == run.x
                    &&& r@[k].y == run.y
                    &&& r@[k].fg == run.cells@[0].fg
                    &&& r@[k].bg == run.cells@[0].bg
                    &&& r@[k].set_fg == (run.cells@[0].fg != fg_before(runs@, k))
                    &&& r@[k].set_bg == (run.cells@[0].bg != bg_before(runs@, k))
                    &&& r@[k].text@ == run.cells@.map_values(|c: Cell| c.ch)
                },
        decreases runs@.len() - j,
    {
        let run = &runs[j];
        let first = run.cells[0];
        let mut chars: Vec<char> = Vec::new();
        let mut i: usize = 0;
        while i < run.cells.len()
            invariant
                i <= run.cells@.len(),
                chars@ == run.cells@.subrange(0, i as int).map_values(|c: Cell| c.ch),
            decreases run.cells@.len() - i,
        {
            chars.push(run.cells[i].ch);
            i = i + 1;
            assert(chars@ =~= run.cells@.subrange(0, i as int).map_values(|c: Cell| c.ch));
        }
        assert(run.cells@.subrange(0, run.cells@.len() as int) =~= run.cells@);
        let set_fg = first.fg != current_fg;
        let set_bg = first.bg != current_bg;
        let text = string_of_chars(&chars);
        r.push(RunWrite { x: run.x, y: run.y, fg: first.fg, bg: first.bg, set_fg, set_bg, text });
        current_fg = first.fg;
        current_bg = first.bg;
        j = j + 1;
    }
    r
}

/// Columns that the chars `pos..end` of `line` take when `dw` columns are
/// drawn before them (a tab reaching the next stop), plus `dw`.
pub open spec fn width_between(line: Seq<char>, pos: int, end: int, dw: int) -> int
    decreases end - pos,
{
    if pos < 0 || pos >= end || pos >= line.len() {
        dw
    } else {
        width_between(line, pos + 1, end, dw + char_width(line[pos], dw))
    }
}

/// Where the terminal cursor goes for cursor `(row, col)` on `line`: its
/// screen row relative to the scroll (0 above the viewport or when no row
/// holds it), and past the line numbers the display width of the chars of
/// its screen row before it.
pub open spec fn cursor_screen_spec(
    infos: Seq<WrappedLineInfo>,
    scroll: int,
    row: int,
    col: int,
    number_width: int,
    line: Seq<char>,
) -> (int, int) {
    let info = cursor_row_info(infos, row, col);
    let visual_row = match info {
        Some(w) => if w.screen_row >= scroll {
            w.screen_row - scroll
        } else {
            0
        },
        None => 0,
    };
    let start = match info {
        Some(w) => w.start_col as int,
        None => 0,
    };
    (number_width + 1 + width_between(line, start, col, 0), visual_row)
}

proof fn lemma_width_between_bound(line: Seq<char>, pos: int, end: int, dw: int)
    requires
        0 <= pos,
        0 <= dw,
    ensures
        dw <= width_between(line, pos, end, dw) <= dw + 4 * (if end > pos {
            end - pos
        } else {
            0
        }),
    decreases end - pos,
{
    if !(pos < 0 || pos >= end || pos >= line.len()) {
        lemma_width_between_bound(line, pos + 1, end, dw + char_width(line[pos], dw));
    }
}

impl RenderState {
    /// Where the terminal cursor goes for the editor cursor `(row, col)` on
    /// `line`, as `(column, row)` on screen.
    pub fn cursor_screen_position(&self, row: usize, col: usize, line: &Vec<char>) -> (r: (
        usize,
        usize,
    ))
        requires
            self.wf(),
            col < 0x1000_0000,
        ensures
            (r.0 as int, r.1 as int) == cursor_screen_spec(
                self.wrapped(),
                self.scroll() as int,
                row as int,
                col as int,
                self.number_width() as int,
                line@,
            ),
    {
        let info = find_cursor_row(&self.wrapped_lines_info, row, col);
        let visual_row = match info {
            Some(w) => if w.screen_row >= self.scroll_offset {
                w.screen_row - self.scroll_offset
            } else {
                0
            },
            None => 0,
        };
        let start = match info {
            Some(w) => w.start_col,
            None => 0,
        };
        proof {
            if info is Some {
                lemma_cursor_row_info_le(self.wrapped(), row as int, col as int);
            }
        }
        let mut dw: usize = 0;
        let mut pos: usize = start;
        proof {
            lemma_width_between_bound(line@, start as int, col as int, 0);
        }
        while pos < col && pos < line.len()
            invariant
                start <= pos,
                pos <= col || pos == start,
                col < 0x1000_0000,
                dw <= 4 * (pos - start),
                width_between(line@, start as int, col as int, 0) == width_between(
                    line@,
                    pos as int,
                    col as int,
                    dw as int,
                ),
            decreases col - pos,
        {
            let ch = line[pos];
            let w: usize = if ch == '\t' {
                TAB_WIDTH - dw % TAB_WIDTH
            } else {
                1
            };
            dw = dw + w;
            pos = pos + 1;
        }
        proof {
            lemma_width_between_bound(line@, pos as int, col as int, dw as int);
        }
        (dw + self.line_number_width + 1, visual_row)
    }

    /// Recomputes the wrapped geometry from the editor's text.
    pub fn update_wrapped_lines(&mut self, editor: &Editor)
        requires
            old(self).wf(),
        ensures
            final(self).wf(),
            final(self).wrapped() == wrap_spec(
                lines_of(editor.text()),
                text_columns(old(self).width() as int, old(self).number_width() as int),
            ),
            final(self).frame() == old(self).frame(),
            final(self).previous_frame() == old(self).previous_frame(),
            final(self).width() == old(self).width(),
            final(self).height() == old(self).height(),
            final(self).scroll() == old(self).scroll(),
            final(self).number_width() == old(self).number_width(),
    {
        let width = self.term_width as usize;
        let max_line_width: usize = if width > self.line_number_width + 1 {
            width - self.line_number_width - 1
        } else {
            0
        };
        let lines = editor.lines();
        self.wrapped_lines_info = compute_wrapped_lines(&lines, max_line_width);
    }

    /// Sets the line number column to the digits of the line count, at
    /// least three.
    pub fn set_line_number_width(&mut self, line_count: usize)
        requires
            old(self).wf(),
        ensures
            final(self).wf(),
            final(self).number_width() == if decimal(line_count as nat).len() > 3 {
                decimal(line_count as nat).len()
            } else {
                3
            },
            final(self).frame() == old(self).frame(),
            final(self).previous_frame() == old(self).previous_frame(),
            final(self).width() == old(self).width(),
            final(self).height() == old(self).height(),
            final(self).scroll() == old(self).scroll(),
            final(self).wrapped() == old(self).wrapped(),
    {
        let digits = decimal_chars(line_count);
        proof {
            lemma_decimal_len(line_count as nat);
        }
        self.line_number_width = if digits.len() > 3 {
            digits.len()
        } else {
            3
        };
    }
}

/// The decimal notation of a `usize` has at most 20 digits.
pub proof fn lemma_decimal_len(n: nat)
    requires
        n <= usize::MAX,
    ensures
        1 <= decimal(n).len() <= 20,
{
    reveal_with_fuel(pow10, 21);
    assert(pow10(20) == 100_000_000_000_000_000_000nat);
    lemma_decimal_len_bound(n, 20);
}

proof fn lemma_decimal_len_bound(n: nat, k: nat)
    requires
        n < pow10(k),
        k >= 1,
    ensures
        1 <= decimal(n).len() <= k,
    decreases k,
{
    if n >= 10 {
        assert(k > 1) by {
            if k == 1 {
                assert(pow10(1) == 10 * pow10(0));
            }
        }
        assert(n / 10 < pow10((k - 1) as nat)) by {
            assert(pow10(k) == 10 * pow10((k - 1) as nat));
        }
        lemma_decimal_len_bound(n / 10, (k - 1) as nat);
    }
}

pub open spec fn pow10(k: nat) -> nat
    decreases k,
{
    if k == 0 {
        1
    } else {
        10 * pow10((k - 1) as nat)
    }
}

/// The screen-row info that holds the cursor starts at or before its
/// column.
pub proof fn lemma_cursor_row_info_le(infos: Seq<WrappedLineInfo>, row: int, col: int)
    ensures
        cursor_row_info(infos, row, col) is Some ==> cursor_row_info(infos, row, col).unwrap().start_col <= col,
    decreases infos.len(),
{
    if infos.len() > 0 {
        lemma_cursor_row_info_le(infos.drop_last(), row, col);
    }
}


/// Whether `wr` prints, within the frame, cells of `drawn` that differ
/// from `shown`, in their colours, and could not be longer: no changed cell
/// of its colours adjoins it on its row.
pub open spec fn write_ok(wr: RunWrite, drawn: Seq<Cell>, shown: Seq<Cell>, width: nat, height: nat) -> bool {
    let n = wr.text@.len();
    let y = wr.y as int;
    &&& wr.y < height
    &&& n > 0
    &&& wr.x + n <= width
    &&& forall|i: int|
        0 <= i < n ==> {
            &&& #[trigger] drawn[at(width, wr.x + i, y)] == (Cell { ch: wr.text@[i], fg: wr.fg, bg: wr.bg })
            &&& drawn[at(width, wr.x + i, y)] != shown[at(width, wr.x + i, y)]
        }
    &&& wr.x + n < width ==> !(drawn[at(width, wr.x + n, y)] != shown[at(width, wr.x + n, y)]
        && drawn[at(width, wr.x + n, y)].fg == wr.fg && drawn[at(width, wr.x + n, y)].bg == wr.bg)
    &&& wr.x > 0 ==> !(drawn[at(width, wr.x - 1, y)] != shown[at(width, wr.x - 1, y)]
        && drawn[at(width, wr.x - 1, y)].fg == wr.fg && drawn[at(width, wr.x - 1, y)].bg == wr.bg)
}

/// Whether `writes`, applied over the screen showing `shown`, make it show
/// `drawn`: every write is proper and maximal, and every differing cell is
/// printed by a write.
pub open spec fn writes_ok(
    writes: Seq<RunWrite>,
    drawn: Seq<Cell>,
    shown: Seq<Cell>,
    width: nat,
    height: nat,
) -> bool {
    &&& forall|j: int| 0 <= j < writes.len() ==> write_ok(#[trigger] writes[j], drawn, shown, width, height)
    &&& forall|x: int, y: int|
        0 <= x < width && 0 <= y < height && #[trigger] drawn[at(width, x, y)] != shown[at(
            width,
            x,
            y,
        )] ==> exists|j: int|
            0 <= j < writes.len() && (#[trigger] writes[j]).y == y && writes[j].x <= x
                < writes[j].x + writes[j].text@.len()
}

proof fn lemma_one_write(
    run: Run,
    wr: RunWrite,
    drawn: Seq<Cell>,
    shown: Seq<Cell>,
    width: nat,
    height: nat,
)
    requires
        run_ok(run, drawn, shown, width, height),
        wr.x == run.x,
        wr.y == run.y,
        wr.fg == run.cells@[0].fg,
        wr.bg == run.cells@[0].bg,
        wr.text@ == run.cells@.map_values(|c: Cell| c.ch),
    ensures
        write_ok(wr, drawn, shown, width, height),
{
    assert forall|i: int| 0 <= i < wr.text@.len() implies {
        &&& #[trigger] drawn[at(width, wr.x + i, wr.y as int)] == (Cell { ch: wr.text@[i], fg: wr.fg, bg: wr.bg })
        &&& drawn[at(width, wr.x + i, wr.y as int)] != shown[at(width, wr.x + i, wr.y as int)]
    } by {
        assert(run.cells@[i] == drawn[at(width, run.x + i, run.y as int)]);
    }
}

/// Writes made from proper runs that cover every change are correct.
proof fn lemma_writes_from_runs(
    runs: Seq<Run>,
    writes: Seq<RunWrite>,
    drawn: Seq<Cell>,
    shown: Seq<Cell>,
    width: nat,
    height: nat,
)
    requires
        forall|j: int| 0 <= j < runs.len() ==> run_ok(#[trigger] runs[j], drawn, shown, width, height),
        forall|x: int, y: int|
            0 <= x < width && 0 <= y < height && drawn[at(width, x, y)] != shown[at(width, x, y)]
                ==> covered(runs, x, y),
        writes.len() == runs.len(),
        forall|j: int|
            0 <= j < writes.len() ==> {
                let run = runs[j];
                &&& (#[trigger] writes[j]).x == run.x
                &&& writes[j].y == run.y
                &&& writes[j].fg == run.cells@[0].fg
                &&& writes[j].bg == run.cells@[0].bg
                &&& writes[j].text@ == run.cells@.map_values(|c: Cell| c.ch)
            },
    ensures
        writes_ok(writes, drawn, shown, width, height),
{
    assert forall|j: int| 0 <= j < writes.len() implies write_ok(
        #[trigger] writes[j],
        drawn,
        shown,
        width,
        height,
    ) by {
        lemma_one_write(runs[j], writes[j], drawn, shown, width, height);
    }
    assert forall|x: int, y: int|
        0 <= x < width && 0 <= y < height && #[trigger] drawn[at(width, x, y)] != shown[at(
            width,
            x,
            y,
        )] implies exists|j: int|
        0 <= j < writes.len() && (#[trigger] writes[j]).y == y && writes[j].x <= x < writes[j].x
            + writes[j].text@.len() by {
        assert(covered(runs, x, y));
        let j = choose|j: int|
            0 <= j < runs.len() && runs[j].y == y && runs[j].x <= x < runs[j].x
                + runs[j].cells@.len();
        assert(writes[j].text@.len() == runs[j].cells@.len());
    }
}

/// What one frame asks of the terminal: whether to clear it first, the
/// runs to write, and where to put the cursor.
#[derive(Debug, Clone)]
pub struct FrameOutput {
    pub clear_screen: bool,
    pub writes: Vec<RunWrite>,
    pub cursor_x: usize,
    pub cursor_y: usize,
}

/// Draws one frame for a terminal of `width` by `height` cells: the
/// geometry is rewrapped, the scroll brought to the cursor, text, status
/// and request lines drawn, and only the cells that changed since the last
/// frame are written.
pub fn draw_screen(
    editor: &mut Editor,
    render_state: &mut RenderState,
    request_state: &RequestState,
    width: u16,
    height: u16,
) -> (r: FrameOutput)
    requires
        old(editor).wf(),
        old(render_state).wf(),
    ensures
        final(editor).wf(),
        final(editor).text() == old(editor).text(),
        final(editor).cursor() == old(editor).cursor(),
        final(editor).selection_spec() == old(editor).selection_spec(),
        final(editor).mode_spec() == old(editor).mode_spec(),
        final(render_state).wf(),
        final(render_state).width() == width,
        final(render_state).height() == height,
        r.clear_screen == (width as nat != old(render_state).width() || height as nat != old(render_state).height()),
        final(render_state).wrapped() == wrap_spec(
            lines_of(old(editor).text()),
            text_columns(width as int, final(render_state).number_width() as int),
        ),
        final(render_state).scroll() == scrolled(
            old(render_state).scroll() as int,
            cursor_screen_row(
                final(render_state).wrapped(),
                old(editor).cursor().0,
                old(editor).cursor().1,
            ),
            viewport_rows(height as int),
            final(render_state).wrapped().len() as int,
        ),
        writes_ok(
            r.writes@,
            final(render_state).previous_frame(),
            if r.clear_screen {
                blank_frame(width as nat * height as nat)
            } else {
                old(render_state).previous_frame()
            },
            width as nat,
            height as nat,
        ),
        old(editor).cursor().1 < 0x1000_0000 ==> (r.cursor_x as int, r.cursor_y as int)
            == cursor_screen_spec(
            final(render_state).wrapped(),
            final(render_state).scroll() as int,
            old(editor).cursor().0,
            old(editor).cursor().1,
            final(render_state).number_width() as int,
            lines_of(old(editor).text())[old(editor).cursor().0],
        ),
{
    let clear_screen = render_state.update_dimensions(width, height);
    render_state.set_line_number_width(editor.line_count());
    render_state.update_wrapped_lines(editor);
    let (row, col) = editor.get_cursor_position();
    render_state.adjust_scroll(row, col);
    draw_content_to_buffer(editor, render_state);
    if height >= 2 {
        draw_status_line_to_buffer(editor, render_state);
    }
    if height >= 1 {
        draw_request_state_line_to_buffer(request_state, render_state);
    }
    crate::popup::draw_popups(editor, render_state);
    let runs = render_state.changed_runs();
    let writes = run_writes(&runs);
    proof {
        lemma_writes_from_runs(
            runs@,
            writes@,
            render_state.frame(),
            render_state.previous_frame(),
            render_state.width(),
            render_state.height(),
        );
    }
    proof {
        editor.lemma_cursor_valid();
    }
    let cursor_line = editor.line_chars(row);
    let cursor = if col < 0x1000_0000 {
        render_state.cursor_screen_position(row, col, &cursor_line)
    } else {
        (0, 0)
    };
    render_state.swap_buffers();
    render_state.force_full_redraw = false;
    FrameOutput { clear_screen, writes, cursor_x: cursor.0, cursor_y: cursor.1 }
}


/// The key help shown for a mode.
pub open spec fn mode_help(mode: Mode) -> Seq<char> {
    match mode {
        Mode::Normal => "^Q: Quit | i: Insert | v: Select | s: Save | y: Copy selection"@,
        Mode::Insert => "ESC: Normal mode | Arrow keys: Navigate"@,
        Mode::Select => "ESC: Normal mode | Arrow keys: Extend selection | y: Copy and exit selection | d: Delete"@,
    }
}

/// Draws the key help of the editor's mode into the second row from the
/// bottom, in grey.
pub fn draw_message_line_to_buffer(editor: &Editor, render_state: &mut RenderState)
    requires
        old(render_state).wf(),
        old(render_state).height() >= 2,
    ensures
        final(render_state).wf(),
        final(render_state).width() == old(render_state).width(),
        final(render_state).height() == old(render_state).height(),
        final(render_state).scroll() == old(render_state).scroll(),
        final(render_state).wrapped() == old(render_state).wrapped(),
        final(render_state).previous_frame() == old(render_state).previous_frame(),
        final(render_state).number_width() == old(render_state).number_width(),
        forall|x: int|
            0 <= x < old(render_state).width() ==> #[trigger] final(render_state).frame()[at(
                old(render_state).width(),
                x,
                old(render_state).height() - 2,
            )] == if x < mode_help(editor.mode_spec()).len() {
                Cell { ch: mode_help(editor.mode_spec())[x], fg: Color::DarkGrey, bg: None }
            } else {
                Cell { ch: ' ', fg: Color::Reset, bg: None }
            },
{
    let row = (render_state.term_height - 2) as usize;
    let mut text: Vec<char> = Vec::new();
    match editor.get_mode() {
        Mode::Normal => push_str(
            &mut text,
            "^Q: Quit | i: Insert | v: Select | s: Save | y: Copy selection",
        ),
        Mode::Insert => push_str(&mut text, "ESC: Normal mode | Arrow keys: Navigate"),
        Mode::Select => push_str(
            &mut text,
            "ESC: Normal mode | Arrow keys: Extend selection | y: Copy and exit selection | d: Delete",
        ),
    }
    render_state.draw_text_row(row, &text, Color::DarkGrey, None, Color::Reset, None);
}

} // verus!

//! Popups drawn over the frame: the help of a menu, the file picker, and
//! the save-as input. Each draws inside its box and leaves every other
//! cell as it was.

use crate::editor::Editor;
use crate::filepicker::Action;
use crate::render::{at, lemma_cell_index, lemma_frame_size, Color, RenderState};
use crate::text::chars_of;
use vstd::prelude::*;

verus! {

/// Whether `(x, y)` lies in the box at `(sx, sy)` of `w` by `h` cells.
pub open spec fn in_box(x: int, y: int, sx: int, sy: int, w: int, h: int) -> bool {
    sx <= x < sx + w && sy <= y < sy + h
}

/// Cells of a `w` by `h` frame differ only inside the box.
pub open spec fn only_box_changed(
    before: Seq<Cell>,
    after: Seq<Cell>,
    width: nat,
    height: nat,
    sx: int,
    sy: int,
    w: int,
    h: int,
) -> bool {
    forall|x: int, y: int|
        0 <= x < width && 0 <= y < height && !in_box(x, y, sx, sy, w, h) ==> #[trigger] after[at(
            width,
            x,
            y,
        )] == before[at(width, x, y)]
}

use crate::render::Cell;

/// The frame keeps its shape and everything outside the box, against
/// `r0`.
pub open spec fn kept_outside(
    rs: RenderState,
    r0: RenderState,
    sx: int,
    sy: int,
    w: int,
    h: int,
) -> bool {
    &&& rs.wf()
    &&& rs.width() == r0.width()
    &&& rs.height() == r0.height()
    &&& rs.scroll() == r0.scroll()
    &&& rs.wrapped() == r0.wrapped()
    &&& rs.number_width() == r0.number_width()
    &&& rs.previous_frame() == r0.previous_frame()
    &&& only_box_changed(r0.frame(), rs.frame(), r0.width(), r0.height(), sx, sy, w, h)
}

impl RenderState {
    /// Writes `cells` into row `y` from column `x0` on, clipped to the
    /// frame; every other cell keeps.
    fn write_span(&mut self, x0: usize, y: usize, cells: &Vec<Cell>)
        requires
            old(self).wf(),
            x0 < 0x100000,
            cells@.len() < 0x100000,
        ensures
            final(self).wf(),
            final(self).width() == old(self).width(),
            final(self).height() == old(self).height(),
            final(self).scroll() == old(self).scroll(),
            final(self).wrapped() == old(self).wrapped(),
            final(self).number_width() == old(self).number_width(),
            final(self).previous_frame() == old(self).previous_frame(),
            forall|dx: int|
                0 <= dx < cells@.len() && x0 + dx < old(self).width() && y < old(self).height()
                    ==> #[trigger] final(self).frame()[at(old(self).width(), x0 + dx, y as int)]
                    == cells@[dx],
            forall|i: int|
                0 <= i < old(self).frame().len() && !(y < old(self).height() && y * old(
                    self).width() + x0 <= i < y * old(self).width() + x0 + cells@.len() && i < y
                    * old(self).width() + old(self).width()) ==> #[trigger] final(self).frame()[i]
                    == old(self).frame()[i],
    {
        proof {
            self.lemma_bounds();
        }
        if y >= self.term_height() as usize {
            return ;
        }
        let width = self.term_width() as usize;
        let ghost w = old(self).width() as int;
        let ghost h = old(self).height() as int;
        proof {
            lemma_frame_size(w, h);
            assert(y * w + w <= w * h) by (nonlinear_arith)
                requires
                    0 <= y < h,
                    0 <= w,
            ;
        }
        let base = y * width;
        let mut dx: usize = 0;
        while dx < cells.len() && x0 < width && dx < width - x0
            invariant
                dx <= cells@.len(),
                x0 < width ==> dx <= width - x0,
                x0 >= width ==> dx == 0,
                width == w,
                w == old(self).width(),
                h == old(self).height(),
                w <= 0xffff,
                h <= 0xffff,
                y < h,
                x0 < 0x100000,
                base == y * w,
                base + w <= w * h,
                self.wf(),
                self.width() == old(self).width(),
                self.height() == old(self).height(),
                self.scroll() == old(self).scroll(),
                self.wrapped() == old(self).wrapped(),
                self.number_width() == old(self).number_width(),
                self.previous_frame() == old(self).previous_frame(),
                self.frame().len() == old(self).frame().len(),
                forall|i: int|
                    0 <= i < self.frame().len() && !(base + x0 <= i < base + x0 + dx)
                        ==> self.frame()[i] == old(self).frame()[i],
                forall|k: int|
                    0 <= k < dx ==> #[trigger] self.frame()[base + x0 + k] == cells@[k],
            decreases cells@.len() - dx,
        {
            let ghost before = self.frame();
            let cell = row_cell_at_span(cells, dx);
            proof {
                self.lemma_bounds();
                lemma_cell_index((x0 + dx) as int, y as int, w, h);
            }
            self.set_cell(x0 + dx, y, cell.ch, cell.fg, cell.bg);
            proof {
                assert(at(old(self).width(), x0 + dx, y as int) == base + x0 + dx);
                assert(self.frame() == before.update(base + x0 + dx, cell));
            }
            dx = dx + 1;
        }
        proof {
            assert forall|k: int|
                0 <= k < cells@.len() && x0 + k < w && y < h implies #[trigger] self.frame()[at(
                old(self).width(),
                x0 + k,
                y as int,
            )] == cells@[k] by {
                assert(at(old(self).width(), x0 + k, y as int) == base + x0 + k);
            }
        }
    }

    /// Writes the rows of cells into the box at `(sx, sy)`, clipped to the
    /// frame; the cells outside the box keep.
    fn draw_cells_in_box(&mut self, sx: usize, sy: usize, rows: &Vec<Vec<Cell>>, pw: usize)
        requires
            old(self).wf(),
            sx < 0x100000,
            sy < 0x100000,
            pw < 0x100000,
            rows@.len() < 0x100000,
            forall|i: int| 0 <= i < rows@.len() ==> (#[trigger] rows@[i])@.len() == pw,
        ensures
            kept_outside(
                *final(self),
                *old(self),
                sx as int,
                sy as int,
                pw as int,
                rows@.len() as int,
            ),
            forall|dx: int, dy: int|
                0 <= dx < pw && 0 <= dy < rows@.len() && sx + dx < old(self).width() && sy + dy
                    < old(self).height() ==> #[trigger] final(self).frame()[at(
                    old(self).width(),
                    sx + dx,
                    sy + dy,
                )] == rows@[dy]@[dx],
    {
        proof {
            self.lemma_bounds();
        }
        let ghost r0 = *self;
        let ghost w = r0.width() as int;
        let ghost wn = r0.width();
        let ghost h = r0.height() as int;
        let ghost ph = rows@.len() as int;
        proof {
            assert(only_box_changed(r0.frame(), r0.frame(), r0.width(), r0.height(), sx as int, sy as int, pw as int, ph));
        }
        let mut dy: usize = 0;
        while dy < rows.len()
            invariant
                dy <= rows@.len(),
                w == r0.width(),
                wn == r0.width(),
                h == r0.height(),
                ph == rows@.len(),
                w <= 0xffff,
                h <= 0xffff,
                sx < 0x100000,
                sy < 0x100000,
                pw < 0x100000,
                rows@.len() < 0x100000,
                forall|i: int| 0 <= i < rows@.len() ==> (#[trigger] rows@[i])@.len() == pw,
                kept_outside(*self, r0, sx as int, sy as int, pw as int, ph),
                forall|dx: int, dy2: int|
                    0 <= dx < pw && 0 <= dy2 < dy && sx + dx < w && sy + dy2 < h
                        ==> #[trigger] self.frame()[at(wn, sx + dx, sy + dy2)]
                        == rows@[dy2]@[dx],
            decreases rows@.len() - dy,
        {
            let ghost before = self.frame();
            proof {
                self.lemma_bounds();
            }
            let y = sy + dy;
            self.write_span(sx, y, &rows[dy]);
            proof {
                self.lemma_bounds();
                assert forall|x: int, y2: int|
                    0 <= x < w && 0 <= y2 < h && !in_box(
                        x,
                        y2,
                        sx as int,
                        sy as int,
                        pw as int,
                        ph,
                    ) implies #[trigger] self.frame()[at(wn, x, y2)] == r0.frame()[at(
                    w as nat,
                    x,
                    y2,
                )] by {
                    lemma_cell_index(x, y2, w, h);
                    let i = at(wn, x, y2);
                    assert(rows@[dy as int]@.len() == pw);
                    if y2 != y {
                        lemma_rows_apart(w, x, y2, y as int);
                    } else {
                        assert(x < sx || x >= sx + pw);
                        assert(i == y * w + x);
                    }
                    assert(!(y < h && y * wn + sx <= i < y * wn + sx + rows@[dy as int]@.len() && i < y
                        * wn + wn));
                    assert(self.frame()[i] == before[i]);
                }
                assert forall|dx: int, dy2: int|
                    0 <= dx < pw && 0 <= dy2 < dy + 1 && sx + dx < w && sy + dy2 < h
                        implies #[trigger] self.frame()[at(wn, sx + dx, sy + dy2)]
                        == rows@[dy2]@[dx] by {
                    assert(rows@[dy as int]@.len() == pw);
                    if dy2 < dy {
                        lemma_cell_index(sx + dx, sy + dy2, w, h);
                        lemma_rows_apart(w, sx + dx, sy + dy2, y as int);
                        let i = at(wn, sx + dx, sy + dy2);
                        assert(self.frame()[i] == before[i]);
                        assert(self.frame()[at(wn, sx + dx, sy + dy2)] == before[at(
                            w as nat,
                            sx + dx,
                            sy + dy2,
                        )]);
                    }
                }
            }
            dy = dy + 1;
        }
    }
}

/// The cell at `i` of `cells`.
fn row_cell_at_span(cells: &Vec<Cell>, i: usize) -> (r: Cell)
    requires
        i < cells@.len(),
    ensures
        r == cells@[i as int],
{
    cells[i]
}

/// Row `y` lies at other indices than the cells of any other row.
proof fn lemma_rows_apart(width: int, x: int, y: int, y2: int)
    requires
        0 <= x < width,
        0 <= y,
        0 <= y2,
        y != y2,
    ensures
        !(y2 * width <= y * width + x < y2 * width + width),
{
    if y < y2 {
        assert(y * width + width <= y2 * width) by (nonlinear_arith)
            requires
                y < y2,
                0 <= width,
        ;
    } else {
        assert(y2 * width + width <= y * width) by (nonlinear_arith)
            requires
                y2 < y,
                0 <= width,
        ;
    }
}

/// The length of the longest of `lines`.
pub open spec fn widest_spec(lines: Seq<Vec<char>>) -> nat
    decreases lines.len(),
{
    if lines.len() == 0 {
        0
    } else {
        let rest = widest_spec(lines.drop_last());
        if lines.last()@.len() > rest {
            lines.last()@.len()
        } else {
            rest
        }
    }
}

proof fn lemma_widest_bounds(lines: Seq<Vec<char>>)
    ensures
        forall|i: int| 0 <= i < lines.len() ==> (#[trigger] lines[i])@.len() <= widest_spec(lines),
        (forall|i: int| 0 <= i < lines.len() ==> (#[trigger] lines[i])@.len() < 0x10000)
            ==> widest_spec(lines) < 0x10000,
    decreases lines.len(),
{
    if lines.len() > 0 {
        lemma_widest_bounds(lines.drop_last());
        assert forall|i: int| 0 <= i < lines.len() implies (#[trigger] lines[i])@.len()
            <= widest_spec(lines) by {
            if i < lines.len() - 1 {
                assert(lines[i] == lines.drop_last()[i]);
            }
        }
        if forall|i: int| 0 <= i < lines.len() ==> (#[trigger] lines[i])@.len() < 0x10000 {
            assert forall|i: int| 0 <= i < lines.drop_last().len() implies (
            #[trigger] lines.drop_last()[i])@.len() < 0x10000 by {
                assert(lines.drop_last()[i] == lines[i]);
            }
            assert(lines[lines.len() - 1]@.len() < 0x10000);
        }
    }
}

/// The length of the longest line.
pub fn widest(lines: &Vec<Vec<char>>) -> (r: usize)
    requires
        forall|i: int| 0 <= i < lines@.len() ==> (#[trigger] lines@[i])@.len() < 0x10000,
    ensures
        r == widest_spec(lines@),
        r < 0x10000,
{
    proof {
        lemma_widest_bounds(lines@);
    }
    let mut m: usize = 0;
    let mut i: usize = 0;
    while i < lines.len()
        invariant
            i <= lines@.len(),
            m == widest_spec(lines@.subrange(0, i as int)),
        decreases lines@.len() - i,
    {
        proof {
            let next = lines@.subrange(0, i + 1);
            assert(next.drop_last() =~= lines@.subrange(0, i as int));
            assert(next.last() == lines@[i as int]);
        }
        if lines[i].len() > m {
            m = lines[i].len();
        }
        i = i + 1;
    }
    assert(lines@.subrange(0, lines@.len() as int) =~= lines@);
    m
}

/// The help popup's box `(x, y, width, height)`: wide enough for the
/// title and the longest command, at the bottom right.
pub open spec fn help_box(tw: int, th: int, title_len: int, widest: int, n: int) -> (
    int,
    int,
    int,
    int,
) {
    let pw = (if widest > title_len {
        widest
    } else {
        title_len
    }) + 4;
    let ph = n + 2;
    let sx = if tw > pw + 1 {
        tw - pw - 1
    } else {
        0
    };
    let sy = if th > ph + 1 {
        th - ph - 1
    } else {
        0
    };
    (sx, sy, pw, ph)
}

/// A popup's box centred in the terminal.
pub open spec fn centred_box(tw: int, th: int, pw: int, ph: int) -> (int, int, int, int) {
    let sx = if tw > pw {
        (tw - pw) / 2
    } else {
        0
    };
    let sy = if th > ph {
        (th - ph) / 2
    } else {
        0
    };
    (sx, sy, pw, ph)
}

/// The char of a box border at `(dx, dy)` of a `pw` by `ph` box, or of
/// its inside (`None`).
pub open spec fn border_char(pw: int, ph: int, dx: int, dy: int) -> Option<char> {
    if dy == 0 {
        Some(
            if dx == 0 {
                '┌'
            } else if dx == pw - 1 {
                '┐'
            } else {
                '─'
            },
        )
    } else if dy == ph - 1 {
        Some(
            if dx == 0 {
                '└'
            } else if dx == pw - 1 {
                '┘'
            } else {
                '─'
            },
        )
    } else if dx == 0 || dx == pw - 1 {
        Some('│')
    } else {
        None
    }
}

fn border_char_exec(pw: usize, ph: usize, dx: usize, dy: usize) -> (r: Option<char>)
    requires
        pw >= 1,
        ph >= 1,
    ensures
        r == border_char(pw as int, ph as int, dx as int, dy as int),
{
    if dy == 0 {
        Some(
            if dx == 0 {
                '┌'
            } else if dx == pw - 1 {
                '┐'
            } else {
                '─'
            },
        )
    } else if dy == ph - 1 {
        Some(
            if dx == 0 {
                '└'
            } else if dx == pw - 1 {
                '┘'
            } else {
                '─'
            },
        )
    } else if dx == 0 || dx == pw - 1 {
        Some('│')
    } else {
        None
    }
}

/// Where a title of `len` chars starts in the top border of a box `pw`
/// wide: centred, or at the first inner column when it does not fit.
pub open spec fn title_start(pw: int, len: int) -> int {
    if pw - 2 >= len {
        1 + (pw - 2 - len) / 2
    } else {
        1
    }
}

/// The text cell at `(dx, dy)`: the title over the top border (clipped to
/// it), the given row text inside, blanks after it.
pub open spec fn text_box_char(
    title: Seq<char>,
    rows: Seq<Seq<char>>,
    pw: int,
    ph: int,
    dx: int,
    dy: int,
) -> char {
    let ts = title_start(pw, title.len() as int);
    if dy == 0 && 0 < dx < pw - 1 && ts <= dx < ts + title.len() {
        title[dx - ts]
    } else {
        match border_char(pw, ph, dx, dy) {
            Some(c) => c,
            None => if 0 <= dy - 1 < rows.len() && dx - 1 < rows[dy - 1].len() {
                rows[dy - 1][dx - 1]
            } else {
                ' '
            },
        }
    }
}

fn text_box_char_exec(
    title: &Vec<char>,
    rows: &Vec<Vec<char>>,
    pw: usize,
    ph: usize,
    dx: usize,
    dy: usize,
) -> (r: char)
    requires
        pw >= 2,
        ph >= 2,
        title@.len() < 0x100000,
        pw < 0x100000,
    ensures
        r == text_box_char(title@, rows@.map_values(|l: Vec<char>| l@), pw as int, ph as int, dx as int, dy as int),
{
    let ghost rv = rows@.map_values(|l: Vec<char>| l@);
    let ts: usize = if pw - 2 >= title.len() {
        1 + (pw - 2 - title.len()) / 2
    } else {
        1
    };
    if dy == 0 && 0 < dx && dx < pw - 1 && ts <= dx && dx - ts < title.len() {
        return title[dx - ts];
    }
    match border_char_exec(pw, ph, dx, dy) {
        Some(c) => c,
        None => {
            if dy >= 1 && dy - 1 < rows.len() && dx >= 1 && dx - 1 < rows[dy - 1].len() {
                proof {
                    assert(rv[dy - 1] == rows@[dy - 1]@);
                }
                rows[dy - 1][dx - 1]
            } else {
                ' '
            }
        },
    }
}

/// Cells of a box whose characters `ch(dx, dy)` give, in the given colours,
/// with `(hl_fg, hl_bg)` on the inside of row `hl_row` (if any).
pub open spec fn colored(
    ch: char,
    pw: int,
    ph: int,
    dx: int,
    dy: int,
    hl_row: int,
    fg: Color,
    bg: Option<Color>,
    hl_fg: Color,
    hl_bg: Option<Color>,
) -> Cell {
    if dy == hl_row && border_char(pw, ph, dx, dy) is None {
        Cell { ch, fg: hl_fg, bg: hl_bg }
    } else {
        Cell { ch, fg, bg }
    }
}

/// The cells of a text box: a border, a title, rows of text, with one row
/// possibly in other colours.
fn text_box_cells(
    title: &Vec<char>,
    rows: &Vec<Vec<char>>,
    pw: usize,
    ph: usize,
    hl_row: usize,
    fg: Color,
    bg: Option<Color>,
    hl_fg: Color,
    hl_bg: Option<Color>,
    cur_dx: usize,
    cur_dy: usize,
    cur: Cell,
) -> (r: Vec<Vec<Cell>>)
    requires
        pw >= 2,
        ph >= 2,
        title@.len() < 0x100000,
        pw < 0x100000,
        ph < 0x100000,
    ensures
        r@.len() == ph,
        forall|i: int| 0 <= i < ph ==> (#[trigger] r@[i])@.len() == pw,
        forall|dx: int, dy: int|
            0 <= dx < pw && 0 <= dy < ph ==> #[trigger] r@[dy]@[dx] == if dx == cur_dx && dy
                == cur_dy {
                cur
            } else {
                colored(
                    text_box_char(title@, rows@.map_values(|l: Vec<char>| l@), pw as int, ph as int, dx, dy),
                    pw as int,
                    ph as int,
                    dx,
                    dy,
                    hl_row as int,
                    fg,
                    bg,
                    hl_fg,
                    hl_bg,
                )
            },
{
    let mut out: Vec<Vec<Cell>> = Vec::new();
    let mut dy: usize = 0;
    while dy < ph
        invariant
            dy <= ph,
            pw >= 2,
            ph >= 2,
            title@.len() < 0x100000,
            pw < 0x100000,
            out@.len() == dy,
            forall|i: int| 0 <= i < dy ==> (#[trigger] out@[i])@.len() == pw,
            forall|dx: int, dy2: int|
                0 <= dx < pw && 0 <= dy2 < dy ==> #[trigger] out@[dy2]@[dx] == if dx == cur_dx
                    && dy2 == cur_dy {
                    cur
                } else {
                    colored(
                        text_box_char(title@, rows@.map_values(|l: Vec<char>| l@), pw as int, ph as int, dx, dy2),
                        pw as int,
                        ph as int,
                        dx,
                        dy2,
                        hl_row as int,
                        fg,
                        bg,
                        hl_fg,
                        hl_bg,
                    )
                },
        decreases ph - dy,
    {
        let mut row: Vec<Cell> = Vec::new();
        let mut dx: usize = 0;
        while dx < pw
            invariant
                dx <= pw,
                dy < ph,
                pw >= 2,
                ph >= 2,
                title@.len() < 0x100000,
                pw < 0x100000,
                row@.len() == dx,
                forall|k: int| 0 <= k < dx ==> #[trigger] row@[k] == if k == cur_dx && dy == cur_dy {
                    cur
                } else {
                    colored(
                        text_box_char(title@, rows@.map_values(|l: Vec<char>| l@), pw as int, ph as int, k, dy as int),
                        pw as int,
                        ph as int,
                        k,
                        dy as int,
                        hl_row as int,
                        fg,
                        bg,
                        hl_fg,
                        hl_bg,
                    )
                },
            decreases pw - dx,
        {
            let ch = text_box_char_exec(title, rows, pw, ph, dx, dy);
            let inside = border_char_exec(pw, ph, dx, dy).is_none();
            let cell = box_cell(ch, inside && dy == hl_row, fg, bg, hl_fg, hl_bg);
            let cell = choose_cell(dx == cur_dx && dy == cur_dy, cur, cell);
            row.push(cell);
            dx = dx + 1;
        }
        let ghost before = out@;
        out.push(row);
        proof {
            assert forall|i: int| 0 <= i < dy + 1 implies (#[trigger] out@[i])@.len() == pw by {
                if i < dy {
                    assert(out@[i] == before[i]);
                }
            }
            assert forall|dx: int, dy2: int|
                0 <= dx < pw && 0 <= dy2 < dy + 1 implies #[trigger] out@[dy2]@[dx] == if dx
                    == cur_dx && dy2 == cur_dy {
                    cur
                } else {
                    colored(
                        text_box_char(title@, rows@.map_values(|l: Vec<char>| l@), pw as int, ph as int, dx, dy2),
                        pw as int,
                        ph as int,
                        dx,
                        dy2,
                        hl_row as int,
                        fg,
                        bg,
                        hl_fg,
                        hl_bg,
                    )
                } by {
                if dy2 < dy {
                    assert(out@[dy2] == before[dy2]);
                }
            }
        }
        dy = dy + 1;
    }
    out
}

/// `a` when `first` holds, else `b`.
fn choose_cell(first: bool, a: Cell, b: Cell) -> (r: Cell)
    ensures
        r == (if first {
            a
        } else {
            b
        }),
{
    if first {
        a
    } else {
        b
    }
}

/// A cell in the normal or the highlighted colours.
fn box_cell(
    ch: char,
    highlighted: bool,
    fg: Color,
    bg: Option<Color>,
    hl_fg: Color,
    hl_bg: Option<Color>,
) -> (r: Cell)
    ensures
        r == (if highlighted {
            Cell { ch, fg: hl_fg, bg: hl_bg }
        } else {
            Cell { ch, fg, bg }
        }),
{
    if highlighted {
        Cell { ch, fg: hl_fg, bg: hl_bg }
    } else {
        Cell { ch, fg, bg }
    }
}

/// Chars of a string literal.
fn literal_chars(s: &str) -> (r: Vec<char>)
    ensures
        r@ == s@,
{
    chars_of(s)
}

/// Draws the help of a menu in a box at the bottom right: the title
/// centred in the top border, one command per row, in white on dark grey.
pub fn draw_help_popup_to_buffer(
    render_state: &mut RenderState,
    title: &Vec<char>,
    commands: &Vec<Vec<char>>,
)
    requires
        old(render_state).wf(),
        title@.len() < 0x10000,
        commands@.len() < 0x10000,
        forall|i: int| 0 <= i < commands@.len() ==> (#[trigger] commands@[i])@.len() < 0x10000,
    ensures
        ({
            let (sx, sy, pw, ph) = help_box(
                old(render_state).width() as int,
                old(render_state).height() as int,
                title@.len() as int,
                widest_spec(commands@) as int,
                commands@.len() as int,
            );
            &&& kept_outside(*final(render_state), *old(render_state), sx, sy, pw, ph)
            &&& forall|dx: int, dy: int|
                0 <= dx < pw && 0 <= dy < ph && sx + dx < old(render_state).width() && sy + dy
                    < old(render_state).height() ==> #[trigger] final(render_state).frame()[at(
                    old(render_state).width(),
                    sx + dx,
                    sy + dy,
                )] == (Cell {
                    ch: text_box_char(
                        title@,
                        commands@.map_values(|l: Vec<char>| l@),
                        pw,
                        ph,
                        dx,
                        dy,
                    ),
                    fg: Color::White,
                    bg: Some(Color::DarkGrey),
                })
        }),
{
    proof {
        render_state.lemma_bounds();
    }
    let max_line = widest(commands);
    let inner = if max_line > title.len() {
        max_line
    } else {
        title.len()
    };
    let pw = inner + 4;
    let ph = commands.len() + 2;
    let tw = render_state.term_width() as usize;
    let th = render_state.term_height() as usize;
    let sx = if tw > pw + 1 {
        tw - pw - 1
    } else {
        0
    };
    let sy = if th > ph + 1 {
        th - ph - 1
    } else {
        0
    };
    let fg = Color::White;
    let bg = Some(Color::DarkGrey);
    let blank = Cell { ch: ' ', fg, bg };
    let cells = text_box_cells(title, commands, pw, ph, ph, fg, bg, fg, bg, 0, ph, blank);
    render_state.draw_cells_in_box(sx, sy, &cells, pw);
}

/// Draws the file picker in a centred box: "Pick a file" in the top
/// border, the files one per row, the selected one in black on white.
pub fn draw_file_picker_popup_to_buffer(
    render_state: &mut RenderState,
    files: &Vec<Vec<char>>,
    selected_index: usize,
)
    requires
        old(render_state).wf(),
        files@.len() < 0x10000,
        forall|i: int| 0 <= i < files@.len() ==> (#[trigger] files@[i])@.len() < 0x10000,
    ensures
        ({
            let (sx, sy, pw, ph) = centred_box(
                old(render_state).width() as int,
                old(render_state).height() as int,
                widest_spec(files@) as int + 4,
                files@.len() as int + 2,
            );
            &&& kept_outside(*final(render_state), *old(render_state), sx, sy, pw, ph)
            &&& forall|dx: int, dy: int|
                0 <= dx < pw && 0 <= dy < ph && sx + dx < old(render_state).width() && sy + dy
                    < old(render_state).height() ==> #[trigger] final(render_state).frame()[at(
                    old(render_state).width(),
                    sx + dx,
                    sy + dy,
                )] == colored(
                    text_box_char(
                        "Pick a file"@,
                        files@.map_values(|l: Vec<char>| l@),
                        pw,
                        ph,
                        dx,
                        dy,
                    ),
                    pw,
                    ph,
                    dx,
                    dy,
                    selected_index + 1,
                    Color::White,
                    Some(Color::DarkGrey),
                    Color::Black,
                    Some(Color::White),
                )
        }),
{
    proof {
        render_state.lemma_bounds();
    }
    let title = literal_chars("Pick a file");
    proof {
        reveal_strlit("Pick a file");
    }
    let pw = widest(files) + 4;
    let ph = files.len() + 2;
    let tw = render_state.term_width() as usize;
    let th = render_state.term_height() as usize;
    let sx = if tw > pw {
        (tw - pw) / 2
    } else {
        0
    };
    let sy = if th > ph {
        (th - ph) / 2
    } else {
        0
    };
    let hl_row = if selected_index < files.len() {
        selected_index + 1
    } else {
        ph
    };
    let cells = text_box_cells(
        &title,
        files,
        pw,
        ph,
        hl_row,
        Color::White,
        Some(Color::DarkGrey),
        Color::Black,
        Some(Color::White),
        0,
        ph,
        Cell { ch: ' ', fg: Color::White, bg: None },
    );
    proof {
        assert forall|dx: int, dy: int| 0 <= dx < pw && 0 <= dy < ph implies #[trigger] cells@[dy]@[dx]
            == colored(
            text_box_char(title@, files@.map_values(|l: Vec<char>| l@), pw as int, ph as int, dx, dy),
            pw as int,
            ph as int,
            dx,
            dy,
            selected_index + 1,
            Color::White,
            Some(Color::DarkGrey),
            Color::Black,
            Some(Color::White),
        ) by {
            if selected_index >= files@.len() && dy == selected_index + 1 {
                // that row is the bottom border or lies below the box
                assert(dy >= ph - 1);
            }
        }
    }
    render_state.draw_cells_in_box(sx, sy, &cells, pw);
}

/// Columns of the save-as input field.
pub const SAVE_AS_FIELD: usize = 36;

/// Where the shown part of a save-as input starts: scrolled so that the
/// cursor stays in the field.
pub open spec fn save_as_scroll(len: int, cursor: int) -> int {
    if len > SAVE_AS_FIELD && cursor >= SAVE_AS_FIELD {
        if cursor - SAVE_AS_FIELD + 1 <= len {
            cursor - SAVE_AS_FIELD + 1
        } else {
            len
        }
    } else {
        0
    }
}

/// The rows inside the save-as box: the title, the shown part of the
/// input, a hint.
pub open spec fn save_as_rows(input: Seq<char>, cursor: int) -> Seq<Seq<char>> {
    let start = save_as_scroll(input.len() as int, cursor);
    let shown = input.subrange(start, input.len() as int);
    let clipped = if shown.len() > SAVE_AS_FIELD {
        shown.subrange(0, SAVE_AS_FIELD as int)
    } else {
        shown
    };
    seq![" Save As:"@, seq![' '] + clipped, " Enter: Save | Esc: Cancel"@]
}

/// Draws the save-as popup: a centred 40 by 5 box with a title, the typed
/// name (scrolled so the cursor stays in view) with the cursor's cell in
/// black on white, and a hint.
pub fn draw_file_save_as_popup_to_buffer(
    render_state: &mut RenderState,
    input: &Vec<char>,
    cursor_pos: usize,
)
    requires
        old(render_state).wf(),
    ensures
        ({
            let (sx, sy, pw, ph) = centred_box(
                old(render_state).width() as int,
                old(render_state).height() as int,
                40,
                5,
            );
            let start = save_as_scroll(input@.len() as int, cursor_pos as int);
            let cursor_col = if cursor_pos - start < SAVE_AS_FIELD {
                2 + cursor_pos - start
            } else {
                2 + SAVE_AS_FIELD - 1
            };
            &&& kept_outside(*final(render_state), *old(render_state), sx, sy, pw, ph)
            &&& forall|dx: int, dy: int|
                0 <= dx < pw && 0 <= dy < ph && sx + dx < old(render_state).width() && sy + dy
                    < old(render_state).height() ==> #[trigger] final(render_state).frame()[at(
                    old(render_state).width(),
                    sx + dx,
                    sy + dy,
                )] == if dy == 2 && dx == cursor_col {
                    Cell {
                        ch: if cursor_pos < input@.len() {
                            input@[cursor_pos as int]
                        } else {
                            ' '
                        },
                        fg: Color::Black,
                        bg: Some(Color::White),
                    }
                } else {
                    Cell {
                        ch: text_box_char(
                            seq![],
                            save_as_rows(input@, cursor_pos as int),
                            pw,
                            ph,
                            dx,
                            dy,
                        ),
                        fg: Color::White,
                        bg: Some(Color::DarkGrey),
                    }
                }
        }),
{
    proof {
        render_state.lemma_bounds();
    }
    let pw: usize = 40;
    let ph: usize = 5;
    let tw = render_state.term_width() as usize;
    let th = render_state.term_height() as usize;
    let sx = if tw > pw {
        (tw - pw) / 2
    } else {
        0
    };
    let sy = if th > ph {
        (th - ph) / 2
    } else {
        0
    };
    let start: usize = if input.len() > SAVE_AS_FIELD && cursor_pos >= SAVE_AS_FIELD {
        if cursor_pos - SAVE_AS_FIELD + 1 <= input.len() {
            cursor_pos - SAVE_AS_FIELD + 1
        } else {
            input.len()
        }
    } else {
        0
    };
    let mut field: Vec<char> = Vec::new();
    field.push(' ');
    let mut k: usize = start;
    let ghost shown = input@.subrange(start as int, input@.len() as int);
    let ghost clipped = if shown.len() > SAVE_AS_FIELD {
        shown.subrange(0, SAVE_AS_FIELD as int)
    } else {
        shown
    };
    while k < input.len() && field.len() < SAVE_AS_FIELD + 1
        invariant
            start <= k <= input@.len(),
            field@.len() == 1 + (k - start),
            field@.len() <= SAVE_AS_FIELD + 1,
            field@ == seq![' '] + input@.subrange(start as int, k as int),
        decreases input@.len() - k,
    {
        let c = input[k];
        field.push(c);
        k = k + 1;
        assert(field@ =~= seq![' '] + input@.subrange(start as int, k as int));
    }
    proof {
        assert(field@ =~= seq![' '] + clipped);
    }
    let mut rows: Vec<Vec<char>> = Vec::new();
    rows.push(literal_chars(" Save As:"));
    rows.push(field);
    rows.push(literal_chars(" Enter: Save | Esc: Cancel"));
    proof {
        assert(rows@.map_values(|l: Vec<char>| l@) =~= save_as_rows(input@, cursor_pos as int));
    }
    let empty: Vec<char> = Vec::new();
    let fg = Color::White;
    let bg = Some(Color::DarkGrey);
    let offset = if cursor_pos >= start && cursor_pos - start < SAVE_AS_FIELD {
        cursor_pos - start
    } else {
        SAVE_AS_FIELD - 1
    };
    let cursor_char = if cursor_pos < input.len() {
        input[cursor_pos]
    } else {
        ' '
    };
    let cursor_cell = Cell { ch: cursor_char, fg: Color::Black, bg: Some(Color::White) };
    let cells = text_box_cells(&empty, &rows, pw, ph, ph, fg, bg, fg, bg, 2 + offset, 2, cursor_cell);
    render_state.draw_cells_in_box(sx, sy, &cells, pw);
}

/// The chars of each string, when every one and their number are shorter
/// than a terminal can show.
fn short_lines(v: &Vec<String>) -> (r: Option<Vec<Vec<char>>>)
    ensures
        r is Some ==> {
            let l = r.unwrap();
            &&& l@.len() == v@.len()
            &&& l@.len() < 0x10000
            &&& forall|i: int| 0 <= i < l@.len() ==> (#[trigger] l@[i])@ == v@[i]@
            &&& forall|i: int| 0 <= i < l@.len() ==> (#[trigger] l@[i])@.len() < 0x10000
        },
{
    if v.len() >= 0x10000 {
        return None;
    }
    let mut r: Vec<Vec<char>> = Vec::new();
    let mut i: usize = 0;
    while i < v.len()
        invariant
            i <= v@.len(),
            v@.len() < 0x10000,
            r@.len() == i,
            forall|k: int| 0 <= k < i ==> (#[trigger] r@[k])@ == v@[k]@,
            forall|k: int| 0 <= k < i ==> (#[trigger] r@[k])@.len() < 0x10000,
        decreases v@.len() - i,
    {
        let c = chars_of(v[i].as_str());
        if c.len() >= 0x10000 {
            return None;
        }
        r.push(c);
        i = i + 1;
    }
    Some(r)
}

/// Draws the popup of whatever waits for keys: the help of a menu, the
/// file picker, or the save-as input. Only the box drawn changes.
pub fn draw_popups(editor: &Editor, render_state: &mut RenderState)
    requires
        old(render_state).wf(),
    ensures
        final(render_state).wf(),
        final(render_state).width() == old(render_state).width(),
        final(render_state).height() == old(render_state).height(),
        final(render_state).scroll() == old(render_state).scroll(),
        final(render_state).wrapped() == old(render_state).wrapped(),
        final(render_state).number_width() == old(render_state).number_width(),
        final(render_state).previous_frame() == old(render_state).previous_frame(),
        // nothing waits: nothing is drawn
        !editor.menu().active_spec() && !editor.menu().file_picker.active_spec() ==> final(
            render_state).frame() == old(render_state).frame(),
        // the save-as input draws its centred box
        !editor.menu().active_spec() && editor.menu().file_picker.active_spec()
            && editor.menu().file_picker.action_spec() == Action::Save ==> ({
            let (sx, sy, pw, ph) = centred_box(
                old(render_state).width() as int,
                old(render_state).height() as int,
                40,
                5,
            );
            kept_outside(*final(render_state), *old(render_state), sx, sy, pw, ph)
        }),
        // whatever is drawn stays inside one box
        exists|sx: int, sy: int, pw: int, ph: int|
            kept_outside(*final(render_state), *old(render_state), sx, sy, pw, ph),
{
    let ghost r0 = *render_state;
    proof {
        assert(kept_outside(r0, r0, 0, 0, 0, 0));
    }
    let menu = editor.menu_status();
    if editor.is_waiting_for_command() {
        let (title, lines) = menu.show_menu();
        if let (Some(title), Some(lines)) = (title, lines) {
            let t = chars_of(title.as_str());
            if t.len() < 0x10000 {
                if let Some(l) = short_lines(&lines) {
                    draw_help_popup_to_buffer(render_state, &t, &l);
                    proof {
                        let (sx, sy, pw, ph) = help_box(
                            r0.width() as int,
                            r0.height() as int,
                            t@.len() as int,
                            widest_spec(l@) as int,
                            l@.len() as int,
                        );
                        assert(kept_outside(*render_state, r0, sx, sy, pw, ph));
                    }
                }
            }
        }
    } else if menu.file_picker_state(Action::Load) {
        if let Some(files) = short_lines(menu.get_file_picker_files()) {
            draw_file_picker_popup_to_buffer(
                render_state,
                &files,
                menu.file_picker_selected_index(),
            );
            proof {
                let (sx, sy, pw, ph) = centred_box(
                    r0.width() as int,
                    r0.height() as int,
                    widest_spec(files@) as int + 4,
                    files@.len() as int + 2,
                );
                assert(kept_outside(*render_state, r0, sx, sy, pw, ph));
            }
        }
    } else if menu.file_picker_state(Action::Save) {
        draw_file_save_as_popup_to_buffer(
            render_state,
            &menu.file_picker.input,
            menu.file_picker.cursor_pos(),
        );
        proof {
            let (sx, sy, pw, ph) = centred_box(r0.width() as int, r0.height() as int, 40, 5);
            assert(kept_outside(*render_state, r0, sx, sy, pw, ph));
        }
    }
}

} // verus!

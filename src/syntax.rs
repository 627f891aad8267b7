//! Styles and the per-line style cache.

use std::collections::{HashMap, HashSet};
use vstd::prelude::*;

verus! {

broadcast use vstd::std_specs::hash::group_hash_axioms;

/// The closed set of styles a character can be drawn with.
#[derive(Debug, Clone, Copy, PartialEq, Eq, Structural)]
pub enum Style {
    Normal,
    Keyword,
    Function,
    Type,
    String,
    Number,
    Comment,
    Variable,
    Constant,
    Operator,
    Error,
    Selection,
}

/// A style over the chars `start..end` of the document.
#[derive(Debug, Clone, Copy, PartialEq, Eq, Structural)]
pub struct Highlight {
    pub start: usize,
    pub end: usize,
    pub style: Style,
}

/// The style of char index `c`: that of the first highlight covering it,
/// else `Normal`.
pub open spec fn highlight_style(h: Seq<Highlight>, c: int) -> Style
    decreases h.len(),
{
    if h.len() == 0 {
        Style::Normal
    } else if h[0].start <= c < h[0].end {
        h[0].style
    } else {
        highlight_style(h.drop_first(), c)
    }
}

/// The style of char index `c` under highlights `h`.
pub fn style_of_char(h: &Vec<Highlight>, c: usize) -> (r: Style)
    ensures
        r == highlight_style(h@, c as int),
{
    let mut i: usize = 0;
    assert(h@.subrange(0, h@.len() as int) =~= h@);
    while i < h.len()
        invariant
            i <= h@.len(),
            highlight_style(h@, c as int) == highlight_style(h@.subrange(i as int, h@.len() as int), c as int),
        decreases h@.len() - i,
    {
        let hl = h[i];
        assert(h@.subrange(i as int, h@.len() as int).drop_first() =~= h@.subrange(i + 1, h@.len() as int));
        if hl.start <= c && c < hl.end {
            return hl.style;
        }
        i = i + 1;
    }
    Style::Normal
}

/// What a style query answers for `(line, col)` given the cached styles
/// `m` and the dirty lines `d`: a style only for a clean cached line.
pub open spec fn style_query(
    m: Map<usize, Seq<Style>>,
    d: Set<usize>,
    line: usize,
    col: usize,
) -> Option<Style> {
    if m.contains_key(line) && !d.contains(line) && col < m[line].len() {
        Some(m[line][col as int])
    } else {
        None
    }
}

/// Styles computed per line, with the set of lines whose styles are stale.
pub struct SyntaxCache {
    pub line_styles: HashMap<usize, Vec<Style>>,
    pub dirty_lines: HashSet<usize>,
    pub last_content_length: usize,
}

impl SyntaxCache {
    /// The cached styles, line by line.
    pub open spec fn styles(&self) -> Map<usize, Seq<Style>> {
        self.line_styles@.map_values(|v: Vec<Style>| v@)
    }

    /// The lines marked stale.
    pub open spec fn dirty(&self) -> Set<usize> {
        self.dirty_lines@
    }

    pub fn new() -> (r: Self)
        ensures
            r.styles() == Map::<usize, Seq<Style>>::empty(),
            r.dirty() == Set::<usize>::empty(),
            r.last_content_length == 0,
    {
        let r = SyntaxCache {
            line_styles: HashMap::new(),
            dirty_lines: HashSet::new(),
            last_content_length: 0,
        };
        assert(r.styles() =~= Map::<usize, Seq<Style>>::empty());
        r
    }

    /// Marks one line stale.
    pub fn mark_line_dirty(&mut self, line_number: usize)
        ensures
            final(self).styles() == old(self).styles(),
            final(self).dirty() == old(self).dirty().insert(line_number),
            final(self).last_content_length == old(self).last_content_length,
    {
        self.dirty_lines.insert(line_number);
    }

    /// Marks the lines `start_line..=end_line` stale.
    pub fn mark_range_dirty(&mut self, start_line: usize, end_line: usize)
        ensures
            final(self).styles() == old(self).styles(),
            final(self).dirty() == old(self).dirty().union(
                Set::new(|l: usize| start_line <= l <= end_line),
            ),
            final(self).last_content_length == old(self).last_content_length,
    {
        if start_line > end_line {
            assert(old(self).dirty().union(Set::new(|l: usize| start_line <= l <= end_line))
                =~= old(self).dirty());
            return ;
        }
        let mut line: usize = start_line;
        loop
            invariant
                start_line <= line <= end_line,
                self.styles() == old(self).styles(),
                self.last_content_length == old(self).last_content_length,
                self.dirty() == old(self).dirty().union(
                    Set::new(|l: usize| start_line <= l < line),
                ),
            decreases end_line - line,
        {
            self.dirty_lines.insert(line);
            if line == end_line {
                assert(self.dirty() =~= old(self).dirty().union(
                    Set::new(|l: usize| start_line <= l <= end_line),
                ));
                return ;
            }
            line = line + 1;
            assert(self.dirty() =~= old(self).dirty().union(
                Set::new(|l: usize| start_line <= l < line),
            ));
        }
    }

    /// Forgets every cached line.
    pub fn mark_all_dirty(&mut self)
        ensures
            final(self).styles() == Map::<usize, Seq<Style>>::empty(),
            final(self).dirty() == Set::<usize>::empty(),
            final(self).last_content_length == old(self).last_content_length,
    {
        self.line_styles.clear();
        self.dirty_lines.clear();
        assert(self.styles() =~= Map::<usize, Seq<Style>>::empty());
    }

    /// The cached style at `(line_number, col)`, if that line is cached and
    /// not stale.
    pub fn get_cached_style(&self, line_number: usize, col: usize) -> (r: Option<Style>)
        ensures
            r == style_query(self.styles(), self.dirty(), line_number, col),
    {
        if self.dirty_lines.contains(&line_number) {
            return None;
        }
        match self.line_styles.get(&line_number) {
            Some(styles) => {
                if col < styles.len() {
                    Some(styles[col])
                } else {
                    None
                }
            },
            None => None,
        }
    }

    /// Stores the styles of a line and marks it fresh.
    pub fn cache_line_styles(&mut self, line_number: usize, styles: Vec<Style>)
        ensures
            final(self).styles() == old(self).styles().insert(line_number, styles@),
            final(self).dirty() == old(self).dirty().remove(line_number),
            final(self).last_content_length == old(self).last_content_length,
    {
        self.line_styles.insert(line_number, styles);
        self.dirty_lines.remove(&line_number);
        assert(self.styles() =~= old(self).styles().insert(line_number, styles@));
    }

    /// Whether the line is cached and not stale.
    pub fn is_line_cached(&self, line_number: usize) -> (r: bool)
        ensures
            r == (self.styles().contains_key(line_number) && !self.dirty().contains(line_number)),
    {
        self.line_styles.contains_key(&line_number) && !self.dirty_lines.contains(&line_number)
    }
}

/// Marking a line stale a second time, or caching the same styles for a
/// line a second time, answers every query as doing it once does.
pub proof fn lemma_cache_ops_idempotent(
    m: Map<usize, Seq<Style>>,
    d: Set<usize>,
    line: usize,
    styles: Seq<Style>,
)
    ensures
        forall|l: usize, c: usize|
            style_query(m, d.insert(line).insert(line), l, c) == #[trigger] style_query(
                m,
                d.insert(line),
                l,
                c,
            ),
        forall|l: usize, c: usize|
            style_query(
                m.insert(line, styles).insert(line, styles),
                d.remove(line).remove(line),
                l,
                c,
            ) == #[trigger] style_query(m.insert(line, styles), d.remove(line), l, c),
{
    assert(d.insert(line).insert(line) =~= d.insert(line));
    assert(d.remove(line).remove(line) =~= d.remove(line));
    assert(m.insert(line, styles).insert(line, styles) =~= m.insert(line, styles));
}

/// Styles just cached for a line are what a query on it returns, and they
/// stay so while other lines are marked stale or cached, until the line
/// itself is marked stale.
pub proof fn lemma_cache_round_trip(
    m: Map<usize, Seq<Style>>,
    d: Set<usize>,
    line: usize,
    styles: Seq<Style>,
    other: usize,
    other_styles: Seq<Style>,
)
    requires
        other != line,
    ensures
        forall|c: usize|
            c < styles.len() ==> #[trigger] style_query(m.insert(line, styles), d.remove(line), line, c)
                == Some(styles[c as int]),
        forall|c: usize|
            #[trigger] style_query(m.insert(line, styles), d.remove(line).insert(other), line, c)
                == style_query(m.insert(line, styles), d.remove(line), line, c),
        forall|c: usize|
            #[trigger] style_query(
                m.insert(line, styles).insert(other, other_styles),
                d.remove(line).remove(other),
                line,
                c,
            ) == style_query(m.insert(line, styles), d.remove(line), line, c),
        forall|c: usize|
            #[trigger] style_query(m.insert(line, styles), d.remove(line).insert(line), line, c)
                == None::<Style>,
{
}

} // verus!

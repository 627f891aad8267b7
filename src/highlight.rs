//! Syntax highlighting of composite documents: code fences tagged with a
//! language are found line by line, a parser's captures inside a fence are
//! mapped to styles by capture name, and their byte ranges are shifted to
//! the fence's place in the document.

use crate::syntax::Style;
use streaming_iterator::StreamingIterator;
use tree_sitter::{Language, Parser, Query, QueryCursor};
use tree_sitter_rust::{HIGHLIGHTS_QUERY, LANGUAGE};
use crate::text::{byte_len, chars_of, string_of_chars, utf8_width};
use vstd::prelude::*;

verus! {

/// The pattern of a fence's opening line; its group names the language.
pub const FENCE_PATTERN: &'static str = "(?m)^```([\\w\\+\\-]+)";

/// A name for what the regex crate finds: the text of the first group of
/// `pattern`'s first match in `text`, if it matches and the group takes
/// part.
pub uninterp spec fn regex_group1(pattern: Seq<char>, text: Seq<char>) -> Option<Seq<char>>;

/// Relies on `regex::Regex::new` and `Regex::captures`: the first group of
/// the first match; none when the pattern does not compile or match.
#[verifier::external_body]
fn first_group(pattern: &str, text: &str) -> (r: Option<String>)
    ensures
        r.is_some() == regex_group1(pattern@, text@).is_some(),
        r.is_some() ==> r.unwrap()@ == regex_group1(pattern@, text@).unwrap(),
{
    regex::Regex::new(pattern).ok().and_then(
        |re| re.captures(text).and_then(|c| c.get(1)).map(|m| m.as_str().to_owned()),
    )
}

/// A name for what `str::to_lowercase` returns.
pub uninterp spec fn lower_of(s: Seq<char>) -> Seq<char>;

/// Relies on `str::to_lowercase`: the result depends on the characters
/// alone, and an empty text stays empty.
#[verifier::external_body]
fn lowercase(s: &str) -> (r: String)
    ensures
        r@ == lower_of(s@),
        s@.len() == 0 ==> r@.len() == 0,
{
    s.to_lowercase()
}

/// The style a capture name stands for; unknown names are `Normal`.
pub open spec fn capture_style_spec(name: Seq<char>) -> Style {
    if name == "keyword"@ {
        Style::Keyword
    } else if name == "function"@ || name == "function.macro"@ {
        Style::Function
    } else if name == "type"@ {
        Style::Type
    } else if name == "string"@ {
        Style::String
    } else if name == "number"@ {
        Style::Number
    } else if name == "comment"@ {
        Style::Comment
    } else if name == "variable"@ || name == "variable.field"@ || name == "variable.builtin"@ {
        Style::Variable
    } else if name == "constant"@ {
        Style::Constant
    } else if name == "operator"@ {
        Style::Operator
    } else {
        Style::Normal
    }
}

/// The style of a capture name.
pub fn capture_style(name: &str) -> (r: Style)
    ensures
        r == capture_style_spec(name@),
{
    let n = name.to_owned();
    if n == "keyword".to_owned() {
        Style::Keyword
    } else if n == "function".to_owned() || n == "function.macro".to_owned() {
        Style::Function
    } else if n == "type".to_owned() {
        Style::Type
    } else if n == "string".to_owned() {
        Style::String
    } else if n == "number".to_owned() {
        Style::Number
    } else if n == "comment".to_owned() {
        Style::Comment
    } else if n == "variable".to_owned() || n == "variable.field".to_owned() || n
        == "variable.builtin".to_owned() {
        Style::Variable
    } else if n == "constant".to_owned() {
        Style::Constant
    } else if n == "operator".to_owned() {
        Style::Operator
    } else {
        Style::Normal
    }
}

/// A parser capture inside a code block: a byte range and its name.
#[derive(Debug, Clone)]
pub struct Capture {
    pub start_byte: usize,
    pub end_byte: usize,
    pub name: String,
}

/// A style over a byte range of the document.
#[derive(Debug, Clone, Copy, PartialEq, Eq, Structural)]
pub struct ByteHighlight {
    pub start: usize,
    pub end: usize,
    pub style: Style,
}

/// The view of captures: byte range and name.
pub open spec fn capture_views(caps: Seq<Capture>) -> Seq<(usize, usize, Seq<char>)> {
    caps.map_values(|c: Capture| (c.start_byte, c.end_byte, c.name@))
}

/// The highlights of the captures `(start, end, name)` of a block starting
/// at byte `offset`: empty captures are dropped, the others shifted by
/// `offset` and styled by name.
pub open spec fn shifted_highlights(offset: int, caps: Seq<(usize, usize, Seq<char>)>) -> Seq<
    ByteHighlight,
>
    decreases caps.len(),
{
    if caps.len() == 0 {
        seq![]
    } else {
        let rest = shifted_highlights(offset, caps.drop_last());
        let c = caps.last();
        if c.0 == c.1 {
            rest
        } else {
            rest.push(
                ByteHighlight {
                    start: (c.0 + offset) as usize,
                    end: (c.1 + offset) as usize,
                    style: capture_style_spec(c.2),
                },
            )
        }
    }
}

/// Whether every capture shifted by `offset` stays within `usize`.
pub open spec fn captures_fit(offset: int, caps: Seq<(usize, usize, Seq<char>)>) -> bool {
    forall|i: int|
        0 <= i < caps.len() ==> (#[trigger] caps[i]).0 + offset <= usize::MAX && caps[i].1 + offset
            <= usize::MAX
}

/// Styles the captures of a block that starts at byte `offset`.
pub fn highlights_from_captures(offset: usize, captures: &Vec<Capture>) -> (r: Vec<ByteHighlight>)
    requires
        captures_fit(offset as int, capture_views(captures@)),
    ensures
        r@ == shifted_highlights(offset as int, capture_views(captures@)),
{
    let ghost cv = capture_views(captures@);
    let mut r: Vec<ByteHighlight> = Vec::new();
    let mut i: usize = 0;
    while i < captures.len()
        invariant
            i <= captures@.len(),
            cv == capture_views(captures@),
            captures_fit(offset as int, cv),
            r@ == shifted_highlights(offset as int, cv.subrange(0, i as int)),
        decreases captures@.len() - i,
    {
        let c = &captures[i];
        proof {
            let next = cv.subrange(0, i + 1);
            assert(next.drop_last() =~= cv.subrange(0, i as int));
            assert(next.last() == cv[i as int]);
            assert(cv[i as int] == (c.start_byte, c.end_byte, c.name@));
        }
        if c.start_byte != c.end_byte {
            let style = capture_style(c.name.as_str());
            r.push(
                ByteHighlight { start: c.start_byte + offset, end: c.end_byte + offset, style },
            );
        }
        i = i + 1;
    }
    assert(cv.subrange(0, captures@.len() as int) =~= cv);
    r
}

/// A name for what tree-sitter's Rust grammar and highlight query find in
/// `code`: the captures of its matches, as byte ranges and capture names.
pub uninterp spec fn rust_captures_of(code: Seq<char>) -> Seq<(usize, usize, Seq<char>)>;

/// Relies on tree-sitter (`Parser::parse`, `QueryCursor::matches`) with the
/// Rust grammar and its highlight query: the captures of every match, in the
/// order the cursor yields them; none when grammar or query cannot be
/// loaded or the parse fails. They depend on the code alone.
#[verifier::external_body]
fn rust_captures(code: &str) -> (r: Vec<Capture>)
    ensures
        capture_views(r@) == rust_captures_of(code@),
{
    let lang = Language::from(LANGUAGE);
    let mut parser = Parser::new();
    let (Ok(()), Ok(q)) = (parser.set_language(&lang), Query::new(&lang, HIGHLIGHTS_QUERY)) else { return vec![] };
    let Some(tree) = parser.parse(code, None) else { return vec![] };
    let mut cursor = QueryCursor::new();
    let mut ms = cursor.matches(&q, tree.root_node(), code.as_bytes());
    let mut out = vec![];
    while let Some(m) = ms.next() {
        for c in m.captures {
            out.push(Capture { start_byte: c.node.start_byte(), end_byte: c.node.end_byte(), name: q.capture_names()[c.index as usize].into() });
        }
    }
    out
}

/// Whether a fence's language has a grammar: only Rust is registered.
pub open spec fn registered_language(lang: Seq<char>) -> bool {
    lang == "rust"@
}

/// The byte-range highlights of one block: those of its captures when its
/// language is registered (and the shifted ranges fit), else none.
pub open spec fn block_highlight_spec(b: BlockSpec) -> Seq<ByteHighlight> {
    let caps = rust_captures_of(b.code);
    if registered_language(b.language) && captures_fit(b.start, caps) {
        shifted_highlights(b.start, caps)
    } else {
        seq![]
    }
}

/// The highlights of all blocks, in order.
pub open spec fn blocks_highlights(bs: Seq<BlockSpec>) -> Seq<ByteHighlight>
    decreases bs.len(),
{
    if bs.len() == 0 {
        seq![]
    } else {
        blocks_highlights(bs.drop_last()) + block_highlight_spec(bs.last())
    }
}

/// Highlights one code block: a block tagged with a registered language is
/// parsed, the others are left plain.
pub fn block_highlights(block: &CodeBlock) -> (r: Vec<ByteHighlight>)
    ensures
        r@ == block_highlight_spec(block.spec_view()),
{
    let lang = "rust".to_owned();
    if !(block.language == lang) {
        return Vec::new();
    }
    let caps = rust_captures(block.code.as_str());
    let ghost cv = capture_views(caps@);
    let mut i: usize = 0;
    while i < caps.len()
        invariant
            i <= caps@.len(),
            cv == capture_views(caps@),
            cv == rust_captures_of(block.code@),
            block.language@ == "rust"@,
            forall|k: int|
                0 <= k < i ==> (#[trigger] cv[k]).0 + block.start <= usize::MAX && cv[k].1
                    + block.start <= usize::MAX,
        decreases caps@.len() - i,
    {
        if caps[i].start_byte > usize::MAX - block.start || caps[i].end_byte > usize::MAX
            - block.start {
            proof {
                assert(cv[i as int] == (caps@[i as int].start_byte, caps@[i as int].end_byte, caps@[i as int].name@));
                assert(!captures_fit(block.start as int, cv));
            }
            return Vec::new();
        }
        i = i + 1;
    }
    highlights_from_captures(block.start, &caps)
}

/// Highlights a document given as lines: the code blocks found by their
/// fences, each as `block_highlights` does.
pub fn highlight_buffer(lines: &Vec<Vec<char>>) -> (r: Vec<ByteHighlight>)
    requires
        lines_bytes(line_views(lines@)) <= usize::MAX,
    ensures
        r@ == blocks_highlights(scan_lines(line_views(lines@)).blocks),
{
    let blocks = extract_code_blocks(lines);
    let ghost bs = scan_lines(line_views(lines@)).blocks;
    let mut r: Vec<ByteHighlight> = Vec::new();
    let mut j: usize = 0;
    while j < blocks.len()
        invariant
            j <= blocks@.len(),
            blocks@.map_values(|b: CodeBlock| b.spec_view()) == bs,
            r@ == blocks_highlights(bs.subrange(0, j as int)),
        decreases blocks@.len() - j,
    {
        let h = block_highlights(&blocks[j]);
        proof {
            let next = bs.subrange(0, j + 1);
            assert(next.drop_last() =~= bs.subrange(0, j as int));
            assert(next.last() == blocks@[j as int].spec_view());
        }
        let ghost before = r@;
        let mut k: usize = 0;
        while k < h.len()
            invariant
                k <= h@.len(),
                r@ == before + h@.subrange(0, k as int),
            decreases h@.len() - k,
        {
            r.push(h[k]);
            k = k + 1;
            assert(r@ =~= before + h@.subrange(0, k as int));
        }
        assert(h@.subrange(0, h@.len() as int) =~= h@);
        j = j + 1;
    }
    assert(bs.subrange(0, blocks@.len() as int) =~= bs);
    r
}

/// Whether the bytes of the lines, each with a line feed, fit in `usize`.
pub fn lines_fit(lines: &Vec<Vec<char>>) -> (r: bool)
    ensures
        r == (lines_bytes(line_views(lines@)) <= usize::MAX),
{
    let ghost ls = line_views(lines@);
    let mut total: usize = 0;
    let mut i: usize = 0;
    while i < lines.len()
        invariant
            i <= lines@.len(),
            ls == line_views(lines@),
            total == lines_bytes(ls.subrange(0, i as int)),
        decreases lines@.len() - i,
    {
        let line = &lines[i];
        proof {
            assert(ls[i as int] == line@);
        }
        let mut n: usize = 0;
        let mut k: usize = 0;
        while k < line.len()
            invariant
                k <= line@.len(),
                i < lines@.len(),
                ls == line_views(lines@),
                line@ == ls[i as int],
                n == byte_len(line@.subrange(0, k as int)),
                total == lines_bytes(ls.subrange(0, i as int)),
            decreases line@.len() - k,
        {
            proof {
                lemma_byte_len_prefix(line@, k as int);
            }
            let w = char_utf8_len(line[k]);
            if n > usize::MAX - w {
                proof {
                    lemma_byte_len_mono(line@, k + 1);
                    lemma_lines_bytes_step(ls, i as int);
                    lemma_lines_bytes_mono(ls, i + 1);
                    lemma_lines_bytes_nonneg(ls.subrange(0, i as int));
                }
                return false;
            }
            n = n + w;
            k = k + 1;
        }
        proof {
            assert(line@.subrange(0, line@.len() as int) =~= line@);
            assert(ls[i as int] == line@);
            lemma_lines_bytes_step(ls, i as int);
            lemma_lines_bytes_mono(ls, i + 1);
        }
        if total > usize::MAX - n || total + n == usize::MAX {
            proof {
                assert(ls.subrange(0, i + 1) =~= ls.subrange(0, i + 1));
            }
            return false;
        }
        total = total + n + 1;
        i = i + 1;
    }
    assert(ls.subrange(0, lines@.len() as int) =~= ls);
    true
}

proof fn lemma_lines_bytes_step(ls: Seq<Seq<char>>, i: int)
    requires
        0 <= i < ls.len(),
    ensures
        lines_bytes(ls.subrange(0, i + 1)) == lines_bytes(ls.subrange(0, i)) + byte_len(ls[i]) + 1,
{
    assert(ls.subrange(0, i + 1).drop_last() =~= ls.subrange(0, i));
}

/// A fenced code block: its language, its byte range in the document, and
/// its lines joined by line feeds.
#[derive(Debug, Clone)]
pub struct CodeBlock {
    pub language: String,
    pub start: usize,
    pub end: usize,
    pub code: String,
}

/// The view of a code block.
pub struct BlockSpec {
    pub language: Seq<char>,
    pub start: int,
    pub end: int,
    pub code: Seq<char>,
}

impl CodeBlock {
    pub open spec fn spec_view(&self) -> BlockSpec {
        BlockSpec {
            language: self.language@,
            start: self.start as int,
            end: self.end as int,
            code: self.code@,
        }
    }
}

/// Whether a line opens or closes a fence.
pub open spec fn is_fence(line: Seq<char>) -> bool {
    line.len() >= 3 && line[0] == '`' && line[1] == '`' && line[2] == '`'
}

/// Lines joined by line feeds.
pub open spec fn join_lines(lines: Seq<Seq<char>>) -> Seq<char>
    decreases lines.len(),
{
    if lines.len() == 0 {
        seq![]
    } else if lines.len() == 1 {
        lines[0]
    } else {
        join_lines(lines.drop_last()) + seq!['\n'] + lines.last()
    }
}

/// Bytes of lines, each with its line feed.
pub open spec fn lines_bytes(lines: Seq<Seq<char>>) -> int
    decreases lines.len(),
{
    if lines.len() == 0 {
        0
    } else {
        lines_bytes(lines.drop_last()) + byte_len(lines.last()) + 1
    }
}

/// Where the scan of the lines stands.
pub struct ScanState {
    pub blocks: Seq<BlockSpec>,
    pub in_block: bool,
    pub lang: Seq<char>,
    pub start: int,
    pub code: Seq<Seq<char>>,
}

/// The scan of the lines so far: fences open and close blocks; lines
/// between them are the block's code.
pub open spec fn scan_lines(lines: Seq<Seq<char>>) -> ScanState
    decreases lines.len(),
{
    if lines.len() == 0 {
        ScanState { blocks: seq![], in_block: false, lang: seq![], start: 0, code: seq![] }
    } else {
        let prev = lines.drop_last();
        let st = scan_lines(prev);
        let line = lines.last();
        let offset = lines_bytes(prev);
        if is_fence(line) {
            if !st.in_block {
                ScanState {
                    blocks: st.blocks,
                    in_block: true,
                    lang: match regex_group1(FENCE_PATTERN@, line) {
                        Some(l) => l,
                        None => seq![],
                    },
                    start: offset + byte_len(line) + 1,
                    code: seq![],
                }
            } else {
                ScanState {
                    blocks: st.blocks.push(
                        BlockSpec {
                            language: lower_of(st.lang),
                            start: st.start,
                            end: st.start + lines_bytes(st.code),
                            code: join_lines(st.code),
                        },
                    ),
                    in_block: false,
                    lang: seq![],
                    start: st.start,
                    code: st.code,
                }
            }
        } else if st.in_block {
            ScanState { code: st.code.push(line), ..st }
        } else {
            st
        }
    }
}

/// Number of UTF-8 bytes of `c`.
fn char_utf8_len(c: char) -> (r: usize)
    ensures
        r == utf8_width(c),
{
    let v = c as u32;
    if v < 0x80 {
        1
    } else if v < 0x800 {
        2
    } else if v < 0x10000 {
        3
    } else {
        4
    }
}

proof fn lemma_byte_len_prefix(s: Seq<char>, i: int)
    requires
        0 <= i < s.len(),
    ensures
        byte_len(s.subrange(0, i + 1)) == byte_len(s.subrange(0, i)) + utf8_width(s[i]),
{
    assert(s.subrange(0, i + 1).drop_last() =~= s.subrange(0, i));
}

proof fn lemma_byte_len_mono(s: Seq<char>, i: int)
    requires
        0 <= i <= s.len(),
    ensures
        byte_len(s.subrange(0, i)) <= byte_len(s),
    decreases s.len() - i,
{
    if i < s.len() {
        lemma_byte_len_prefix(s, i);
        lemma_byte_len_mono(s, i + 1);
    } else {
        assert(s.subrange(0, i) =~= s);
    }
}

/// Number of UTF-8 bytes of a line.
fn line_byte_len(line: &Vec<char>) -> (r: usize)
    requires
        byte_len(line@) <= usize::MAX,
    ensures
        r == byte_len(line@),
{
    let mut n: usize = 0;
    let mut i: usize = 0;
    while i < line.len()
        invariant
            i <= line@.len(),
            byte_len(line@) <= usize::MAX,
            n == byte_len(line@.subrange(0, i as int)),
        decreases line@.len() - i,
    {
        proof {
            lemma_byte_len_prefix(line@, i as int);
            lemma_byte_len_mono(line@, i + 1);
        }
        n = n + char_utf8_len(line[i]);
        i = i + 1;
    }
    assert(line@.subrange(0, line@.len() as int) =~= line@);
    n
}

/// Whether a line opens or closes a fence.
fn fence_line(line: &Vec<char>) -> (r: bool)
    ensures
        r == is_fence(line@),
{
    line.len() >= 3 && line[0] == '`' && line[1] == '`' && line[2] == '`'
}

proof fn lemma_lines_bytes_nonneg(lines: Seq<Seq<char>>)
    ensures
        lines_bytes(lines) >= 0,
    decreases lines.len(),
{
    if lines.len() > 0 {
        lemma_lines_bytes_nonneg(lines.drop_last());
    }
}

/// The views of a list of lines.
pub open spec fn line_views(lines: Seq<Vec<char>>) -> Seq<Seq<char>> {
    lines.map_values(|l: Vec<char>| l@)
}

proof fn lemma_lines_bytes_mono(lines: Seq<Seq<char>>, i: int)
    requires
        0 <= i <= lines.len(),
    ensures
        lines_bytes(lines.subrange(0, i)) <= lines_bytes(lines),
        byte_len(lines[i - 1]) >= 0,
    decreases lines.len() - i,
{
    if i < lines.len() {
        assert(lines.subrange(0, i + 1).drop_last() =~= lines.subrange(0, i));
        lemma_lines_bytes_mono(lines, i + 1);
    } else {
        assert(lines.subrange(0, i) =~= lines);
    }
}

/// The fenced code blocks of a document given as lines: a line starting
/// with three backticks opens a block (its tag, lower-cased, names the
/// language) and the next such line closes it.
pub fn extract_code_blocks(lines: &Vec<Vec<char>>) -> (r: Vec<CodeBlock>)
    requires
        lines_bytes(line_views(lines@)) <= usize::MAX,
    ensures
        r@.map_values(|b: CodeBlock| b.spec_view()) == scan_lines(line_views(lines@)).blocks,
{
    let ghost ls = line_views(lines@);
    let mut blocks: Vec<CodeBlock> = Vec::new();
    let mut in_code_block = false;
    let mut current_lang: String = String::new();
    let mut code_start: usize = 0;
    let mut code_lines: Vec<Vec<char>> = Vec::new();
    let mut offset: usize = 0;
    let mut i: usize = 0;
    while i < lines.len()
        invariant
            i <= lines@.len(),
            ls == line_views(lines@),
            lines_bytes(ls) <= usize::MAX,
            offset == lines_bytes(ls.subrange(0, i as int)),
            ({
                let st = scan_lines(ls.subrange(0, i as int));
                &&& blocks@.map_values(|b: CodeBlock| b.spec_view()) == st.blocks
                &&& in_code_block == st.in_block
                &&& current_lang@ == st.lang
                &&& in_code_block ==> code_start == st.start
                &&& in_code_block ==> line_views(code_lines@) == st.code
                &&& in_code_block ==> code_start + lines_bytes(st.code) == offset
            }),
        decreases lines@.len() - i,
    {
        let line = &lines[i];
        let ghost prefix = ls.subrange(0, i as int);
        let ghost st = scan_lines(prefix);
        proof {
            let next = ls.subrange(0, i + 1);
            assert(next.drop_last() =~= prefix);
            assert(next.last() == line@);
            lemma_lines_bytes_mono(ls, i + 1);
        }
        let n = line_byte_len(line);
        if fence_line(line) {
            if !in_code_block {
                let text = string_of_chars(line);
                current_lang = match first_group(FENCE_PATTERN, text.as_str()) {
                    Some(l) => l,
                    None => String::new(),
                };
                in_code_block = true;
                code_start = offset + n + 1;
                code_lines = Vec::new();
                proof {
                    assert(line_views(code_lines@) =~= Seq::<Seq<char>>::empty());
                }
            } else {
                proof {
                    lemma_lines_bytes_nonneg(st.code);
                }
                let code_len = offset - code_start;
                let mut joined: Vec<char> = Vec::new();
                let mut k: usize = 0;
                while k < code_lines.len()
                    invariant
                        k <= code_lines@.len(),
                        joined@ == join_lines(line_views(code_lines@).subrange(0, k as int)),
                    decreases code_lines@.len() - k,
                {
                    let ghost cv = line_views(code_lines@);
                    proof {
                        let nx = cv.subrange(0, k + 1);
                        assert(nx.drop_last() =~= cv.subrange(0, k as int));
                        assert(nx.last() == code_lines@[k as int]@);
                    }
                    if k > 0 {
                        joined.push('\n');
                    }
                    let cl = &code_lines[k];
                    let mut j: usize = 0;
                    let ghost base = joined@;
                    while j < cl.len()
                        invariant
                            j <= cl@.len(),
                            joined@ == base + cl@.subrange(0, j as int),
                        decreases cl@.len() - j,
                    {
                        joined.push(cl[j]);
                        j = j + 1;
                        assert(joined@ =~= base + cl@.subrange(0, j as int));
                    }
                    proof {
                        assert(cl@.subrange(0, cl@.len() as int) =~= cl@);
                        if k == 0 {
                            assert(joined@ =~= join_lines(cv.subrange(0, 1)));
                        } else {
                            assert(joined@ =~= join_lines(cv.subrange(0, k + 1)));
                        }
                    }
                    k = k + 1;
                }
                proof {
                    assert(line_views(code_lines@).subrange(0, code_lines@.len() as int)
                        =~= line_views(code_lines@));
                }
                let language = lowercase(current_lang.as_str());
                let code = string_of_chars(&joined);
                let ghost before = blocks@;
                blocks.push(
                    CodeBlock { language, start: code_start, end: code_start + code_len, code },
                );
                proof {
                    assert(blocks@.map_values(|b: CodeBlock| b.spec_view()) =~= before.map_values(
                        |b: CodeBlock| b.spec_view(),
                    ).push(blocks@[blocks@.len() - 1].spec_view()));
                }
                in_code_block = false;
                current_lang = String::new();
            }
        } else if in_code_block {
            let ghost before = code_lines@;
            code_lines.push(line.clone());
            proof {
                assert(line_views(code_lines@) =~= line_views(before).push(line@));
                assert(line_views(code_lines@).drop_last() =~= line_views(before));
            }
        }
        offset = offset + n + 1;
        i = i + 1;
    }
    proof {
        assert(ls.subrange(0, lines@.len() as int) =~= ls);
    }
    blocks
}

} // verus!

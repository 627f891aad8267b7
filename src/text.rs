//! The text store: a `ropey::Rope` whose contents are modelled as a
//! sequence of characters, with lines separated by line feeds.

use ropey::Rope;
use vstd::prelude::*;

verus! {

#[verifier::external_type_specification]
#[verifier::external_body]
pub struct ExRope(Rope);

/// The characters that a rope holds, in order.
pub uninterp spec fn rope_chars(r: Rope) -> Seq<char>;

/// Number of line feeds in `s`.
pub open spec fn nl_count(s: Seq<char>) -> nat
    decreases s.len(),
{
    if s.len() == 0 {
        0
    } else {
        nl_count(s.drop_last()) + if s.last() == '\n' {
            1nat
        } else {
            0nat
        }
    }
}

/// Number of lines of `s`: one more than its line feeds.
pub open spec fn line_count(s: Seq<char>) -> nat {
    nl_count(s) + 1
}

/// The line on which char index `c` lies: the line feeds before it.
pub open spec fn line_of(s: Seq<char>, c: int) -> nat {
    nl_count(s.subrange(0, c))
}

/// Whether `c` is the position just after the `i`-th line feed.
pub open spec fn starts_line(s: Seq<char>, i: int, c: int) -> bool {
    0 < c <= s.len() && s[c - 1] == '\n' && line_of(s, c) == i
}

/// Char index at which line `i` starts; `s.len()` from `line_count(s)` on.
pub open spec fn line_start(s: Seq<char>, i: int) -> int {
    if i <= 0 {
        0
    } else if i >= line_count(s) {
        s.len() as int
    } else {
        choose|c: int| starts_line(s, i, c)
    }
}

/// Length of line `i`, its line feed included.
pub open spec fn line_len(s: Seq<char>, i: int) -> int {
    line_start(s, i + 1) - line_start(s, i)
}

/// Length of line `i` without its line feed (the last line has none).
pub open spec fn content_len(s: Seq<char>, i: int) -> int {
    if i + 1 < line_count(s) {
        line_len(s, i) - 1
    } else {
        line_len(s, i)
    }
}

/// Sum of the lengths of lines `0..n`.
pub open spec fn sum_line_lens(s: Seq<char>, n: int) -> int
    decreases n,
{
    if n <= 0 {
        0
    } else {
        sum_line_lens(s, n - 1) + line_len(s, n - 1)
    }
}

/// Number of UTF-8 bytes that encode `c`.
pub open spec fn utf8_width(c: char) -> nat {
    let v = c as u32;
    if v < 0x80 {
        1
    } else if v < 0x800 {
        2
    } else if v < 0x10000 {
        3
    } else {
        4
    }
}

/// Number of UTF-8 bytes that encode `s`.
pub open spec fn byte_len(s: Seq<char>) -> nat
    decreases s.len(),
{
    if s.len() == 0 {
        0
    } else {
        byte_len(s.drop_last()) + utf8_width(s.last())
    }
}

/// The number of chars of `s` whose encoding ends at or before byte `b`:
/// the index of the char that holds byte `b`.
pub open spec fn chars_within(s: Seq<char>, b: int) -> nat
    decreases s.len(),
{
    if s.len() == 0 {
        0
    } else if byte_len(s) <= b {
        s.len()
    } else {
        chars_within(s.drop_last(), b)
    }
}

// ---- lemmas on lines ----
proof fn lemma_nl_count_step(s: Seq<char>, c: int)
    requires
        0 <= c < s.len(),
    ensures
        line_of(s, c + 1) == line_of(s, c) + if s[c] == '\n' {
            1nat
        } else {
            0nat
        },
{
    assert(s.subrange(0, c + 1).drop_last() =~= s.subrange(0, c));
}

pub proof fn lemma_line_of_mono(s: Seq<char>, a: int, b: int)
    requires
        0 <= a <= b <= s.len(),
    ensures
        line_of(s, a) <= line_of(s, b),
        line_of(s, b) <= line_of(s, a) + (b - a),
    decreases b - a,
{
    if a < b {
        lemma_line_of_mono(s, a, b - 1);
        lemma_nl_count_step(s, b - 1);
    }
}

pub proof fn lemma_line_of_full(s: Seq<char>)
    ensures
        line_of(s, s.len() as int) == nl_count(s),
{
    assert(s.subrange(0, s.len() as int) =~= s);
}

proof fn lemma_starts_line_exists(s: Seq<char>, i: int)
    requires
        0 < i <= nl_count(s),
    ensures
        exists|c: int| starts_line(s, i, c),
    decreases s.len(),
{
    let p = s.drop_last();
    lemma_line_of_full(s);
    if i <= nl_count(p) {
        lemma_starts_line_exists(p, i);
        let c = choose|c: int| starts_line(p, i, c);
        assert(s.subrange(0, c) =~= p.subrange(0, c));
        assert(starts_line(s, i, c));
    } else {
        let n = s.len() as int;
        assert(s[n - 1] == '\n');
        assert(starts_line(s, i, n));
    }
}

/// Facts about where line `i` starts.
pub proof fn lemma_line_start(s: Seq<char>, i: int)
    requires
        0 <= i <= line_count(s),
    ensures
        0 <= line_start(s, i) <= s.len(),
        i < line_count(s) ==> line_of(s, line_start(s, i)) == i,
        0 < i < line_count(s) ==> s[line_start(s, i) - 1] == '\n',
        i == line_count(s) ==> line_start(s, i) == s.len(),
{
    if 0 < i < line_count(s) {
        lemma_starts_line_exists(s, i);
    }
    if i == 0 {
        assert(s.subrange(0, 0) =~= Seq::<char>::empty());
    }
}

/// Lines start in increasing order, and each one but the last ends with a
/// line feed.
pub proof fn lemma_line_order(s: Seq<char>, i: int)
    requires
        0 <= i < line_count(s),
    ensures
        line_start(s, i) <= line_start(s, i + 1),
        i + 1 < line_count(s) ==> line_start(s, i) < line_start(s, i + 1),
        0 <= content_len(s, i) <= line_len(s, i),
        line_start(s, i) + content_len(s, i) <= s.len(),
        forall|c: int|
            line_start(s, i) <= c <= line_start(s, i) + content_len(s, i) ==> #[trigger] line_of(
                s,
                c,
            ) == i,
{
    lemma_line_start(s, i);
    lemma_line_start(s, i + 1);
    let a = line_start(s, i);
    let b = line_start(s, i + 1);
    lemma_line_of_full(s);
    if i + 1 < line_count(s) {
        // b - 1 is the line feed that ends line i
        lemma_nl_count_step(s, b - 1);
        if b - 1 < a {
            lemma_line_of_mono(s, b, a);
        }
        assert(a <= b - 1);
        assert forall|c: int| a <= c <= b - 1 implies #[trigger] line_of(s, c) == i by {
            lemma_line_of_mono(s, a, c);
            lemma_line_of_mono(s, c, b - 1);
        }
    } else {
        assert(b == s.len());
        lemma_line_of_mono(s, a, b);
        assert forall|c: int| a <= c <= b implies #[trigger] line_of(s, c) == i by {
            lemma_line_of_mono(s, a, c);
            lemma_line_of_mono(s, c, b);
        }
    }
}

/// The line of char index `c` starts at or before `c`, and `c` lies within
/// its content or on its line feed.
pub proof fn lemma_char_in_its_line(s: Seq<char>, c: int)
    requires
        0 <= c <= s.len(),
    ensures
        line_of(s, c) < line_count(s),
        line_start(s, line_of(s, c) as int) <= c,
        c < line_start(s, line_of(s, c) + 1int) || c == s.len(),
        c - line_start(s, line_of(s, c) as int) <= content_len(s, line_of(s, c) as int),
{
    let k = line_of(s, c) as int;
    lemma_line_of_mono(s, c, s.len() as int);
    lemma_line_of_full(s);
    lemma_line_start(s, k);
    lemma_line_start(s, k + 1);
    lemma_line_order(s, k);
    let a = line_start(s, k);
    let b = line_start(s, k + 1);
    if c < a {
        lemma_line_of_mono(s, c, a);
        // line_of(s, a) == k and c < a with line_of(s, c) == k: a - 1 holds a line feed
        if k > 0 {
            lemma_nl_count_step(s, a - 1);
            lemma_line_of_mono(s, c, a - 1);
        }
        assert(false);
    }
    if k + 1 < line_count(s) && c >= b {
        lemma_line_start(s, k + 1);
        lemma_line_of_mono(s, b, c);
        assert(false);
    }
}

/// The line lengths add up to the length of the text.
pub proof fn lemma_sum_line_lens(s: Seq<char>, n: int)
    requires
        0 <= n <= line_count(s),
    ensures
        sum_line_lens(s, n) == line_start(s, n),
    decreases n,
{
    if n > 0 {
        lemma_sum_line_lens(s, n - 1);
    }
}

// ---- ropey operations, with the contracts their documentation gives ----
/// Relies on `Rope::new`: a new rope holds no text.
#[verifier::external_body]
pub(crate) fn rope_new() -> (r: Rope)
    ensures
        rope_chars(r) == Seq::<char>::empty(),
{
    Rope::new()
}

/// Relies on `Rope::from_str`: the rope holds the characters of `text`.
#[verifier::external_body]
pub(crate) fn rope_from_str(text: &str) -> (r: Rope)
    ensures
        rope_chars(r) == text@,
{
    Rope::from_str(text)
}

/// Relies on `Rope::len_chars`: the number of characters.
#[verifier::external_body]
pub(crate) fn rope_len_chars(r: &Rope) -> (n: usize)
    ensures
        n == rope_chars(*r).len(),
{
    r.len_chars()
}

/// Relies on `Rope::len_bytes`: the length of the UTF-8 encoding.
#[verifier::external_body]
pub(crate) fn rope_len_bytes(r: &Rope) -> (n: usize)
    ensures
        n == byte_len(rope_chars(*r)),
{
    r.len_bytes()
}

/// Relies on `Rope::len_lines`: one more than the number of line breaks;
/// without the crate's `cr_lines` and `unicode_lines` features only a line
/// feed breaks a line.
#[verifier::external_body]
pub(crate) fn rope_len_lines(r: &Rope) -> (n: usize)
    ensures
        n == line_count(rope_chars(*r)),
{
    r.len_lines()
}

/// Relies on `Rope::line_to_char`: the char index at which a line starts,
/// one past the end for `len_lines()`; it panics beyond that.
#[verifier::external_body]
pub(crate) fn rope_line_to_char(r: &Rope, line_idx: usize) -> (n: usize)
    requires
        line_idx <= line_count(rope_chars(*r)),
    ensures
        n == line_start(rope_chars(*r), line_idx as int),
{
    r.line_to_char(line_idx)
}

/// Relies on `Rope::char_to_line`: the number of line feeds before a char
/// index; it panics past `len_chars()`.
#[verifier::external_body]
pub(crate) fn rope_char_to_line(r: &Rope, char_idx: usize) -> (n: usize)
    requires
        char_idx <= rope_chars(*r).len(),
    ensures
        n == line_of(rope_chars(*r), char_idx as int),
{
    r.char_to_line(char_idx)
}

/// Relies on `Rope::byte_to_char`: the index of the char that holds a byte
/// (one past the end for `len_bytes()`); it panics past `len_bytes()`.
#[verifier::external_body]
pub(crate) fn rope_byte_to_char(r: &Rope, byte_idx: usize) -> (n: usize)
    requires
        byte_idx <= byte_len(rope_chars(*r)),
    ensures
        n == chars_within(rope_chars(*r), byte_idx as int),
{
    r.byte_to_char(byte_idx)
}

/// Relies on `Rope::insert_char`: `ch` is inserted at `char_idx`; it panics
/// past `len_chars()`.
#[verifier::external_body]
pub(crate) fn rope_insert_char(r: &mut Rope, char_idx: usize, ch: char)
    requires
        char_idx <= rope_chars(*old(r)).len(),
    ensures
        rope_chars(*final(r)) == rope_chars(*old(r)).insert(char_idx as int, ch),
{
    r.insert_char(char_idx, ch)
}

/// Relies on `Rope::insert`: `text` is inserted at `char_idx`; it panics
/// past `len_chars()`.
#[verifier::external_body]
pub(crate) fn rope_insert(r: &mut Rope, char_idx: usize, text: &str)
    requires
        char_idx <= rope_chars(*old(r)).len(),
    ensures
        rope_chars(*final(r)) == rope_chars(*old(r)).subrange(0, char_idx as int) + text@
            + rope_chars(*old(r)).subrange(char_idx as int, rope_chars(*old(r)).len() as int),
{
    r.insert(char_idx, text)
}

/// Relies on `Rope::remove`: the chars of `start..end` are taken out; it
/// panics if `start > end` or `end > len_chars()`.
#[verifier::external_body]
pub(crate) fn rope_remove(r: &mut Rope, start: usize, end: usize)
    requires
        start <= end <= rope_chars(*old(r)).len(),
    ensures
        rope_chars(*final(r)) == rope_chars(*old(r)).subrange(0, start as int) + rope_chars(
            *old(r),
        ).subrange(end as int, rope_chars(*old(r)).len() as int),
{
    r.remove(start..end)
}

/// Relies on `String::from(&Rope)`: the rope's text as a string.
#[verifier::external_body]
pub(crate) fn rope_to_string(r: &Rope) -> (s: String)
    ensures
        s@ == rope_chars(*r),
{
    String::from(r)
}

/// Relies on `Rope::slice` and `RopeSlice::chars`: the chars of
/// `start..end`, collected; it panics if `start > end` or
/// `end > len_chars()`.
#[verifier::external_body]
pub(crate) fn rope_slice_chars(r: &Rope, start: usize, end: usize) -> (v: Vec<char>)
    requires
        start <= end <= rope_chars(*r).len(),
    ensures
        v@ == rope_chars(*r).subrange(start as int, end as int),
{
    r.slice(start..end).chars().collect()
}

/// Relies on collecting chars into a `String`: the same characters.
#[verifier::external_body]
pub(crate) fn string_of_chars(v: &Vec<char>) -> (r: String)
    ensures
        r@ == v@,
{
    v.iter().collect()
}


/// Relies on `str::chars`: the characters of `s`, collected.
#[verifier::external_body]
pub(crate) fn chars_of(s: &str) -> (v: Vec<char>)
    ensures
        v@ == s@,
{
    s.chars().collect()
}

} // verus!

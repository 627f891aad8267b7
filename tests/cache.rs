use rusty_editor::syntax::{style_of_char, Highlight, Style, SyntaxCache};

fn ten_lines() -> SyntaxCache {
    let mut c = SyntaxCache::new();
    for line in 0..10 {
        c.cache_line_styles(line, vec![Style::Keyword, Style::Number]);
    }
    c
}

#[test]
fn invalidating_one_line_keeps_the_others() {
    let mut c = ten_lines();
    c.mark_line_dirty(3);
    for line in (0..3).chain(4..10) {
        assert!(c.is_line_cached(line));
        assert_eq!(c.get_cached_style(line, 1), Some(Style::Number));
    }
    assert!(!c.is_line_cached(3));
    assert_eq!(c.get_cached_style(3, 0), None);
    c.cache_line_styles(3, vec![Style::Comment]);
    assert_eq!(c.get_cached_style(3, 0), Some(Style::Comment));
    assert_eq!(c.get_cached_style(3, 1), None);
}

#[test]
fn invalidating_twice_is_as_once() {
    let mut a = ten_lines();
    let mut b = ten_lines();
    a.mark_line_dirty(4);
    b.mark_line_dirty(4);
    b.mark_line_dirty(4);
    for line in 0..10 {
        for col in 0..3 {
            assert_eq!(a.get_cached_style(line, col), b.get_cached_style(line, col));
        }
    }
    b.cache_line_styles(4, vec![Style::Type]);
    b.cache_line_styles(4, vec![Style::Type]);
    a.cache_line_styles(4, vec![Style::Type]);
    for line in 0..10 {
        for col in 0..3 {
            assert_eq!(a.get_cached_style(line, col), b.get_cached_style(line, col));
        }
    }
}

#[test]
fn range_and_full_invalidation() {
    let mut c = ten_lines();
    c.mark_range_dirty(2, 5);
    for line in 0..10 {
        assert_eq!(c.is_line_cached(line), !(2..=5).contains(&line));
    }
    c.mark_range_dirty(7, 6);
    assert!(c.is_line_cached(7));
    c.mark_all_dirty();
    for line in 0..10 {
        assert!(!c.is_line_cached(line));
        assert_eq!(c.get_cached_style(line, 0), None);
    }
}

#[test]
fn first_covering_highlight_wins() {
    let h = vec![
        Highlight { start: 2, end: 5, style: Style::String },
        Highlight { start: 0, end: 10, style: Style::Comment },
    ];
    assert_eq!(style_of_char(&h, 3), Style::String);
    assert_eq!(style_of_char(&h, 1), Style::Comment);
    assert_eq!(style_of_char(&h, 5), Style::Comment);
    assert_eq!(style_of_char(&h, 10), Style::Normal);
}

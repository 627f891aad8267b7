use rusty_editor::chat::History;
use rusty_editor::editor::Editor;
use rusty_editor::highlight::{
    capture_style, extract_code_blocks, highlight_buffer, highlights_from_captures, ByteHighlight, Capture,
};
use rusty_editor::syntax::{Highlight, Style};

fn lines(text: &str) -> Vec<Vec<char>> {
    text.split('\n').map(|l| l.chars().collect()).collect()
}

#[test]
fn capture_names_map_to_styles() {
    assert_eq!(capture_style("keyword"), Style::Keyword);
    assert_eq!(capture_style("function.macro"), Style::Function);
    assert_eq!(capture_style("variable.builtin"), Style::Variable);
    assert_eq!(capture_style("punctuation"), Style::Normal);
}

#[test]
fn fenced_blocks_are_found_with_byte_offsets() {
    let text = "intro\n```Rust\nfn main() {}\nlet x = 1;\n```\nafter\n```\nplain\n```";
    let blocks = extract_code_blocks(&lines(text));
    assert_eq!(blocks.len(), 2);
    assert_eq!(blocks[0].language, "rust");
    assert_eq!(blocks[0].start, 14);
    assert_eq!(blocks[0].code, "fn main() {}\nlet x = 1;");
    assert_eq!(blocks[0].end, 14 + 13 + 11);
    assert_eq!(&text[blocks[0].start..blocks[0].end - 1], "fn main() {}\nlet x = 1;");
    assert_eq!(blocks[1].language, "");
    assert_eq!(blocks[1].code, "plain");
}

#[test]
fn unclosed_fence_gives_no_block() {
    let blocks = extract_code_blocks(&lines("```rust\nfn x() {}"));
    assert!(blocks.is_empty());
}

#[test]
fn captures_are_styled_and_shifted() {
    let caps = vec![
        Capture { start_byte: 0, end_byte: 2, name: "keyword".to_string() },
        Capture { start_byte: 3, end_byte: 3, name: "function".to_string() },
        Capture { start_byte: 3, end_byte: 7, name: "function".to_string() },
    ];
    let h = highlights_from_captures(14, &caps);
    assert_eq!(
        h,
        vec![
            ByteHighlight { start: 14, end: 16, style: Style::Keyword },
            ByteHighlight { start: 17, end: 21, style: Style::Function },
        ]
    );
}

#[test]
fn byte_ranges_become_char_ranges() {
    let mut e = Editor::new(History { root: ".rusty".to_string(), file_path: "f.md".to_string() });
    e.load_content("é fn", "f.md".to_string());
    let h = e.convert_highlights_to_char_ranges(&vec![
        ByteHighlight { start: 3, end: 5, style: Style::Keyword },
        ByteHighlight { start: 1, end: 2, style: Style::Comment },
        ByteHighlight { start: 4, end: 99, style: Style::Type },
    ]);
    assert_eq!(
        h,
        vec![
            Highlight { start: 2, end: 4, style: Style::Keyword },
            Highlight { start: 0, end: 1, style: Style::Comment },
        ]
    );
}

#[test]
fn only_registered_fences_are_parsed() {
    let rust = highlight_buffer(&lines("```rust\nfn main() {}\n```"));
    assert!(!rust.is_empty());
    // "fn" sits right after the fence line
    assert!(rust.iter().any(|h| h.start == 8 && h.end == 10 && h.style == Style::Keyword));
    let other = highlight_buffer(&lines("```python\ndef f(): pass\n```"));
    assert!(other.is_empty());
    let plain = highlight_buffer(&lines("fn main() {}"));
    assert!(plain.is_empty());
}

#[test]
fn editor_refresh_styles_fenced_code() {
    let mut e = Editor::new(History { root: ".rusty".to_string(), file_path: "f.md".to_string() });
    e.load_content("text\n```rust\nfn x() {}\n```", "f.md".to_string());
    assert!(e.highlights_stale());
    e.refresh_highlights();
    assert!(!e.highlights_stale());
    // "fn" starts at char 13
    assert_eq!(e.get_style_at(13), Style::Keyword);
    assert_eq!(e.get_style_at(0), Style::Normal);
}

use codetext::{
    advance, captures_within, compute_spans, dedup_captures, describe_edit, resolve, style_table, translate,
    Capture, Category, CodeText, EditError, Position, PositionError, Span, Style,
};

fn pos(row: usize, column: usize) -> Position {
    Position { row, column }
}

fn cap(node: usize, start: usize, end: usize, index: u32) -> Capture {
    Capture { node, start, end, index }
}

const NUMBER: Style = Style::Color { r: 0xc6, g: 0x78, b: 0xdd };
const KEYWORD: Style = Style::Color { r: 0xe0, g: 0x6c, b: 0x75 };

#[test]
fn translate_offset_zero_is_origin() {
    for text in ["a", "\n", "x = 1\ny = 2", "héllo"] {
        assert_eq!(translate(text.as_bytes(), 0), Ok(pos(0, 0)));
    }
}

#[test]
fn translate_counts_lines_and_columns() {
    let b = "ab\ncd\n\nef".as_bytes();
    assert_eq!(translate(b, 2), Ok(pos(0, 2)));
    assert_eq!(translate(b, 3), Ok(pos(1, 0)));
    assert_eq!(translate(b, 5), Ok(pos(1, 2)));
    assert_eq!(translate(b, 7), Ok(pos(3, 0)));
    assert_eq!(translate(b, 9), Ok(pos(3, 2)));
}

#[test]
fn translate_past_end_is_out_of_range() {
    assert_eq!(translate("abc".as_bytes(), 4), Err(PositionError::OutOfRange));
    assert_eq!(translate("".as_bytes(), 1), Err(PositionError::OutOfRange));
    assert_eq!(translate("".as_bytes(), 0), Ok(pos(0, 0)));
}

#[test]
fn advance_continues_from_start() {
    let b = "x\nyz".as_bytes();
    assert_eq!(advance(pos(4, 7), b, 0, 4), pos(5, 2));
    assert_eq!(advance(pos(4, 7), b, 2, 4), pos(4, 9));
}

#[test]
fn describe_edit_positions() {
    let d = describe_edit("ab\ncd".as_bytes(), 1, 4, "x\ny".as_bytes());
    assert_eq!(d.start_byte, 1);
    assert_eq!(d.old_end_byte, 4);
    assert_eq!(d.new_end_byte, 4);
    assert_eq!(d.start_position, pos(0, 1));
    assert_eq!(d.old_end_position, pos(1, 1));
    assert_eq!(d.new_end_position, pos(1, 1));
    let d = describe_edit("a\nb".as_bytes(), 2, 2, "c".as_bytes());
    assert_eq!(d.start_position, pos(1, 0));
    assert_eq!(d.old_end_position, pos(1, 0));
    assert_eq!(d.new_end_position, pos(1, 1));
    assert_eq!(d.new_end_byte, 3);
}

#[test]
fn edit_insert_then_translate() {
    let mut t = CodeText::new("a\nb".to_string()).unwrap();
    assert_eq!(t.edit(2..2, "c"), Ok(()));
    assert_eq!(t.as_str(), "a\ncb");
    assert_eq!(translate(t.as_str().as_bytes(), 3), Ok(pos(1, 1)));
    let mut t = CodeText::new("a\nb".to_string()).unwrap();
    assert_eq!(t.edit(3..3, "c"), Ok(()));
    assert_eq!(t.as_str(), "a\nbc");
    assert_eq!(translate(t.as_str().as_bytes(), 3), Ok(pos(1, 1)));
}

#[test]
fn edit_reversed_range_is_rejected() {
    let mut t = CodeText::new("a\nb".to_string()).unwrap();
    let before = t.spans();
    assert_eq!(t.edit(2..1, "z"), Err(EditError::InvalidRange));
    assert_eq!(t.as_str(), "a\nb");
    assert_eq!(t.spans(), before);
}

#[test]
fn edit_past_end_or_inside_char_is_rejected() {
    let mut t = CodeText::new("é = 1".to_string()).unwrap();
    assert_eq!(t.edit(0..8, ""), Err(EditError::InvalidRange));
    assert_eq!(t.edit(1..2, ""), Err(EditError::InvalidRange));
    assert_eq!(t.as_str(), "é = 1");
    assert_eq!(t.edit(0..2, "e"), Ok(()));
    assert_eq!(t.as_str(), "e = 1");
}

#[test]
fn edit_is_a_splice() {
    let mut t = CodeText::new("x = 1\ny = 2\n".to_string()).unwrap();
    assert_eq!(t.edit(4..5, "42"), Ok(()));
    assert_eq!(t.as_str(), "x = 42\ny = 2\n");
    assert_eq!(t.edit(0..7, ""), Ok(()));
    assert_eq!(t.as_str(), "y = 2\n");
    assert_eq!(t.edit(6..6, "z = 3"), Ok(()));
    assert_eq!(t.as_str(), "y = 2\nz = 3");
    assert_eq!(t.len(), 11);
    assert!(!t.is_empty());
    assert_eq!(t.edit(0..11, ""), Ok(()));
    assert!(t.is_empty());
    assert!(t.spans().is_empty());
}

#[test]
fn number_is_highlighted() {
    let t = CodeText::new("x = 1".to_string()).unwrap();
    let spans = t.spans();
    assert!(spans.iter().any(|s| s.start == 4 && s.end == 5 && s.style == NUMBER));
}

#[test]
fn spans_follow_edits() {
    let mut t = CodeText::new("x = 1".to_string()).unwrap();
    assert_eq!(t.edit(4..5, "def"), Ok(()));
    assert!(!t.spans().iter().any(|s| s.style == NUMBER));
    assert_eq!(t.edit(4..7, "123"), Ok(()));
    assert!(t.spans().iter().any(|s| s.start == 4 && s.end == 7 && s.style == NUMBER));
}

#[test]
fn spans_twice_are_equal() {
    let t = CodeText::new("def f(a):\n    return a + 1\n".to_string()).unwrap();
    assert_eq!(t.spans(), t.spans());
}

#[test]
fn spans_one_per_node_and_sorted() {
    let t = CodeText::new("def f(a):\n    return a + 1  # c\nclass C:\n    pass\n".to_string())
        .unwrap();
    let spans = t.spans();
    assert!(!spans.is_empty());
    for i in 0..spans.len() {
        for j in 0..spans.len() {
            if i != j {
                assert_ne!(spans[i].node, spans[j].node);
            }
        }
        if i > 0 {
            assert!(spans[i - 1].start <= spans[i].start);
        }
    }
    assert!(spans.iter().any(|s| s.start == 0 && s.end == 3 && s.style == KEYWORD));
}

#[test]
fn dedup_keeps_first_capture_of_a_node() {
    let raw = vec![cap(7, 0, 3, 1), cap(7, 0, 3, 0), cap(9, 4, 5, 2), cap(7, 0, 3, 2)];
    assert_eq!(dedup_captures(&raw), vec![cap(7, 0, 3, 1), cap(9, 4, 5, 2)]);
    let styles = vec![Style::Underline, KEYWORD, NUMBER];
    let spans = compute_spans(&raw, &styles);
    assert_eq!(
        spans,
        vec![
            Span { node: 7, start: 0, end: 3, style: KEYWORD },
            Span { node: 9, start: 4, end: 5, style: NUMBER },
        ]
    );
}

#[test]
fn dedup_uses_identity_not_range() {
    let raw = vec![cap(1, 0, 3, 0), cap(2, 0, 3, 1), cap(1, 0, 3, 1)];
    assert_eq!(dedup_captures(&raw), vec![cap(1, 0, 3, 0), cap(2, 0, 3, 1)]);
    assert!(dedup_captures(&[]).is_empty());
}

#[test]
fn compute_spans_sorts_stably_by_start() {
    let raw = vec![cap(1, 5, 6, 0), cap(2, 0, 1, 0), cap(3, 5, 9, 1), cap(4, 2, 3, 5)];
    let styles = vec![NUMBER, KEYWORD];
    let spans = compute_spans(&raw, &styles);
    assert_eq!(
        spans,
        vec![
            Span { node: 2, start: 0, end: 1, style: NUMBER },
            Span { node: 4, start: 2, end: 3, style: Style::Underline },
            Span { node: 1, start: 5, end: 6, style: NUMBER },
            Span { node: 3, start: 5, end: 9, style: KEYWORD },
        ]
    );
}

#[test]
fn resolve_known_and_unknown_categories() {
    assert_eq!(resolve("number"), NUMBER);
    assert_eq!(resolve("keyword"), KEYWORD);
    assert_eq!(resolve("function"), Style::Color { r: 0x98, g: 0xc3, b: 0x79 });
    assert_eq!(resolve("function.builtin"), Style::Color { r: 0x98, g: 0xc3, b: 0x79 });
    assert_eq!(resolve("string"), Style::Color { r: 0xe5, g: 0xc0, b: 0x7b });
    assert_eq!(resolve("comment"), Style::Color { r: 0x67, g: 0x6f, b: 0x7d });
    assert_eq!(resolve("property"), Style::Color { r: 0xab, g: 0xb2, b: 0xbf });
    assert_eq!(resolve("constant.builtin"), Style::Color { r: 0x56, g: 0xb6, b: 0xc2 });
    assert_eq!(resolve("numbers"), Style::Underline);
    assert_eq!(resolve(""), Style::Underline);
    assert_eq!(Category::from_name("punctuation.special"), Category::PunctuationSpecial);
    assert_eq!(Category::from_name("attribute"), Category::Other);
}

#[test]
fn style_table_follows_names() {
    let names = vec!["keyword".to_string(), "nope".to_string(), "number".to_string()];
    assert_eq!(style_table(&names), vec![KEYWORD, Style::Underline, NUMBER]);
}

#[test]
fn captures_within_keeps_ranges_inside_the_text() {
    let raw = vec![cap(1, 0, 2, 0), cap(2, 1, 2, 0), cap(3, 2, 5, 0), cap(4, 3, 2, 0), cap(5, 2, 4, 0)];
    assert_eq!(captures_within(&raw, "éab"), vec![cap(1, 0, 2, 0), cap(5, 2, 4, 0)]);
    assert!(captures_within(&raw, "").is_empty());
}

#[test]
fn comment_and_string_are_highlighted() {
    let t = CodeText::new("s = 'ab'  # note\n".to_string()).unwrap();
    let spans = t.spans();
    assert!(spans.iter().any(|s| s.start == 4 && s.end == 8
        && s.style == Style::Color { r: 0xe5, g: 0xc0, b: 0x7b }));
    assert!(spans.iter().any(|s| s.start == 10 && s.end == 16
        && s.style == Style::Color { r: 0x67, g: 0x6f, b: 0x7d }));
}

#[test]
fn new_loads_the_bundled_query() {
    let t = CodeText::new("import os\n".to_string()).unwrap();
    assert!(t.spans().iter().any(|s| s.start == 0 && s.end == 6 && s.style == KEYWORD));
}

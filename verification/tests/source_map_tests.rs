use tim::source_map::SourceMap;
use tim::span::{HasSpan, Span};
use tim::tokens::{Token, TokenTypes};

#[test]
fn line_starts_after_each_newline() {
    let map = SourceMap::new("ab\ncd\n".to_string());
    assert_eq!(map.newlines, vec![0, 3, 6]);
    assert_eq!(map.source, "ab\ncd\n");
}

#[test]
fn lookup_line_and_column() {
    let map = SourceMap::new("ab\ncd\n".to_string());
    assert_eq!(map.lookup_char_postion(0), (0, 0));
    assert_eq!(map.lookup_char_postion(2), (0, 2));
    assert_eq!(map.lookup_char_postion(3), (1, 0));
    assert_eq!(map.lookup_char_postion(4), (1, 1));
    assert_eq!(map.lookup_char_postion(6), (2, 0));
    assert_eq!(map.lookup_char_postion(100), (2, 94));
}

#[test]
fn line_starts_count_bytes() {
    let map = SourceMap::new("é\nx".to_string());
    assert_eq!(map.newlines, vec![0, 3]);
    assert_eq!(map.lookup_char_postion(3), (1, 0));
}

#[test]
fn snippet_of_span() {
    let map = SourceMap::new("ab\ncé\n".to_string());
    assert_eq!(map.snippet(Span::new(1, 4)), "b\nc");
    assert_eq!(map.snippet(Span::new(4, 6)), "é");
    assert_eq!(map.snippet(Span::new(2, 2)), "");
}

#[test]
fn span_basics() {
    let a = Span::new(3, 7);
    assert_eq!((a.lo, a.hi), (3, 7));
    let b = Span::new(1, 4);
    assert_eq!(a.to(b), Span::new(1, 4));
    assert_eq!(b.to(a), Span::new(1, 7));
    assert_eq!(Span::default(), Span::new(0, 0));
    let t = Token::new(TokenTypes::Text, Some("x".to_string()), Span::new(2, 3));
    assert_eq!(t.span(), Span::new(2, 3));
}

#[test]
fn line_of_character_counts_newlines_before_it() {
    let src = "x\n\nyé\nz";
    let map = SourceMap::new(src.to_string());
    for (i, (byte, _)) in src.char_indices().enumerate() {
        let newlines_before = src.chars().take(i).filter(|c| *c == '\n').count();
        assert_eq!(map.lookup_char_postion(byte).0, newlines_before);
    }
    assert_eq!(map.lookup_char_postion(src.len()).0, 3);
}

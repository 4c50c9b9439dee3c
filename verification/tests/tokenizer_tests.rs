use tim::diagnostics::Severity;
use tim::source_map::SourceMap;
use tim::span::Span;
use tim::tokenizer::TokenList;
use tim::tokens::{CharType, Token, TokenTypes};

fn lex(src: &str) -> TokenList {
    let map = SourceMap::new(src.to_string());
    let mut list = TokenList::new();
    list.tokenize(&map);
    list
}

fn summary(list: &TokenList) -> Vec<(TokenTypes, String, usize, usize)> {
    list.tokens
        .iter()
        .map(|t| (t.token_type, t.value.clone().unwrap_or_default(), t.span.lo, t.span.hi))
        .collect()
}

fn tk(k: TokenTypes, v: &str, lo: usize, hi: usize) -> (TokenTypes, String, usize, usize) {
    (k, v.to_string(), lo, hi)
}

#[test]
fn words_and_spaces() {
    let list = lex("Hello world");
    assert_eq!(
        summary(&list),
        vec![
            tk(TokenTypes::Text, "Hello", 0, 5),
            tk(TokenTypes::WhiteSpace, " ", 5, 6),
            tk(TokenTypes::Text, "world", 6, 11),
        ]
    );
    assert!(list.diagnostics.is_empty());
}

#[test]
fn special_run_spans_start_at_run_start() {
    let list = lex("##");
    assert_eq!(
        summary(&list),
        vec![tk(TokenTypes::Header, "#", 0, 1), tk(TokenTypes::Header, "#", 0, 2)]
    );
}

#[test]
fn all_special_characters() {
    let list = lex("[]()<>{}");
    let kinds: Vec<TokenTypes> = list.tokens.iter().map(|t| t.token_type).collect();
    assert_eq!(
        kinds,
        vec![
            TokenTypes::AnchorValueStart,
            TokenTypes::AnchorValueEnd,
            TokenTypes::AnchorURLStart,
            TokenTypes::AnchorURLEnd,
            TokenTypes::UniqueIDBegin,
            TokenTypes::UniqueIDEnd,
            TokenTypes::ClassBegin,
            TokenTypes::ClassEnd,
        ]
    );
    assert_eq!(list.tokens[7].span, Span::new(0, 8));
}

#[test]
fn symbol_run_ends_after_plain_symbol() {
    let list = lex("!*`-_:@.x");
    assert_eq!(
        summary(&list),
        vec![
            tk(TokenTypes::Image, "!", 0, 1),
            tk(TokenTypes::Emphasis, "*", 0, 2),
            tk(TokenTypes::BackTick, "`", 0, 3),
            tk(TokenTypes::Dash, "-", 0, 4),
            tk(TokenTypes::UnderScore, "_", 0, 5),
            tk(TokenTypes::Colon, ":", 0, 6),
            tk(TokenTypes::At, "@", 0, 7),
            tk(TokenTypes::Text, ".", 0, 8),
            tk(TokenTypes::Text, "x", 8, 9),
        ]
    );
}

#[test]
fn ordered_list_marker() {
    let list = lex("12. x");
    assert_eq!(
        summary(&list),
        vec![
            tk(TokenTypes::OrderedList, "12", 0, 3),
            tk(TokenTypes::WhiteSpace, " ", 3, 4),
            tk(TokenTypes::Text, "x", 4, 5),
        ]
    );
}

#[test]
fn number_without_marker_is_text() {
    let list = lex("1.2");
    assert_eq!(
        summary(&list),
        vec![
            tk(TokenTypes::Text, "1", 0, 1),
            tk(TokenTypes::Text, ".", 1, 2),
            tk(TokenTypes::Text, "2", 2, 3),
        ]
    );
}

#[test]
fn newlines_and_tabs() {
    let list = lex("\r\n\t");
    assert_eq!(
        summary(&list),
        vec![
            tk(TokenTypes::NewLine, "\n", 0, 1),
            tk(TokenTypes::NewLine, "\n", 1, 2),
            tk(TokenTypes::WhiteSpace, " ", 2, 3),
        ]
    );
}

#[test]
fn escape_takes_next_character() {
    let list = lex("\\*a");
    assert_eq!(
        summary(&list),
        vec![tk(TokenTypes::Escape, "*", 0, 2), tk(TokenTypes::Text, "a", 2, 3)]
    );
}

#[test]
fn unclosed_escape_is_reported() {
    let list = lex("ab\\");
    assert_eq!(summary(&list), vec![tk(TokenTypes::Text, "ab", 0, 2)]);
    assert_eq!(list.diagnostics.len(), 1);
    let d = &list.diagnostics[0];
    assert_eq!(d.severity, Severity::Error);
    assert_eq!(d.message, "unclosed escape sequence");
    assert_eq!(d.span, Span::new(2, 3));
    assert_eq!(d.label.as_deref(), Some("expected a character after backslash"));
}

#[test]
fn spans_count_bytes() {
    let list = lex("é€𝄞a");
    assert_eq!(
        summary(&list),
        vec![
            tk(TokenTypes::Text, "é", 0, 2),
            tk(TokenTypes::Text, "€", 2, 5),
            tk(TokenTypes::Text, "𝄞", 5, 9),
            tk(TokenTypes::Text, "a", 9, 10),
        ]
    );
}

#[test]
fn tokenize_appends() {
    let map = SourceMap::new("a".to_string());
    let mut list = TokenList::new();
    list.tokens.push(Token::new(TokenTypes::Error, None, Span::new(0, 0)));
    list.tokenize(&map);
    assert_eq!(list.tokens.len(), 2);
    assert_eq!(list.tokens[0].token_type, TokenTypes::Error);
    assert_eq!(list.tokens[1].token_type, TokenTypes::Text);
}

#[test]
fn classify_characters() {
    assert_eq!(CharType::classify_char('q'), CharType::Letter);
    assert_eq!(CharType::classify_char('Z'), CharType::Letter);
    assert_eq!(CharType::classify_char('7'), CharType::Digit);
    assert_eq!(CharType::classify_char('\n'), CharType::NewLine);
    assert_eq!(CharType::classify_char('\r'), CharType::NewLine);
    assert_eq!(CharType::classify_char('\t'), CharType::WhiteSpace);
    assert_eq!(CharType::classify_char(' '), CharType::WhiteSpace);
    assert_eq!(CharType::classify_char('#'), CharType::Special);
    assert_eq!(CharType::classify_char('}'), CharType::Special);
    assert_eq!(CharType::classify_char('?'), CharType::Symbol);
    assert_eq!(CharType::classify_char('\''), CharType::Symbol);
    assert_eq!(CharType::classify_char('\\'), CharType::Escape);
    assert_eq!(CharType::classify_char('é'), CharType::Unknown);
    assert_eq!(CharType::classify_char('+'), CharType::Unknown);
}

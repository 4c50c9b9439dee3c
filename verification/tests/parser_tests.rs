use tim::ast::{Block, Inline};
use tim::parser::Parser;
use tim::parser_spec::ParseError;
use tim::source_map::SourceMap;
use tim::span::Span;
use tim::tokenizer::TokenList;
use tim::tokens::{Token, TokenTypes};
use tim::walker::Compiler;

fn tok(k: TokenTypes, v: Option<&str>) -> Token {
    Token::new(k, v.map(|s| s.to_string()), Span::new(0, 0))
}

fn html(src: &str) -> Result<String, ParseError> {
    let map = SourceMap::new(src.to_string());
    let mut list = TokenList::new();
    list.tokenize(&map);
    let doc = Parser::new(list.tokens, src).parse()?;
    Ok(Compiler::new().compile(doc))
}

#[test]
fn ordered_list_start_from_marker_value() {
    let tokens = vec![
        tok(TokenTypes::OrderedList, Some("+7")),
        tok(TokenTypes::Text, Some(".")),
        tok(TokenTypes::WhiteSpace, Some(" ")),
        tok(TokenTypes::Text, Some("a")),
    ];
    let doc = Parser::new(tokens, "").parse().unwrap();
    match &doc.children[0] {
        Block::OrderedList { start, children, .. } => {
            assert_eq!(*start, 7);
            assert_eq!(children.len(), 1);
            match &children[0].children[0] {
                Inline::Text { value } => assert_eq!(value, "a"),
                other => panic!("unexpected {:?}", other),
            }
        }
        other => panic!("unexpected {:?}", other),
    }
}

#[test]
fn ordered_list_start_defaults_to_one() {
    for v in [None, Some("x"), Some("99999999999999999999999999")] {
        let tokens = vec![tok(TokenTypes::OrderedList, v), tok(TokenTypes::Text, Some("a"))];
        let doc = Parser::new(tokens, "").parse().unwrap();
        match &doc.children[0] {
            Block::OrderedList { start, .. } => assert_eq!(*start, 1),
            other => panic!("unexpected {:?}", other),
        }
    }
}

#[test]
fn text_tokens_join() {
    let tokens = vec![
        tok(TokenTypes::Text, Some("a")),
        tok(TokenTypes::At, Some("@")),
        tok(TokenTypes::Text, None),
        tok(TokenTypes::Text, Some("b")),
    ];
    let doc = Parser::new(tokens, "").parse().unwrap();
    match &doc.children[0] {
        Block::Paragraph { children, .. } => {
            assert_eq!(children.len(), 1);
            match &children[0] {
                Inline::Text { value } => assert_eq!(value, "a@b"),
                other => panic!("unexpected {:?}", other),
            }
        }
        other => panic!("unexpected {:?}", other),
    }
}

#[test]
fn attributes_before_code_block_are_dropped() {
    assert_eq!(
        html("{a}\n``\nx\n``\nb").unwrap(),
        "<pre><code>x\n</code></pre>\n<p>b</p>\n"
    );
}

#[test]
fn attributes_before_note_are_dropped() {
    assert_eq!(
        html("{a}\n::note\nb\n::").unwrap(),
        "<div class=\"tim-note\">\n<p>b</p>\n</div>\n"
    );
}

#[test]
fn attributes_on_list() {
    assert_eq!(
        html("{l, x}\n- a\n- b").unwrap(),
        "<ul id=\"l\" class=\"x\">\n<li>a</li>\n<li>b</li>\n</ul>\n"
    );
}

#[test]
fn empty_attribute_pieces_are_ignored() {
    assert_eq!(html("{ , ,a, }\nx").unwrap(), "<p class=\"a\">x</p>\n");
    assert_eq!(html("{}\nx").unwrap(), "<p>x</p>\n");
}

#[test]
fn link_may_start_with_parenthesis() {
    assert_eq!(html("(t](u)").unwrap(), "<p><a href=\"u\">t</a></p>\n");
}

#[test]
fn plain_parenthesis_needs_link_syntax() {
    assert_eq!(html("a (b) c"), Err(ParseError::LinkMissingBracket));
}

#[test]
fn link_text_may_end_its_line() {
    assert_eq!(html("[a\n](u)").unwrap(), "<p><a href=\"u\">a</a></p>\n");
}

#[test]
fn nested_notes() {
    assert_eq!(
        html("::note\n::note\nx\n::\n::").unwrap(),
        "<div class=\"tim-note\">\n<div class=\"tim-note\">\n<p>x</p>\n</div>\n</div>\n"
    );
}

#[test]
fn bang_without_bracket_is_text() {
    assert_eq!(html("hi!").unwrap(), "<p>hi!</p>\n");
}

#[test]
fn parse_continues_from_cursor() {
    let mut p = Parser::new(vec![tok(TokenTypes::Text, Some("a"))], "a");
    let first = p.parse().unwrap();
    assert_eq!(first.children.len(), 1);
    let second = p.parse().unwrap();
    assert_eq!(second.children.len(), 0);
}

#[test]
fn empty_token_stream() {
    let doc = Parser::new(Vec::new(), "").parse().unwrap();
    assert!(doc.children.is_empty());
}

#[test]
fn neighbouring_text_is_one_node() {
    let doc = Parser::new(vec![
        tok(TokenTypes::Text, Some("a")),
        tok(TokenTypes::WhiteSpace, Some(" ")),
        tok(TokenTypes::Text, Some("b")),
        tok(TokenTypes::NewLine, Some("\n")),
        tok(TokenTypes::Text, Some("c")),
        tok(TokenTypes::Emphasis, Some("*")),
        tok(TokenTypes::Text, Some("d")),
        tok(TokenTypes::WhiteSpace, Some(" ")),
        tok(TokenTypes::Text, Some("e")),
        tok(TokenTypes::Emphasis, Some("*")),
        tok(TokenTypes::Text, Some("f")),
    ], "")
    .parse()
    .unwrap();
    assert_eq!(doc.children.len(), 1);
    match &doc.children[0] {
        Block::Paragraph { children, .. } => {
            assert_eq!(children.len(), 3);
            match (&children[0], &children[1], &children[2]) {
                (Inline::Text { value: x }, Inline::Bold { children: kids }, Inline::Text { value: y }) => {
                    assert_eq!(x, "a b c");
                    assert_eq!(y, "f");
                    assert_eq!(kids.len(), 1);
                    match &kids[0] {
                        Inline::Text { value } => assert_eq!(value, "d e"),
                        other => panic!("unexpected {:?}", other),
                    }
                }
                other => panic!("unexpected {:?}", other),
            }
        }
        other => panic!("unexpected {:?}", other),
    }
}

#[test]
fn code_block_without_its_source_keeps_token_text() {
    let at = |k: TokenTypes, v: &str, lo: usize| Token::new(k, Some(v.to_string()), Span::new(lo, lo + 1));
    let tokens = || vec![
        at(TokenTypes::BackTick, "`", 0),
        at(TokenTypes::BackTick, "`", 1),
        at(TokenTypes::NewLine, "\n", 2),
        at(TokenTypes::Text, "x", 3),
        at(TokenTypes::WhiteSpace, " ", 4),
        at(TokenTypes::Text, "y", 5),
        at(TokenTypes::NewLine, "\n", 6),
        at(TokenTypes::BackTick, "`", 7),
        at(TokenTypes::BackTick, "`", 8),
    ];
    let code_of = |source: &str| match &Parser::new(tokens(), source).parse().unwrap().children[0] {
        Block::CodeBlock { code, .. } => code.clone(),
        other => panic!("unexpected {:?}", other),
    };
    assert_eq!(code_of(""), "x y\n");
    assert_eq!(code_of("``\nx\ty\r``"), "x\ty\r");
}

use tim::parser::Parser;
use tim::parser_spec::ParseError;
use tim::source_map::SourceMap;
use tim::tokenizer::TokenList;
use tim::walker::Compiler;

fn compile(src: &str) -> Result<String, ParseError> {
    let map = SourceMap::new(src.to_string());
    let mut lexer = TokenList::new();
    lexer.tokenize(&map);
    let mut parser = Parser::new(lexer.tokens, src);
    let doc = parser.parse()?;
    Ok(Compiler::new().compile(doc))
}

#[test]
fn readme_example_renders_header_and_note() {
    let src = "{hero, landing}\n\n# Welcome\n\n::note\n\nThis note is a first-class document block.\n\n::";
    assert_eq!(
        compile(src).unwrap(),
        "<h1 id=\"hero\" class=\"landing\">Welcome</h1>\n<div class=\"tim-note\">\n<p>This note is a first-class document block.</p>\n</div>\n"
    );
}

#[test]
fn placeholder_id_gives_classes_only() {
    let src = "{_, card, shadow}\nThis paragraph has no ID.";
    assert_eq!(
        compile(src).unwrap(),
        "<p class=\"card shadow\">This paragraph has no ID.</p>\n"
    );
}

#[test]
fn attributes_apply_only_to_next_block() {
    let src = "{a, b}\nfirst\n\nsecond";
    assert_eq!(
        compile(src).unwrap(),
        "<p id=\"a\" class=\"b\">first</p>\n<p>second</p>\n"
    );
    assert_eq!(
        compile("{a}\n# one\ntwo").unwrap(),
        "<h1 id=\"a\">one</h1>\n<p>two</p>\n"
    );
}

#[test]
fn consecutive_lines_form_one_paragraph() {
    assert_eq!(
        compile("line one\nline two\n  line three").unwrap(),
        "<p>line one line two line three</p>\n"
    );
}

#[test]
fn blank_line_ends_paragraph() {
    assert_eq!(
        compile("first\n\nsecond\n \nthird").unwrap(),
        "<p>first</p>\n<p>second</p>\n<p>third</p>\n"
    );
}

#[test]
fn another_block_ends_paragraph() {
    assert_eq!(
        compile("a\n# H\nb\n- i\nc\n1. j\nd\n``\nx\n``").unwrap(),
        "<p>a</p>\n<h1>H</h1>\n<p>b</p>\n<ul>\n<li>i</li>\n</ul>\n<p>c</p>\n<ol>\n<li>j</li>\n</ol>\n<p>d</p>\n<pre><code>x\n</code></pre>\n"
    );
    assert_eq!(
        compile("a\n{b}\nc").unwrap(),
        "<p>a</p>\n<p id=\"b\">c</p>\n"
    );
    assert_eq!(
        compile("::note\na\nb\n::\nc").unwrap(),
        "<div class=\"tim-note\">\n<p>a b</p>\n</div>\n<p>c</p>\n"
    );
}

#[test]
fn inline_markup_on_continued_lines() {
    assert_eq!(
        compile("a *b*\n`c` d").unwrap(),
        "<p>a <strong>b</strong> <code>c</code> d</p>\n"
    );
    assert_eq!(compile("*a\nb*"), Err(ParseError::UnclosedBold));
}

#[test]
fn header_levels() {
    assert_eq!(
        compile("# One\n## Two\n### Three").unwrap(),
        "<h1>One</h1>\n<h2>Two</h2>\n<h3>Three</h3>\n"
    );
}

#[test]
fn unordered_list() {
    assert_eq!(
        compile("- First\n- Second\n- Third").unwrap(),
        "<ul>\n<li>First</li>\n<li>Second</li>\n<li>Third</li>\n</ul>\n"
    );
}

#[test]
fn ordered_list_from_one() {
    assert_eq!(
        compile("1. First\n2. Second\n3. Third").unwrap(),
        "<ol>\n<li>First</li>\n<li>Second</li>\n<li>Third</li>\n</ol>\n"
    );
}

#[test]
fn ordered_list_start_attribute() {
    assert_eq!(
        compile("4. Four\n5. Five").unwrap(),
        "<ol start=\"4\">\n<li>Four</li>\n<li>Five</li>\n</ol>\n"
    );
}

#[test]
fn code_block_with_language() {
    let src = "``rust\nfn main() {\n    println!(\"Hello\");\n}\n``";
    assert_eq!(
        compile(src).unwrap(),
        "<pre><code class=\"language-rust\">fn main() {\n    println!(\"Hello\");\n}\n</code></pre>\n"
    );
}

#[test]
fn code_block_without_language() {
    assert_eq!(
        compile("``\nx\n``").unwrap(),
        "<pre><code>x\n</code></pre>\n"
    );
}

#[test]
fn inline_elements() {
    assert_eq!(
        compile("a *b* _c_ `d e` [f](g)").unwrap(),
        "<p>a <strong>b</strong> <em>c</em> <code>d e</code> <a href=\"g\">f</a></p>\n"
    );
}

#[test]
fn image_inline() {
    assert_eq!(
        compile("![alt](pic)").unwrap(),
        "<p><img src=\"pic\" alt=\"alt\" ></p>\n"
    );
}

#[test]
fn nested_emphasis() {
    assert_eq!(
        compile("*a _b_ c*").unwrap(),
        "<p><strong>a <em>b</em> c</strong></p>\n"
    );
}

#[test]
fn note_holds_header_and_list() {
    assert_eq!(
        compile("::note\n# T\n- x\n::").unwrap(),
        "<div class=\"tim-note\">\n<h1>T</h1>\n<ul>\n<li>x</li>\n</ul>\n</div>\n"
    );
}

#[test]
fn trailing_whitespace_after_ordered_list() {
    assert_eq!(
        compile("1. a\n ").unwrap(),
        "<ol>\n<li>a</li>\n</ol>\n"
    );
}

#[test]
fn empty_source_gives_empty_document() {
    assert_eq!(compile("").unwrap(), "");
    assert_eq!(compile("\n \n").unwrap(), "");
}

#[test]
fn error_unterminated_attributes() {
    assert_eq!(compile("{a, b\n"), Err(ParseError::UnterminatedAttributes));
}

#[test]
fn error_attributes_not_on_own_line() {
    assert_eq!(compile("{a} text"), Err(ParseError::AttributesNotOnOwnLine));
}

#[test]
fn error_duplicate_id() {
    assert_eq!(compile("{a}\nx\n{a}\ny"), Err(ParseError::DuplicateId));
}

#[test]
fn error_unterminated_note() {
    assert_eq!(compile("::note\ntext\n"), Err(ParseError::UnterminatedNote));
}

#[test]
fn error_stray_note_end() {
    assert_eq!(compile("::\n"), Err(ParseError::StrayNoteEnd));
}

#[test]
fn error_unterminated_inline_code() {
    assert_eq!(compile("a `b\n"), Err(ParseError::UnterminatedInlineCode));
}

#[test]
fn error_nested_image_bracket() {
    assert_eq!(compile("![a[b]](c)"), Err(ParseError::NestedImageBracket));
}

#[test]
fn error_nested_image() {
    assert_eq!(compile("![a ![b](c)](d)"), Err(ParseError::NestedImage));
}

#[test]
fn error_unterminated_image_alt() {
    assert_eq!(compile("![abc"), Err(ParseError::UnterminatedImageAlt));
}

#[test]
fn error_image_missing_source() {
    assert_eq!(compile("![abc] x"), Err(ParseError::ImageMissingSource));
}

#[test]
fn error_unterminated_image_source() {
    assert_eq!(compile("![abc](x"), Err(ParseError::UnterminatedImageSource));
}

#[test]
fn error_link_missing_bracket() {
    assert_eq!(compile("[abc"), Err(ParseError::LinkMissingBracket));
}

#[test]
fn error_link_missing_url() {
    assert_eq!(compile("[abc] x"), Err(ParseError::LinkMissingUrl));
}

#[test]
fn error_unterminated_link_url() {
    assert_eq!(compile("[abc](x"), Err(ParseError::UnterminatedLinkUrl));
}

#[test]
fn error_code_block_fence() {
    assert_eq!(compile("```\nx\n```"), Err(ParseError::CodeBlockFence));
}

#[test]
fn error_unterminated_code_block() {
    assert_eq!(compile("``\nx\n"), Err(ParseError::UnterminatedCodeBlock));
}

#[test]
fn error_unclosed_bold() {
    assert_eq!(compile("*a\n"), Err(ParseError::UnclosedBold));
}

#[test]
fn error_unclosed_italic() {
    assert_eq!(compile("_a"), Err(ParseError::UnclosedItalic));
}

#[test]
fn stray_bracket_is_text() {
    assert_eq!(compile("]").unwrap(), "<p>]</p>\n");
    assert_eq!(compile("a ] b").unwrap(), "<p>a ] b</p>\n");
    assert_eq!(compile("*a]b*").unwrap(), "<p><strong>a]b</strong></p>\n");
    assert_eq!(compile("[a](u)]").unwrap(), "<p><a href=\"u\">a</a>]</p>\n");
}

#[test]
fn error_header_too_deep() {
    let src = "#".repeat(256) + " x";
    assert_eq!(compile(&src), Err(ParseError::HeaderTooDeep));
    let ok = "#".repeat(255) + " x";
    assert!(compile(&ok).unwrap().starts_with("<h255>x</h255>"));
}

#[test]
fn code_block_contents_are_literal() {
    assert_eq!(
        compile("``\n1. a\\b\n``").unwrap(),
        "<pre><code>1. a\\b\n</code></pre>\n"
    );
    assert_eq!(
        compile("``\n\tx\r\n*y* [z](w) ::note\n``").unwrap(),
        "<pre><code>\tx\r\n*y* [z](w) ::note\n</code></pre>\n"
    );
    assert_eq!(compile("``\n``").unwrap(), "<pre><code></code></pre>\n");
    assert_eq!(compile("``py\né-``").unwrap(), "<pre><code class=\"language-py\">é-</code></pre>\n");
}

use vstd::prelude::*;
use crate::ast::SpecInline;
use crate::parser_spec::{
    InlineContext, ParseState, advanced, at_pos, attr_piece, attr_raw, code_span,
    continues_paragraph, kind_is, paragraph_lines, push_inline, push_text, skip_spaces,
    spec_image, spec_link, spec_paragraph, spec_run, take_pending, text_of,
};
use crate::progress::{
    lemma_code_span, lemma_image_progress, lemma_link_progress, lemma_run_progress,
};
use crate::source_map::byte_offset;
use crate::span::Span;
use crate::tokenizer::{class_end, lemma_class_end, lemma_symbol_end, lex, run_tokens, symbol_end};
use crate::tokens::{CharType, SpecToken, TokenTypes, char_type};

verus! {

// ---------------------------------------------------------------------------
// Character classes and list markers
/// The character classes that the grammar rests on: the ASCII digits are
/// exactly the digits, `\n` and `\r` exactly the newlines, space and tab
/// exactly the whitespace, the ASCII letters exactly the letters, the
/// brackets, braces, angle brackets and `#` exactly the special
/// characters, the listed punctuation exactly the symbols, and the
/// backslash the escape; every other character is of no class.
pub proof fn law_char_classes(c: char)
    ensures
        ('0' <= c && c <= '9') <==> char_type(c) == CharType::Digit,
        (c == '\n' || c == '\r') <==> char_type(c) == CharType::NewLine,
        (c == ' ' || c == '\t') <==> char_type(c) == CharType::WhiteSpace,
        (('a' <= c && c <= 'z') || ('A' <= c && c <= 'Z')) <==> char_type(c) == CharType::Letter,
        (c == '#' || c == '[' || c == ']' || c == '(' || c == ')' || c == '<' || c == '>' || c
            == '{' || c == '}') <==> char_type(c) == CharType::Special,
        (c == '!' || c == '@' || c == '$' || c == '%' || c == '^' || c == '&' || c == '*' || c
            == '-' || c == '_' || c == '`' || c == '\'' || c == '"' || c == '/' || c == '|' || c
            == ',' || c == '.' || c == ':' || c == '?') <==> char_type(c) == CharType::Symbol,
        c == '\\' <==> char_type(c) == CharType::Escape,
{
}

/// A run of characters of one class that ends at `j` ends the class run.
proof fn lemma_class_run(cs: Seq<char>, i: int, j: int, ct: CharType)
    requires
        0 <= i <= j <= cs.len(),
        forall|m: int| i <= m < j ==> #[trigger] char_type(cs[m]) == ct,
        j == cs.len() || char_type(cs[j]) != ct,
    ensures
        class_end(cs, i, ct) == j,
    decreases j - i,
{
    if i < j {
        lemma_class_run(cs, i + 1, j, ct);
    }
}

/// A run of ASCII digits followed by `. ` is one ordered-list marker: a
/// single token whose value is the whole run and whose span covers the run
/// and its dot; the lexer goes on at the space.
pub proof fn law_ordered_list_marker(cs: Seq<char>, i: int, j: int)
    requires
        0 <= i < j,
        j + 1 < cs.len(),
        forall|m: int| i <= m < j ==> '0' <= #[trigger] cs[m] && cs[m] <= '9',
        cs[j] == '.',
        cs[j + 1] == ' ',
    ensures
        lex(cs, i).0 == seq![
            SpecToken {
                kind: TokenTypes::OrderedList,
                value: Some(cs.subrange(i, j)),
                span: Span {
                    lo: byte_offset(cs, i) as usize,
                    hi: byte_offset(cs, j + 1) as usize,
                },
            },
        ] + lex(cs, j + 1).0,
{
    assert forall|m: int| i <= m < j implies #[trigger] char_type(cs[m]) == CharType::Digit by {
        law_char_classes(cs[m]);
    }
    law_char_classes(cs[j]);
    assert(char_type(cs[i]) == CharType::Digit);
    lemma_class_run(cs, i, j, CharType::Digit);
}

// ---------------------------------------------------------------------------
// The text of attribute lines
/// The text of the tokens `a..b` of `t`, one after another.
pub open spec fn tokens_text(t: Seq<SpecToken>, a: int, b: int) -> Seq<char>
    decreases b - a,
{
    if a >= b {
        Seq::empty()
    } else {
        tokens_text(t, a, b - 1) + text_of(t[b - 1])
    }
}

pub open spec fn pieces_are_text(t: Seq<SpecToken>) -> bool {
    forall|k: int| 0 <= k < t.len() ==> attr_piece(#[trigger] t[k]) == text_of(t[k])
}

proof fn lemma_pieces_concat(a: Seq<SpecToken>, b: Seq<SpecToken>)
    requires
        pieces_are_text(a),
        pieces_are_text(b),
    ensures
        pieces_are_text(a + b),
{
    assert forall|k: int| 0 <= k < (a + b).len() implies attr_piece(#[trigger] (a + b)[k])
        == text_of((a + b)[k]) by {
        if k < a.len() {
            assert((a + b)[k] == a[k]);
        } else {
            assert((a + b)[k] == b[k - a.len()]);
        }
    }
}

proof fn lemma_run_pieces(cs: Seq<char>, start: int, k: int, end: int, symbols: bool)
    requires
        0 <= k <= end <= cs.len(),
    ensures
        pieces_are_text(run_tokens(cs, start, k, end, symbols)),
    decreases end - k,
{
    if k < end {
        lemma_run_pieces(cs, start, k + 1, end, symbols);
        let t = run_tokens(cs, start, k, end, symbols);
        let first = t.take(1);
        assert(t =~= first + run_tokens(cs, start, k + 1, end, symbols));
        assert(pieces_are_text(first));
        lemma_pieces_concat(first, run_tokens(cs, start, k + 1, end, symbols));
    }
}

/// What an attribute line reads of each token the lexer makes is its text.
proof fn lemma_lex_pieces(cs: Seq<char>, i: int)
    requires
        0 <= i,
    ensures
        pieces_are_text(lex(cs, i).0),
    decreases cs.len() - i,
{
    if i < cs.len() {
        let c = cs[i];
        let ct = char_type(c);
        let t = lex(cs, i).0;
        if ct == CharType::Letter || ct == CharType::Special || ct == CharType::Digit {
            lemma_class_end(cs, i, ct);
            let j0 = class_end(cs, i, ct);
            if ct == CharType::Digit && j0 + 1 < cs.len() && cs[j0] == '.' && cs[j0 + 1] == ' ' {
                lemma_lex_pieces(cs, j0 + 1);
                lemma_pieces_concat(t.take(1), lex(cs, j0 + 1).0);
                assert(t =~= t.take(1) + lex(cs, j0 + 1).0);
            } else if ct == CharType::Special {
                lemma_lex_pieces(cs, j0);
                lemma_run_pieces(cs, i, i, j0, false);
                lemma_pieces_concat(run_tokens(cs, i, i, j0, false), lex(cs, j0).0);
            } else {
                lemma_lex_pieces(cs, j0);
                lemma_pieces_concat(t.take(1), lex(cs, j0).0);
                assert(t =~= t.take(1) + lex(cs, j0).0);
            }
        } else if ct == CharType::Symbol {
            lemma_symbol_end(cs, i);
            let j = symbol_end(cs, i);
            lemma_lex_pieces(cs, j);
            lemma_run_pieces(cs, i, i, j, true);
            lemma_pieces_concat(run_tokens(cs, i, i, j, true), lex(cs, j).0);
        } else if ct == CharType::Escape && i + 1 >= cs.len() {
        } else {
            let j = if ct == CharType::Escape {
                i + 2
            } else {
                i + 1
            };
            lemma_lex_pieces(cs, j);
            lemma_pieces_concat(t.take(1), lex(cs, j).0);
            assert(t =~= t.take(1) + lex(cs, j).0);
        }
    }
}

proof fn lemma_attr_raw_text(t: Seq<SpecToken>, start: int, pos: int, acc: Seq<char>)
    requires
        pieces_are_text(t),
        0 <= start <= pos,
        acc == tokens_text(t, start, pos),
        forall|k: int| start <= k < pos ==> (#[trigger] t[k]).kind != TokenTypes::ClassEnd,
    ensures
        attr_raw(t, pos, acc) matches Some((q, raw)) ==> pos < q <= t.len() && raw == tokens_text(
            t,
            start,
            q - 1,
        ) && t[q - 1].kind == TokenTypes::ClassEnd && forall|k: int|
            start <= k < q - 1 ==> (#[trigger] t[k]).kind != TokenTypes::ClassEnd,
    decreases t.len() - pos,
{
    if pos < t.len() && t[pos].kind != TokenTypes::ClassEnd {
        assert(attr_piece(t[pos]) == text_of(t[pos]));
        lemma_attr_raw_text(t, start, pos + 1, acc + attr_piece(t[pos]));
    }
}

/// The raw text of an attribute line is the text of its tokens: for tokens
/// that the lexer read, what lies between a `{` at `pos - 1` and the first
/// `}` after it reads as the tokens' own text, `-`, `_`, `*` and spaces
/// included. Its comma-separated, trimmed pieces are the id and classes.
pub proof fn law_attribute_text_is_token_text(cs: Seq<char>, pos: int)
    requires
        0 <= pos,
    ensures
        pieces_are_text(lex(cs, 0).0),
        attr_raw(lex(cs, 0).0, pos, Seq::empty()) matches Some((q, raw)) ==> pos < q
            <= lex(cs, 0).0.len() && raw == tokens_text(lex(cs, 0).0, pos, q - 1)
            && lex(cs, 0).0[q - 1].kind == TokenTypes::ClassEnd && forall|k: int|
            pos <= k < q - 1 ==> (#[trigger] lex(cs, 0).0[k]).kind != TokenTypes::ClassEnd,
{
    lemma_lex_pieces(cs, 0);
    lemma_attr_raw_text(lex(cs, 0).0, pos, pos, Seq::empty());
}

// ---------------------------------------------------------------------------
// Where a paragraph ends
/// A line carries on the paragraph above it exactly when, after its
/// whitespace, it is not empty and does not begin a header (`#`), a list
/// item (`-` or a number marker), an attribute line (`{`), a code block
/// (two backticks), a note (`::note`) or the end of a note (`::` followed
/// by the end, a newline or whitespace).
pub proof fn law_paragraph_line_continues(t: Seq<SpecToken>, pos: int)
    requires
        0 <= pos <= t.len(),
    ensures
        continues_paragraph(t, pos) <==> ({
            let p = skip_spaces(t, pos);
            &&& p < t.len()
            &&& t[p].kind != TokenTypes::NewLine
            &&& t[p].kind != TokenTypes::Header
            &&& t[p].kind != TokenTypes::Dash
            &&& t[p].kind != TokenTypes::OrderedList
            &&& t[p].kind != TokenTypes::ClassBegin
            &&& !(t[p].kind == TokenTypes::BackTick && p + 1 < t.len() && t[p + 1].kind
                == TokenTypes::BackTick)
            &&& !(t[p].kind == TokenTypes::Colon && p + 2 < t.len() && t[p + 1].kind
                == TokenTypes::Colon && t[p + 2].value == Some(seq!['n', 'o', 't', 'e']))
            &&& !(t[p].kind == TokenTypes::Colon && p + 1 < t.len() && t[p + 1].kind
                == TokenTypes::Colon && (p + 2 >= t.len() || t[p + 2].kind
                == TokenTypes::NewLine || t[p + 2].kind == TokenTypes::WhiteSpace))
        }),
{
    lemma_skip_spaces_range(t, pos);
}

proof fn lemma_skip_spaces_range(t: Seq<SpecToken>, pos: int)
    requires
        0 <= pos <= t.len(),
    ensures
        pos <= skip_spaces(t, pos) <= t.len(),
    decreases t.len() - pos,
{
    if pos < t.len() && t[pos].kind == TokenTypes::WhiteSpace {
        lemma_skip_spaces_range(t, pos + 1);
    }
}


/// Inline content of a block line ends at the end of the tokens or right
/// after a newline.
proof fn lemma_block_run_ends(t: Seq<SpecToken>, st: ParseState, acc: Seq<SpecInline>)
    requires
        0 <= st.pos <= t.len(),
    ensures
        spec_run(t, st, InlineContext::Block, acc) matches Ok((st2, _v)) ==> st2.pos == t.len() || (
        1 <= st2.pos <= t.len() && t[st2.pos - 1].kind == TokenTypes::NewLine),
    decreases t.len() - st.pos,
{
    let ctx = InlineContext::Block;
    let p = st.pos;
    if p < t.len() {
        let k = t[p].kind;
        if k == TokenTypes::NewLine {
        } else if k == TokenTypes::AnchorURLStart || k == TokenTypes::AnchorValueStart {
            lemma_link_progress(t, st);
            match spec_link(t, st) {
                Ok((st2, link)) => {
                    lemma_block_run_ends(t, st2, push_inline(acc, link));
                },
                Err(_) => {},
            }
        } else if k == TokenTypes::WhiteSpace {
            lemma_block_run_ends(t, at_pos(st, p + 1), push_text(acc, seq![' ']));
        } else if k == TokenTypes::Emphasis || k == TokenTypes::UnderScore {
            let inner = if k == TokenTypes::Emphasis {
                InlineContext::Bold
            } else {
                InlineContext::Italic
            };
            lemma_run_progress(t, at_pos(st, p + 1), inner, Seq::empty());
            match spec_run(t, at_pos(st, p + 1), inner, Seq::empty()) {
                Ok((st2, kids)) => {
                    let x = if k == TokenTypes::Emphasis {
                        SpecInline::Bold { children: kids }
                    } else {
                        SpecInline::Italic { children: kids }
                    };
                    if advanced(t, st, st2) {
                        lemma_block_run_ends(t, st2, push_inline(acc, x));
                    }
                },
                Err(_) => {},
            }
        } else if k == TokenTypes::BackTick {
            lemma_code_span(t, p + 1, Seq::empty());
            match code_span(t, p + 1, Seq::empty()) {
                Some((q, code)) => {
                    lemma_block_run_ends(
                        t,
                        at_pos(st, q),
                        push_inline(acc, SpecInline::InlineCode { code }),
                    );
                },
                None => {},
            }
        } else if k == TokenTypes::Image && kind_is(t, p + 1, TokenTypes::AnchorValueStart) {
            lemma_image_progress(t, st);
            match spec_image(t, st) {
                Ok((st2, img)) => {
                    lemma_block_run_ends(t, st2, push_inline(acc, img));
                },
                Err(_) => {},
            }
        } else {
            lemma_block_run_ends(t, at_pos(st, p + 1), push_text(acc, text_of(t[p])));
        }
    }
}

proof fn lemma_lines_end(t: Seq<SpecToken>, st: ParseState, acc: Seq<SpecInline>)
    requires
        0 <= st.pos <= t.len(),
    ensures
        paragraph_lines(t, st, acc) matches Ok((st2, _v)) ==> st2.pos == t.len() || (1 <= st2.pos
            <= t.len() && t[st2.pos - 1].kind == TokenTypes::NewLine && !continues_paragraph(
            t,
            st2.pos,
        )),
    decreases t.len() - st.pos,
{
    lemma_block_run_ends(t, st, acc);
    lemma_run_progress(t, st, InlineContext::Block, acc);
    match spec_run(t, st, InlineContext::Block, acc) {
        Ok((st2, kids)) => if advanced(t, st, st2) && continues_paragraph(t, st2.pos) {
            lemma_skip_spaces_range(t, st2.pos);
            lemma_lines_end(t, at_pos(st2, skip_spaces(t, st2.pos)), push_text(kids, seq![' ']));
        },
        Err(_) => {},
    }
}

/// A paragraph stops at the end of a line after which no line carries it
/// on: it ends with the tokens, or right after a newline, before a line
/// that is empty or begins another block. A note, a list, a header, a code
/// block or an attribute line right below a paragraph line is never read
/// into the paragraph.
pub proof fn law_paragraph_stops_before_block(t: Seq<SpecToken>, st: ParseState)
    requires
        0 <= st.pos <= t.len(),
    ensures
        spec_paragraph(t, st) matches Ok((st2, _b)) ==> st2.pos == t.len() || (1 <= st2.pos
            <= t.len() && t[st2.pos - 1].kind == TokenTypes::NewLine && !continues_paragraph(
            t,
            st2.pos,
        )),
{
    let (st1, _attrs) = take_pending(st);
    lemma_lines_end(t, st1, Seq::empty());
}

} // verus!

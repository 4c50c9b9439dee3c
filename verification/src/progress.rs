use vstd::prelude::*;
use crate::ast::SpecInline;
use crate::parser_spec::{
    InlineContext, ParseError, ParseState, advanced, alt_text, at_pos, attr_line_end, attr_raw,
    code_body, code_language, code_span, continues_paragraph, is_blank, is_note_end,
    is_note_start, item_marker, kind_is, paragraph_lines, push_text, run_length, skip_blank,
    skip_spaces, spec_attributes, spec_block, spec_blocks, spec_code_block, spec_header,
    spec_image, spec_link, spec_list_item, spec_list_items, spec_note, spec_note_body,
    spec_ordered_list, spec_paragraph, spec_parse, spec_run, spec_unordered_list, take_pending,
    text_of, url_text,
};
use crate::tokens::{SpecToken, TokenTypes};

verus! {

/// A result that is not the error of a construct that consumed no token.
pub open spec fn not_stalled<T>(r: Result<T, ParseError>) -> bool {
    r matches Err(e) ==> e != ParseError::NoProgress
}

// ---------------------------------------------------------------------------
// The plain scanners
proof fn lemma_skip_spaces(t: Seq<SpecToken>, pos: int)
    requires
        0 <= pos <= t.len(),
    ensures
        pos <= skip_spaces(t, pos) <= t.len(),
        skip_spaces(t, pos) < t.len() ==> t[skip_spaces(t, pos)].kind != TokenTypes::WhiteSpace,
    decreases t.len() - pos,
{
    if pos < t.len() && t[pos].kind == TokenTypes::WhiteSpace {
        lemma_skip_spaces(t, pos + 1);
    }
}

proof fn lemma_skip_blank(t: Seq<SpecToken>, pos: int)
    requires
        0 <= pos <= t.len(),
    ensures
        pos <= skip_blank(t, pos) <= t.len(),
        skip_blank(t, pos) < t.len() ==> !is_blank(t[skip_blank(t, pos)].kind),
    decreases t.len() - pos,
{
    if pos < t.len() && is_blank(t[pos].kind) {
        lemma_skip_blank(t, pos + 1);
    }
}

proof fn lemma_run_length(t: Seq<SpecToken>, pos: int, k: TokenTypes)
    requires
        0 <= pos <= t.len(),
    ensures
        pos + run_length(t, pos, k) <= t.len(),
    decreases t.len() - pos,
{
    if pos < t.len() && t[pos].kind == k {
        lemma_run_length(t, pos + 1, k);
    }
}

proof fn lemma_url(t: Seq<SpecToken>, pos: int, acc: Seq<char>)
    ensures
        url_text(t, pos, acc) matches Some((q, _u)) ==> 0 <= pos < q <= t.len(),
    decreases t.len() - pos,
{
    if 0 <= pos < t.len() && t[pos].kind != TokenTypes::AnchorURLEnd {
        lemma_url(t, pos + 1, acc + text_of(t[pos]));
    }
}

proof fn lemma_alt(t: Seq<SpecToken>, pos: int, acc: Seq<char>)
    ensures
        alt_text(t, pos, acc) matches Ok((q, _u)) ==> 0 <= pos < q <= t.len(),
        not_stalled(alt_text(t, pos, acc)),
    decreases t.len() - pos,
{
    if 0 <= pos < t.len() && t[pos].kind != TokenTypes::AnchorValueStart && !(t[pos].kind
        == TokenTypes::Image && kind_is(t, pos + 1, TokenTypes::AnchorValueStart)) && t[pos].kind
        != TokenTypes::AnchorValueEnd {
        lemma_alt(t, pos + 1, acc + text_of(t[pos]));
    }
}

pub proof fn lemma_code_span(t: Seq<SpecToken>, pos: int, acc: Seq<char>)
    ensures
        code_span(t, pos, acc) matches Some((q, _u)) ==> 0 <= pos < q <= t.len(),
    decreases t.len() - pos,
{
    if 0 <= pos < t.len() && t[pos].kind != TokenTypes::BackTick && t[pos].kind
        != TokenTypes::NewLine {
        let next = if t[pos].kind == TokenTypes::WhiteSpace {
            acc.push(' ')
        } else {
            acc + text_of(t[pos])
        };
        lemma_code_span(t, pos + 1, next);
    }
}

proof fn lemma_attr_raw(t: Seq<SpecToken>, pos: int, acc: Seq<char>)
    ensures
        attr_raw(t, pos, acc) matches Some((q, _u)) ==> 0 <= pos < q <= t.len(),
    decreases t.len() - pos,
{
    if 0 <= pos < t.len() && t[pos].kind != TokenTypes::ClassEnd {
        lemma_attr_raw(t, pos + 1, acc + crate::parser_spec::attr_piece(t[pos]));
    }
}

proof fn lemma_attr_line_end(t: Seq<SpecToken>, pos: int)
    requires
        0 <= pos <= t.len(),
    ensures
        attr_line_end(t, pos) matches Some(q) ==> pos <= q <= t.len(),
    decreases t.len() - pos,
{
    if pos < t.len() && t[pos].kind == TokenTypes::WhiteSpace {
        lemma_attr_line_end(t, pos + 1);
    }
}

proof fn lemma_attributes_progress(t: Seq<SpecToken>, st: ParseState)
    requires
        0 <= st.pos <= t.len(),
    ensures
        spec_attributes(t, st) matches Ok((st2, _u)) ==> advanced(t, st, st2),
        not_stalled(spec_attributes(t, st)),
{
    lemma_attr_raw(t, st.pos + 1, Seq::empty());
    match attr_raw(t, st.pos + 1, Seq::empty()) {
        Some((p, _raw)) => {
            lemma_attr_line_end(t, p);
        },
        None => {},
    }
}

pub proof fn lemma_image_progress(t: Seq<SpecToken>, st: ParseState)
    requires
        0 <= st.pos <= t.len(),
    ensures
        spec_image(t, st) matches Ok((st2, _x)) ==> advanced(t, st, st2),
        not_stalled(spec_image(t, st)),
{
    lemma_alt(t, st.pos + 2, Seq::empty());
    match alt_text(t, st.pos + 2, Seq::empty()) {
        Ok((p, _alt)) => {
            lemma_url(t, p + 1, Seq::empty());
        },
        Err(_) => {},
    }
}

// ---------------------------------------------------------------------------
// Inline content
/// A run of inline content moves forward and never stalls; it stays put
/// only at the end of the tokens or, in link text, at a `]`.
pub proof fn lemma_run_progress(t: Seq<SpecToken>, st: ParseState, ctx: InlineContext, acc: Seq<SpecInline>)
    requires
        0 <= st.pos <= t.len(),
    ensures
        spec_run(t, st, ctx, acc) matches Ok((st2, _v)) ==> st.pos <= st2.pos <= t.len() && ((ctx
            == InlineContext::Bold || ctx == InlineContext::Italic) ==> st.pos < st2.pos) && (
        st2.pos == st.pos ==> st.pos == t.len() || (ctx == InlineContext::Link && kind_is(
            t,
            st.pos,
            TokenTypes::AnchorValueEnd,
        ))),
        not_stalled(spec_run(t, st, ctx, acc)),
    decreases t.len() - st.pos, 5int,
{
    let p = st.pos;
    if p < t.len() {
        let k = t[p].kind;
        if k == TokenTypes::NewLine || (k == TokenTypes::AnchorValueEnd && ctx
            == InlineContext::Link) {
        } else if k == TokenTypes::AnchorURLStart || k == TokenTypes::AnchorValueStart {
            lemma_link_progress(t, st);
            match spec_link(t, st) {
                Ok((st2, link)) => {
                    lemma_run_progress(t, st2, ctx, crate::parser_spec::push_inline(acc, link));
                },
                Err(_) => {},
            }
        } else if k == TokenTypes::WhiteSpace {
            lemma_run_progress(t, at_pos(st, p + 1), ctx, push_text(acc, seq![' ']));
        } else if k == TokenTypes::Emphasis && ctx == InlineContext::Bold {
        } else if k == TokenTypes::UnderScore && ctx == InlineContext::Italic {
        } else if k == TokenTypes::Emphasis || k == TokenTypes::UnderScore {
            let inner = if k == TokenTypes::Emphasis {
                InlineContext::Bold
            } else {
                InlineContext::Italic
            };
            lemma_run_progress(t, at_pos(st, p + 1), inner, Seq::empty());
            match spec_run(t, at_pos(st, p + 1), inner, Seq::empty()) {
                Ok((st2, kids)) => {
                    let x = if k == TokenTypes::Emphasis {
                        SpecInline::Bold { children: kids }
                    } else {
                        SpecInline::Italic { children: kids }
                    };
                    lemma_run_progress(t, st2, ctx, crate::parser_spec::push_inline(acc, x));
                },
                Err(_) => {},
            }
        } else if k == TokenTypes::BackTick {
            lemma_code_span(t, p + 1, Seq::empty());
            match code_span(t, p + 1, Seq::empty()) {
                Some((q, code)) => {
                    lemma_run_progress(
                        t,
                        at_pos(st, q),
                        ctx,
                        crate::parser_spec::push_inline(acc, SpecInline::InlineCode { code }),
                    );
                },
                None => {},
            }
        } else if k == TokenTypes::Image && kind_is(t, p + 1, TokenTypes::AnchorValueStart) {
            lemma_image_progress(t, st);
            match spec_image(t, st) {
                Ok((st2, img)) => {
                    lemma_run_progress(t, st2, ctx, crate::parser_spec::push_inline(acc, img));
                },
                Err(_) => {},
            }
        } else {
            lemma_run_progress(t, at_pos(st, p + 1), ctx, push_text(acc, text_of(t[p])));
        }
    }
}

pub proof fn lemma_link_progress(t: Seq<SpecToken>, st: ParseState)
    requires
        0 <= st.pos <= t.len(),
    ensures
        spec_link(t, st) matches Ok((st2, _x)) ==> advanced(t, st, st2),
        not_stalled(spec_link(t, st)),
    decreases t.len() - st.pos, 4int,
{
    if st.pos < t.len() {
        let (st1, _attrs) = take_pending(at_pos(st, st.pos + 1));
        lemma_run_progress(t, st1, InlineContext::Link, Seq::empty());
        match spec_run(t, st1, InlineContext::Link, Seq::empty()) {
            Ok((st2, _kids)) => {
                lemma_url(t, st2.pos + 2, Seq::empty());
            },
            Err(_) => {},
        }
    }
}

proof fn lemma_lines_progress(t: Seq<SpecToken>, st: ParseState, acc: Seq<SpecInline>)
    requires
        0 <= st.pos <= t.len(),
    ensures
        paragraph_lines(t, st, acc) matches Ok((st2, _v)) ==> st.pos <= st2.pos <= t.len() && (
        st.pos < t.len() ==> st.pos < st2.pos),
        not_stalled(paragraph_lines(t, st, acc)),
    decreases t.len() - st.pos,
{
    lemma_run_progress(t, st, InlineContext::Block, acc);
    match spec_run(t, st, InlineContext::Block, acc) {
        Ok((st2, kids)) => if advanced(t, st, st2) && continues_paragraph(t, st2.pos) {
            lemma_lines_progress(t, at_pos(st2, skip_spaces(t, st2.pos)), push_text(kids, seq![' ']));
        },
        Err(_) => {},
    }
}

// ---------------------------------------------------------------------------
// Blocks
proof fn lemma_header_progress(t: Seq<SpecToken>, st: ParseState)
    requires
        0 <= st.pos < t.len(),
        t[st.pos].kind == TokenTypes::Header,
    ensures
        spec_header(t, st) matches Ok((st2, _b)) ==> advanced(t, st, st2),
        not_stalled(spec_header(t, st)),
{
    let n = run_length(t, st.pos, TokenTypes::Header);
    lemma_run_length(t, st.pos, TokenTypes::Header);
    let p = st.pos + n;
    let p2 = if kind_is(t, p, TokenTypes::WhiteSpace) {
        p + 1
    } else {
        p
    };
    let (st1, _attrs) = take_pending(at_pos(st, p2));
    lemma_run_progress(t, st1, InlineContext::Block, Seq::empty());
}

proof fn lemma_item_progress(t: Seq<SpecToken>, st: ParseState, ordered: bool)
    requires
        0 <= st.pos < t.len(),
    ensures
        spec_list_item(t, st, ordered) matches Ok((st2, _x)) ==> advanced(t, st, st2),
        not_stalled(spec_list_item(t, st, ordered)),
{
    let p = st.pos + 1;
    let p1 = if ordered && p < t.len() && t[p].value == Some(seq!['.']) {
        p + 1
    } else {
        p
    };
    let p2 = if kind_is(t, p1, TokenTypes::WhiteSpace) {
        p1 + 1
    } else {
        p1
    };
    let (st1, _attrs) = take_pending(at_pos(st, p2));
    lemma_run_progress(t, st1, InlineContext::Block, Seq::empty());
}

proof fn lemma_items_progress(
    t: Seq<SpecToken>,
    st: ParseState,
    ordered: bool,
    acc: Seq<crate::ast::SpecListItem>,
)
    requires
        0 <= st.pos <= t.len(),
    ensures
        spec_list_items(t, st, ordered, acc) matches Ok((st2, _x)) ==> st.pos <= st2.pos
            <= t.len() && (kind_is(t, skip_spaces(t, st.pos), item_marker(ordered)) ==> st.pos
            < st2.pos),
        not_stalled(spec_list_items(t, st, ordered, acc)),
    decreases t.len() - st.pos,
{
    let p = skip_spaces(t, st.pos);
    lemma_skip_spaces(t, st.pos);
    if kind_is(t, p, item_marker(ordered)) {
        lemma_item_progress(t, at_pos(st, p), ordered);
        match spec_list_item(t, at_pos(st, p), ordered) {
            Ok((st2, item)) => {
                lemma_items_progress(t, st2, ordered, acc.push(item));
            },
            Err(_) => {},
        }
    }
}

proof fn lemma_code_block_progress(t: Seq<SpecToken>, st: ParseState)
    requires
        0 <= st.pos <= t.len(),
    ensures
        spec_code_block(t, st) matches Ok((st2, _b)) ==> advanced(t, st, st2),
        not_stalled(spec_code_block(t, st)),
{
    let n = run_length(t, st.pos, TokenTypes::BackTick);
    lemma_run_length(t, st.pos, TokenTypes::BackTick);
    if n == 2 {
        crate::code_text::lemma_code_language(t, st.pos + 2, Seq::empty());
        let (p, _lang) = code_language(t, st.pos + 2, Seq::empty());
        crate::code_text::lemma_code_body(t, p, Seq::empty());
    }
}

/// A block moves forward and never stalls; where there is none, the
/// tokens are at their end.
proof fn lemma_block_progress(t: Seq<SpecToken>, st: ParseState)
    requires
        0 <= st.pos <= t.len(),
    ensures
        spec_block(t, st) matches Ok((st2, Some(_b))) ==> advanced(t, st, st2),
        spec_block(t, st) matches Ok((st2, None)) ==> st2.pos == t.len(),
        not_stalled(spec_block(t, st)),
    decreases t.len() - st.pos, 9int,
{
    let p = skip_blank(t, st.pos);
    lemma_skip_blank(t, st.pos);
    let s = at_pos(st, p);
    if p < t.len() {
        let k = t[p].kind;
        if k == TokenTypes::ClassBegin {
            lemma_attributes_progress(t, s);
            match spec_attributes(t, s) {
                Ok((st2, _u)) => {
                    lemma_block_progress(t, st2);
                },
                Err(_) => {},
            }
        } else if k == TokenTypes::Header {
            lemma_header_progress(t, s);
        } else if k == TokenTypes::BackTick && kind_is(t, p + 1, TokenTypes::BackTick) {
            lemma_code_block_progress(t, s);
        } else if k == TokenTypes::OrderedList {
            let (st1, _attrs) = take_pending(s);
            lemma_items_progress(t, st1, true, Seq::empty());
        } else if k == TokenTypes::Dash {
            let (st1, _attrs) = take_pending(s);
            lemma_items_progress(t, st1, false, Seq::empty());
        } else if k == TokenTypes::Colon && is_note_start(t, p) {
            lemma_note_progress(t, s);
        } else if k == TokenTypes::Colon && is_note_end(t, p) {
        } else {
            let (st1, _attrs) = take_pending(s);
            lemma_lines_progress(t, st1, Seq::empty());
        }
    }
}

proof fn lemma_note_progress(t: Seq<SpecToken>, st: ParseState)
    requires
        0 <= st.pos <= t.len(),
    ensures
        spec_note(t, st) matches Ok((st2, _b)) ==> advanced(t, st, st2),
        not_stalled(spec_note(t, st)),
    decreases t.len() - st.pos, 8int,
{
    if st.pos + 3 <= t.len() {
        lemma_note_body_progress(t, take_pending(at_pos(st, st.pos + 3)).0, Seq::empty());
    }
}

proof fn lemma_note_body_progress(t: Seq<SpecToken>, st: ParseState, acc: Seq<crate::ast::SpecBlock>)
    requires
        0 <= st.pos <= t.len(),
    ensures
        spec_note_body(t, st, acc) matches Ok((st2, _x)) ==> advanced(t, st, st2),
        not_stalled(spec_note_body(t, st, acc)),
    decreases t.len() - st.pos, 10int,
{
    let p = skip_blank(t, st.pos);
    lemma_skip_blank(t, st.pos);
    if p < t.len() && !is_note_end(t, p) {
        lemma_block_progress(t, at_pos(st, p));
        match spec_block(t, at_pos(st, p)) {
            Ok((st2, b)) => {
                let acc2 = match b {
                    Some(blk) => acc.push(blk),
                    None => acc,
                };
                lemma_note_body_progress(t, st2, acc2);
            },
            Err(_) => {},
        }
    }
}

proof fn lemma_blocks_progress(t: Seq<SpecToken>, st: ParseState, acc: Seq<crate::ast::SpecBlock>)
    requires
        0 <= st.pos <= t.len(),
    ensures
        not_stalled(spec_blocks(t, st, acc)),
    decreases t.len() - st.pos,
{
    if st.pos < t.len() {
        lemma_block_progress(t, st);
        match spec_block(t, st) {
            Ok((st2, b)) => {
                let acc2 = match b {
                    Some(blk) => acc.push(blk),
                    None => acc,
                };
                lemma_blocks_progress(t, st2, acc2);
            },
            Err(_) => {},
        }
    }
}

/// Every construct consumes at least one token: a parse from any position
/// within the tokens never ends in `NoProgress`, so the branches of the
/// grammar that give it are never taken.
pub proof fn law_parse_makes_progress(t: Seq<SpecToken>, st: ParseState)
    requires
        0 <= st.pos <= t.len(),
    ensures
        not_stalled(spec_parse(t, st)),
{
    lemma_blocks_progress(t, st, Seq::empty());
}

} // verus!

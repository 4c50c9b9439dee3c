use vstd::prelude::*;
use crate::ast::{SpecBlock, SpecDocument, SpecInline, SpecListItem};
use crate::parser_spec::{
    InlineContext, ParseError, ParseState, advanced, at_pos, code_span, continues_paragraph,
    is_note_end, is_note_start, kind_is, paragraph_lines, push_inline, push_text, skip_blank,
    skip_spaces, spec_attributes, spec_block, spec_blocks, spec_image, spec_link, spec_list_item,
    spec_list_items, spec_note, spec_note_body, spec_parse, spec_run, take_pending, text_of,
};
use crate::tokens::{SpecToken, TokenTypes};

verus! {

// ---------------------------------------------------------------------------
// Text is joined: no text node directly follows another
/// No text directly follows text in `s`, nor in the content of any of its
/// links, bold or italic spans.
pub open spec fn inlines_joined(s: Seq<SpecInline>) -> bool
    decreases s,
{
    if s.len() == 0 {
        true
    } else {
        &&& inlines_joined(s.drop_last())
        &&& inline_joined(s.last())
        &&& !(s.len() >= 2 && s.last() is Text && s[s.len() - 2] is Text)
    }
}

pub open spec fn inline_joined(x: SpecInline) -> bool
    decreases x,
{
    match x {
        SpecInline::Link { children, .. } => inlines_joined(children),
        SpecInline::Bold { children } => inlines_joined(children),
        SpecInline::Italic { children } => inlines_joined(children),
        _ => true,
    }
}

pub open spec fn items_joined(s: Seq<SpecListItem>) -> bool {
    forall|i: int| 0 <= i < s.len() ==> inlines_joined(#[trigger] s[i].children)
}

pub open spec fn block_joined(b: SpecBlock) -> bool
    decreases b,
{
    match b {
        SpecBlock::Paragraph { children, .. } => inlines_joined(children),
        SpecBlock::Header { children, .. } => inlines_joined(children),
        SpecBlock::OrderedList { children, .. } => items_joined(children),
        SpecBlock::UnorderedList { children, .. } => items_joined(children),
        SpecBlock::CodeBlock { .. } => true,
        SpecBlock::Note { children } => blocks_joined(children),
    }
}

pub open spec fn blocks_joined(s: Seq<SpecBlock>) -> bool
    decreases s,
{
    if s.len() == 0 {
        true
    } else {
        blocks_joined(s.drop_last()) && block_joined(s.last())
    }
}

/// Adding an inline keeps text joined: text that follows text joins it.
proof fn lemma_push_joined(acc: Seq<SpecInline>, x: SpecInline)
    requires
        inlines_joined(acc),
        inline_joined(x),
    ensures
        inlines_joined(push_inline(acc, x)),
{
    let r = push_inline(acc, x);
    if x is Text && acc.len() > 0 && acc.last() is Text {
        assert(r.drop_last() =~= acc.drop_last());
        if acc.len() >= 2 {
            assert(r[r.len() - 2] == acc[acc.len() - 2]);
        }
    } else {
        assert(r == acc.push(x));
        assert(r.drop_last() =~= acc);
        assert(r.last() == x);
        if acc.len() > 0 {
            assert(r[r.len() - 2] == acc.last());
        }
    }
    assert(inlines_joined(r) == (inlines_joined(r.drop_last()) && inline_joined(r.last()) && !(
    r.len() >= 2 && r.last() is Text && r[r.len() - 2] is Text)));
}

/// No text directly follows text in `s` (at its own level).
pub open spec fn texts_apart(s: Seq<SpecInline>) -> bool {
    forall|i: int, j: int|
        #![trigger s[i], s[j]]
        0 <= i && j == i + 1 && j < s.len() ==> !(s[i] is Text && s[j] is Text)
}

/// Adding an inline to a list of inlines: text that follows text joins it,
/// anything else goes at the end; a list in which no text follows text
/// keeps that so.
pub proof fn law_push_inline(acc: Seq<SpecInline>, x: SpecInline)
    ensures
        (x is Text && acc.len() > 0 && acc.last() is Text) ==> push_inline(acc, x)
            == acc.drop_last().push(
            SpecInline::Text { value: acc.last()->Text_value + x->Text_value },
        ),
        !(x is Text && acc.len() > 0 && acc.last() is Text) ==> push_inline(acc, x) == acc.push(x),
        texts_apart(acc) ==> texts_apart(push_inline(acc, x)),
{
    let r = push_inline(acc, x);
    if x is Text && acc.len() > 0 && acc.last() is Text {
        assert(r =~= acc.drop_last().push(
            SpecInline::Text { value: acc.last()->Text_value + x->Text_value },
        ));
        if texts_apart(acc) {
            assert forall|i: int, j: int|
                #![trigger r[i], r[j]]
                0 <= i && j == i + 1 && j < r.len() implies !(r[i] is Text && r[j] is Text) by {
                assert(acc[i] == r[i] || i == acc.len() - 1);
                if j < acc.len() - 1 {
                    assert(acc[j] == r[j]);
                    assert(!(acc[i] is Text && acc[j] is Text));
                } else {
                    assert(!(acc[i] is Text && acc[j] is Text));
                }
            }
        }
    } else {
        if texts_apart(acc) {
            assert forall|i: int, j: int|
                #![trigger r[i], r[j]]
                0 <= i && j == i + 1 && j < r.len() implies !(r[i] is Text && r[j] is Text) by {
                assert(r[i] == acc[i]);
                if j < acc.len() {
                    assert(r[j] == acc[j]);
                    assert(!(acc[i] is Text && acc[j] is Text));
                }
            }
        }
    }
}

/// Inline content keeps text joined.
proof fn lemma_run_joined(t: Seq<SpecToken>, st: ParseState, ctx: InlineContext, acc: Seq<SpecInline>)
    ensures
        spec_run(t, st, ctx, acc) matches Ok((_st2, res)) ==> (inlines_joined(acc)
            ==> inlines_joined(res)),
    decreases t.len() - st.pos, 5int,
{
    let p = st.pos;
    if 0 <= p < t.len() && inlines_joined(acc) {
        let k = t[p].kind;
        if k == TokenTypes::NewLine || (k == TokenTypes::AnchorValueEnd && ctx
            == InlineContext::Link) {
        } else if k == TokenTypes::AnchorURLStart || k == TokenTypes::AnchorValueStart {
            lemma_link_joined(t, st);
            match spec_link(t, st) {
                Ok((st2, link)) => if advanced(t, st, st2) {
                    lemma_push_joined(acc, link);
                    lemma_run_joined(t, st2, ctx, push_inline(acc, link));
                },
                Err(_) => {},
            }
        } else if k == TokenTypes::WhiteSpace {
            lemma_push_joined(acc, SpecInline::Text { value: seq![' '] });
            lemma_run_joined(t, at_pos(st, p + 1), ctx, push_text(acc, seq![' ']));
        } else if k == TokenTypes::Emphasis && ctx == InlineContext::Bold {
        } else if k == TokenTypes::UnderScore && ctx == InlineContext::Italic {
        } else if k == TokenTypes::Emphasis || k == TokenTypes::UnderScore {
            let inner = if k == TokenTypes::Emphasis {
                InlineContext::Bold
            } else {
                InlineContext::Italic
            };
            lemma_run_joined(t, at_pos(st, p + 1), inner, Seq::empty());
            match spec_run(t, at_pos(st, p + 1), inner, Seq::empty()) {
                Ok((st2, kids)) => {
                    let x = if k == TokenTypes::Emphasis {
                        SpecInline::Bold { children: kids }
                    } else {
                        SpecInline::Italic { children: kids }
                    };
                    if advanced(t, st, st2) {
                        lemma_push_joined(acc, x);
                        lemma_run_joined(t, st2, ctx, push_inline(acc, x));
                    }
                },
                Err(_) => {},
            }
        } else if k == TokenTypes::BackTick {
            match code_span(t, p + 1, Seq::empty()) {
                Some((q, code)) => if p < q <= t.len() {
                    lemma_push_joined(acc, SpecInline::InlineCode { code });
                    lemma_run_joined(
                        t,
                        at_pos(st, q),
                        ctx,
                        push_inline(acc, SpecInline::InlineCode { code }),
                    );
                },
                None => {},
            }
        } else if k == TokenTypes::Image && kind_is(t, p + 1, TokenTypes::AnchorValueStart) {
            match spec_image(t, st) {
                Ok((st2, img)) => if advanced(t, st, st2) {
                    lemma_push_joined(acc, img);
                    lemma_run_joined(t, st2, ctx, push_inline(acc, img));
                },
                Err(_) => {},
            }
        } else {
            lemma_push_joined(acc, SpecInline::Text { value: text_of(t[p]) });
            lemma_run_joined(t, at_pos(st, p + 1), ctx, push_text(acc, text_of(t[p])));
        }
    }
}

/// The lines of a paragraph keep text joined: the space between two lines
/// joins the text around it.
proof fn lemma_lines_joined(t: Seq<SpecToken>, st: ParseState, acc: Seq<SpecInline>)
    ensures
        paragraph_lines(t, st, acc) matches Ok((_st2, res)) ==> (inlines_joined(acc)
            ==> inlines_joined(res)),
    decreases t.len() - st.pos,
{
    if inlines_joined(acc) {
        lemma_run_joined(t, st, InlineContext::Block, acc);
        match spec_run(t, st, InlineContext::Block, acc) {
            Ok((st2, kids)) => if advanced(t, st, st2) && continues_paragraph(t, st2.pos) {
                lemma_push_joined(kids, SpecInline::Text { value: seq![' '] });
                lemma_lines_joined(t, at_pos(st2, skip_spaces(t, st2.pos)), push_text(kids, seq![' ']));
            },
            Err(_) => {},
        }
    }
}

/// The text of a link is joined.
proof fn lemma_link_joined(t: Seq<SpecToken>, st: ParseState)
    ensures
        spec_link(t, st) matches Ok((_st2, x)) ==> inline_joined(x),
    decreases t.len() - st.pos, 4int,
{
    if 0 <= st.pos < t.len() {
        let (st1, _attrs) = take_pending(at_pos(st, st.pos + 1));
        lemma_run_joined(t, st1, InlineContext::Link, Seq::empty());
    }
}

/// The content of each list item is joined.
proof fn lemma_items_joined(t: Seq<SpecToken>, st: ParseState, ordered: bool, acc: Seq<SpecListItem>)
    ensures
        spec_list_items(t, st, ordered, acc) matches Ok((_st2, res)) ==> (items_joined(acc)
            ==> items_joined(res)),
    decreases t.len() - st.pos, 7int,
{
    let p = skip_spaces(t, st.pos);
    if !(st.pos < 0 || st.pos > p || p > t.len()) && kind_is(
        t,
        p,
        crate::parser_spec::item_marker(ordered),
    ) && items_joined(acc) {
        match spec_list_item(t, at_pos(st, p), ordered) {
            Ok((st2, item)) => if advanced(t, st, st2) {
                let q = p + 1;
                let p1 = if ordered && q < t.len() && t[q].value == Some(seq!['.']) {
                    q + 1
                } else {
                    q
                };
                let p2 = if kind_is(t, p1, TokenTypes::WhiteSpace) {
                    p1 + 1
                } else {
                    p1
                };
                let (st1, _attrs) = take_pending(at_pos(at_pos(st, p), p2));
                lemma_run_joined(t, st1, InlineContext::Block, Seq::empty());
                let acc2 = acc.push(item);
                assert forall|i: int| 0 <= i < acc2.len() implies inlines_joined(
                    #[trigger] acc2[i].children,
                ) by {
                    if i < acc.len() {
                        assert(acc2[i] == acc[i]);
                    }
                }
                lemma_items_joined(t, st2, ordered, acc2);
            },
            Err(_) => {},
        }
    }
}

/// A block keeps text joined.
proof fn lemma_block_joined(t: Seq<SpecToken>, st: ParseState)
    ensures
        spec_block(t, st) matches Ok((_st2, Some(b))) ==> block_joined(b),
    decreases t.len() - st.pos, 9int,
{
    let p = skip_blank(t, st.pos);
    let s = at_pos(st, p);
    assert(inlines_joined(Seq::<SpecInline>::empty()));
    if !(st.pos < 0 || st.pos > p || p > t.len()) && p != t.len() {
        let k = t[p].kind;
        if k == TokenTypes::ClassBegin {
            match spec_attributes(t, s) {
                Ok((st2, _u)) => if advanced(t, s, st2) {
                    lemma_block_joined(t, st2);
                },
                Err(_) => {},
            }
        } else if k == TokenTypes::Header {
            let n = crate::parser_spec::run_length(t, s.pos, TokenTypes::Header);
            let p1 = s.pos + n;
            let p2 = if kind_is(t, p1, TokenTypes::WhiteSpace) {
                p1 + 1
            } else {
                p1
            };
            if s.pos <= p2 <= t.len() {
                let (st1, _attrs) = take_pending(at_pos(s, p2));
                lemma_run_joined(t, st1, InlineContext::Block, Seq::empty());
            }
        } else if k == TokenTypes::BackTick && kind_is(t, p + 1, TokenTypes::BackTick) {
        } else if k == TokenTypes::OrderedList {
            let (st1, _attrs) = take_pending(s);
            lemma_items_joined(t, st1, true, Seq::empty());
        } else if k == TokenTypes::Dash {
            let (st1, _attrs) = take_pending(s);
            lemma_items_joined(t, st1, false, Seq::empty());
        } else if k == TokenTypes::Colon && is_note_start(t, p) {
            if !(s.pos < 0 || s.pos + 3 > t.len()) {
                let s1 = take_pending(at_pos(s, s.pos + 3)).0;
                assert(blocks_joined(Seq::<SpecBlock>::empty()));
                lemma_note_body_joined(t, s1, Seq::empty());
                match spec_note_body(t, s1, Seq::empty()) {
                    Ok((st2, kids)) => {
                        assert(block_joined(SpecBlock::Note { children: kids }));
                        assert(spec_note(t, s) == Ok::<(ParseState, SpecBlock), ParseError>(
                            (st2, SpecBlock::Note { children: kids }),
                        ));
                    },
                    Err(_) => {},
                }
            }
        } else if k == TokenTypes::Colon && is_note_end(t, p) {
        } else {
            let (st1, _attrs) = take_pending(s);
            lemma_lines_joined(t, st1, Seq::empty());
        }
    }
}

/// The blocks of a note keep text joined.
proof fn lemma_note_body_joined(t: Seq<SpecToken>, st: ParseState, acc: Seq<SpecBlock>)
    ensures
        spec_note_body(t, st, acc) matches Ok((_st2, res)) ==> (blocks_joined(acc)
            ==> blocks_joined(res)),
    decreases t.len() - st.pos, 10int,
{
    let p = skip_blank(t, st.pos);
    if !(st.pos < 0 || st.pos > p || p > t.len()) && p != t.len() && !is_note_end(t, p) {
        lemma_block_joined(t, at_pos(st, p));
        match spec_block(t, at_pos(st, p)) {
            Ok((st2, b)) => if advanced(t, st, st2) {
                let acc2 = match b {
                    Some(blk) => acc.push(blk),
                    None => acc,
                };
                if let Some(blk) = b {
                    assert(acc.push(blk).drop_last() == acc);
                }
                lemma_note_body_joined(t, st2, acc2);
            },
            Err(_) => {},
        }
    }
}

proof fn lemma_blocks_joined(t: Seq<SpecToken>, st: ParseState, acc: Seq<SpecBlock>)
    ensures
        spec_blocks(t, st, acc) matches Ok((_st2, res)) ==> (blocks_joined(acc) ==> blocks_joined(
            res,
        )),
    decreases t.len() - st.pos,
{
    if 0 <= st.pos < t.len() {
        lemma_block_joined(t, st);
        match spec_block(t, st) {
            Ok((st2, b)) => if advanced(t, st, st2) {
                let acc2 = match b {
                    Some(blk) => acc.push(blk),
                    None => acc,
                };
                if let Some(blk) = b {
                    assert(acc.push(blk).drop_last() == acc);
                }
                lemma_blocks_joined(t, st2, acc2);
            },
            Err(_) => {},
        }
    }
}

/// Text never directly follows text in a parsed document: neighbouring
/// words, spaces and symbols read as text are joined into one text node,
/// in every paragraph, header, list item, link, bold and italic span.
pub proof fn law_text_is_joined(t: Seq<SpecToken>, st: ParseState)
    ensures
        spec_parse(t, st) matches Ok((_st2, d)) ==> document_joined(d),
{
    lemma_blocks_joined(t, st, Seq::empty());
}

pub open spec fn document_joined(d: SpecDocument) -> bool {
    blocks_joined(d.children)
}

} // verus!

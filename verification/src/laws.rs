use vstd::prelude::*;
use crate::ast::{SpecAttributes, SpecBlock, SpecDocument, SpecInline, SpecListItem, empty_attrs};
use crate::parser_spec::{
    InlineContext, ParseError, ParseState, advanced, at_pos, code_span, continues_paragraph, is_note_end,
    is_note_start, kind_is, paragraph_lines, push_inline, push_text, skip_blank, skip_spaces,
    spec_attributes, spec_block, spec_blocks, spec_code_block, spec_header, spec_image, spec_link,
    spec_list_item, spec_list_items, spec_note, spec_note_body, spec_ordered_list, spec_paragraph,
    spec_parse, spec_run, spec_unordered_list, take_pending, text_of,
};
use crate::parser::initial_state;
use crate::tokens::{SpecToken, TokenTypes};

verus! {

/// No text occurs twice in `s`.
pub open spec fn no_dup(s: Seq<Seq<char>>) -> bool {
    forall|i: int, j: int| 0 <= i < j < s.len() ==> s[i] != s[j]
}

/// Inline content declares no ids and, once no attributes are pending,
/// leaves none pending.
proof fn lemma_run(t: Seq<SpecToken>, st: ParseState, ctx: InlineContext, acc: Seq<SpecInline>)
    ensures
        spec_run(t, st, ctx, acc) matches Ok((st2, _v)) ==> st2.ids == st.ids && (st.pending
            == empty_attrs() ==> st2.pending == empty_attrs()),
    decreases t.len() - st.pos, 5int,
{
    let p = st.pos;
    if 0 <= p < t.len() {
        let k = t[p].kind;
        if k == TokenTypes::NewLine || (k == TokenTypes::AnchorValueEnd && ctx
            == InlineContext::Link) {
        } else if k == TokenTypes::AnchorURLStart || k == TokenTypes::AnchorValueStart {
            lemma_link(t, st);
            match spec_link(t, st) {
                Ok((st2, link)) => if advanced(t, st, st2) {
                    lemma_run(t, st2, ctx, push_inline(acc, link));
                },
                Err(_) => {},
            }
        } else if k == TokenTypes::WhiteSpace {
            lemma_run(t, at_pos(st, p + 1), ctx, push_text(acc, seq![' ']));
        } else if k == TokenTypes::Emphasis && ctx == InlineContext::Bold {
        } else if k == TokenTypes::UnderScore && ctx == InlineContext::Italic {
        } else if k == TokenTypes::Emphasis || k == TokenTypes::UnderScore {
            let inner = if k == TokenTypes::Emphasis {
                InlineContext::Bold
            } else {
                InlineContext::Italic
            };
            lemma_run(t, at_pos(st, p + 1), inner, Seq::empty());
            match spec_run(t, at_pos(st, p + 1), inner, Seq::empty()) {
                Ok((st2, kids)) => {
                    let x = if k == TokenTypes::Emphasis {
                        SpecInline::Bold { children: kids }
                    } else {
                        SpecInline::Italic { children: kids }
                    };
                    if advanced(t, st, st2) {
                        lemma_run(t, st2, ctx, push_inline(acc, x));
                    }
                },
                Err(_) => {},
            }
        } else if k == TokenTypes::BackTick {
            match code_span(t, p + 1, Seq::empty()) {
                Some((q, code)) => if p < q <= t.len() {
                    lemma_run(
                        t,
                        at_pos(st, q),
                        ctx,
                        push_inline(acc, SpecInline::InlineCode { code }),
                    );
                },
                None => {},
            }
        } else if k == TokenTypes::Image && kind_is(t, p + 1, TokenTypes::AnchorValueStart) {
            match spec_image(t, st) {
                Ok((st2, img)) => if advanced(t, st, st2) {
                    lemma_run(t, st2, ctx, push_inline(acc, img));
                },
                Err(_) => {},
            }
        } else {
            lemma_run(t, at_pos(st, p + 1), ctx, push_text(acc, text_of(t[p])));
        }
    }
}

/// A link declares no ids and leaves no attributes pending.
proof fn lemma_link(t: Seq<SpecToken>, st: ParseState)
    ensures
        spec_link(t, st) matches Ok((st2, _x)) ==> st2.ids == st.ids && st2.pending
            == empty_attrs(),
    decreases t.len() - st.pos, 4int,
{
    if 0 <= st.pos < t.len() {
        let (st1, _attrs) = take_pending(at_pos(st, st.pos + 1));
        lemma_run(t, st1, InlineContext::Link, Seq::empty());
    }
}

/// A list item declares no ids and leaves no attributes pending.
proof fn lemma_list_item(t: Seq<SpecToken>, st: ParseState, ordered: bool)
    ensures
        spec_list_item(t, st, ordered) matches Ok((st2, _x)) ==> st2.ids == st.ids && st2.pending
            == empty_attrs(),
    decreases t.len() - st.pos, 6int,
{
    if 0 <= st.pos < t.len() {
        let p = st.pos + 1;
        let p1 = if ordered && p < t.len() && t[p].value == Some(seq!['.']) {
            p + 1
        } else {
            p
        };
        let p2 = if kind_is(t, p1, TokenTypes::WhiteSpace) {
            p1 + 1
        } else {
            p1
        };
        let (st1, _attrs) = take_pending(at_pos(st, p2));
        lemma_run(t, st1, InlineContext::Block, Seq::empty());
    }
}

/// The items of a list declare no ids and, once no attributes are pending,
/// leave none pending.
proof fn lemma_list_items(
    t: Seq<SpecToken>,
    st: ParseState,
    ordered: bool,
    acc: Seq<crate::ast::SpecListItem>,
)
    ensures
        spec_list_items(t, st, ordered, acc) matches Ok((st2, _x)) ==> st2.ids == st.ids && (
        st.pending == empty_attrs() ==> st2.pending == empty_attrs()),
    decreases t.len() - st.pos, 7int,
{
    let p = skip_spaces(t, st.pos);
    if !(st.pos < 0 || st.pos > p || p > t.len()) && kind_is(
        t,
        p,
        crate::parser_spec::item_marker(ordered),
    ) {
        lemma_list_item(t, at_pos(st, p), ordered);
        match spec_list_item(t, at_pos(st, p), ordered) {
            Ok((st2, item)) => if advanced(t, st, st2) {
                lemma_list_items(t, st2, ordered, acc.push(item));
            },
            Err(_) => {},
        }
    }
}

/// The blocks of a note keep the declared ids distinct and, once no
/// attributes are pending, leave none pending.
proof fn lemma_note_body(t: Seq<SpecToken>, st: ParseState, acc: Seq<SpecBlock>)
    ensures
        spec_note_body(t, st, acc) matches Ok((st2, _x)) ==> (no_dup(st.ids) ==> no_dup(st2.ids))
            && (st.pending == empty_attrs() ==> st2.pending == empty_attrs()),
    decreases t.len() - st.pos, 10int,
{
    let p = skip_blank(t, st.pos);
    if !(st.pos < 0 || st.pos > p || p > t.len()) && p != t.len() && !is_note_end(t, p) {
        lemma_block(t, at_pos(st, p));
        match spec_block(t, at_pos(st, p)) {
            Ok((st2, b)) => if advanced(t, st, st2) {
                let acc2 = match b {
                    Some(blk) => acc.push(blk),
                    None => acc,
                };
                lemma_note_body(t, st2, acc2);
                if b is None {
                    assert(skip_blank(t, st2.pos) == st2.pos);
                }
            },
            Err(_) => {},
        }
    }
}

/// A block keeps the declared ids distinct and leaves no attributes
/// pending; where there is no block, the tokens are at their end.
proof fn lemma_block(t: Seq<SpecToken>, st: ParseState)
    ensures
        spec_block(t, st) matches Ok((st2, b)) ==> (no_dup(st.ids) ==> no_dup(st2.ids)) && (b
            is Some ==> st2.pending == empty_attrs()) && (b is None ==> st2.pos == t.len()),
    decreases t.len() - st.pos, 9int,
{
    let p = skip_blank(t, st.pos);
    let s = at_pos(st, p);
    if !(st.pos < 0 || st.pos > p || p > t.len()) && p != t.len() {
        let k = t[p].kind;
        if k == TokenTypes::ClassBegin {
            lemma_attributes(t, s);
            match spec_attributes(t, s) {
                Ok((st2, _u)) => if advanced(t, s, st2) {
                    lemma_block(t, st2);
                },
                Err(_) => {},
            }
        } else if k == TokenTypes::Header {
            lemma_header(t, s);
        } else if k == TokenTypes::BackTick && kind_is(t, p + 1, TokenTypes::BackTick) {
        } else if k == TokenTypes::OrderedList {
            lemma_ordered_list(t, s);
        } else if k == TokenTypes::Dash {
            lemma_unordered_list(t, s);
        } else if k == TokenTypes::Colon && is_note_start(t, p) {
            lemma_note(t, s);
        } else if k == TokenTypes::Colon && is_note_end(t, p) {
        } else {
            lemma_paragraph(t, s);
        }
    }
}

proof fn lemma_header(t: Seq<SpecToken>, st: ParseState)
    ensures
        spec_header(t, st) matches Ok((st2, _b)) ==> st2.ids == st.ids && st2.pending
            == empty_attrs(),
    decreases t.len() - st.pos, 8int,
{
    let n = crate::parser_spec::run_length(t, st.pos, TokenTypes::Header);
    let p = st.pos + n;
    let p2 = if kind_is(t, p, TokenTypes::WhiteSpace) {
        p + 1
    } else {
        p
    };
    let (st1, _attrs) = take_pending(at_pos(st, p2));
    if n <= 255 && st.pos <= p2 <= t.len() {
        lemma_run(t, st1, InlineContext::Block, Seq::empty());
    }
}

proof fn lemma_paragraph(t: Seq<SpecToken>, st: ParseState)
    ensures
        spec_paragraph(t, st) matches Ok((st2, _b)) ==> st2.ids == st.ids && st2.pending
            == empty_attrs(),
    decreases t.len() - st.pos, 8int,
{
    let (st1, _attrs) = take_pending(st);
    lemma_lines(t, st1, Seq::empty());
}

/// The lines of a paragraph declare no ids and, once no attributes are
/// pending, leave none pending.
proof fn lemma_lines(t: Seq<SpecToken>, st: ParseState, acc: Seq<SpecInline>)
    ensures
        paragraph_lines(t, st, acc) matches Ok((st2, _v)) ==> st2.ids == st.ids && (st.pending
            == empty_attrs() ==> st2.pending == empty_attrs()),
    decreases t.len() - st.pos,
{
    lemma_run(t, st, InlineContext::Block, acc);
    match spec_run(t, st, InlineContext::Block, acc) {
        Ok((st2, kids)) => if advanced(t, st, st2) && continues_paragraph(t, st2.pos) {
            lemma_lines(t, at_pos(st2, skip_spaces(t, st2.pos)), push_text(kids, seq![' ']));
        },
        Err(_) => {},
    }
}

proof fn lemma_ordered_list(t: Seq<SpecToken>, st: ParseState)
    ensures
        spec_ordered_list(t, st) matches Ok((st2, _b)) ==> st2.ids == st.ids && st2.pending
            == empty_attrs(),
    decreases t.len() - st.pos, 8int,
{
    let (st1, _attrs) = take_pending(st);
    lemma_list_items(t, st1, true, Seq::empty());
}

proof fn lemma_unordered_list(t: Seq<SpecToken>, st: ParseState)
    ensures
        spec_unordered_list(t, st) matches Ok((st2, _b)) ==> st2.ids == st.ids && st2.pending
            == empty_attrs(),
    decreases t.len() - st.pos, 8int,
{
    let (st1, _attrs) = take_pending(st);
    lemma_list_items(t, st1, false, Seq::empty());
}

proof fn lemma_note(t: Seq<SpecToken>, st: ParseState)
    ensures
        spec_note(t, st) matches Ok((st2, _b)) ==> (no_dup(st.ids) ==> no_dup(st2.ids)) && st2.pending
            == empty_attrs(),
    decreases t.len() - st.pos, 8int,
{
    if !(st.pos < 0 || st.pos + 3 > t.len()) {
        lemma_note_body(t, take_pending(at_pos(st, st.pos + 3)).0, Seq::empty());
    }
}

/// An attribute line keeps the declared ids distinct.
proof fn lemma_attributes(t: Seq<SpecToken>, st: ParseState)
    ensures
        spec_attributes(t, st) matches Ok((st2, _u)) ==> (no_dup(st.ids) ==> no_dup(st2.ids)),
{
    match spec_attributes(t, st) {
        Ok((st2, _u)) => {
            if no_dup(st.ids) && st2.ids != st.ids {
                let x = st2.ids.last();
                assert(st2.ids == st.ids.push(x));
                assert(!st.ids.contains(x));
                assert forall|i: int, j: int| 0 <= i < j < st2.ids.len() implies st2.ids[i]
                    != st2.ids[j] by {
                    if j == st2.ids.len() - 1 {
                        assert(st.ids[i] == st2.ids[i]);
                    }
                }
            }
        },
        Err(_) => {},
    }
}

/// A paragraph takes the attributes that wait for it and leaves none
/// waiting; it declares no ids.
pub proof fn law_paragraph_takes_pending_attributes(t: Seq<SpecToken>, st: ParseState)
    ensures
        spec_paragraph(t, st) matches Ok((st2, b)) ==> (b matches SpecBlock::Paragraph {
            attrs,
            ..
        } && attrs == st.pending) && st2.pending == empty_attrs() && st2.ids == st.ids,
{
    lemma_paragraph(t, st);
}

/// Attributes apply only to the next block: once a block is parsed, no
/// attributes are left pending for the blocks after it.
pub proof fn law_attributes_apply_to_next_block_only(t: Seq<SpecToken>, st: ParseState)
    ensures
        spec_block(t, st) matches Ok((st2, Some(_b))) ==> st2.pending == empty_attrs(),
{
    lemma_block(t, st);
}

proof fn lemma_blocks(t: Seq<SpecToken>, st: ParseState, acc: Seq<SpecBlock>)
    ensures
        spec_blocks(t, st, acc) matches Ok((st2, _v)) ==> (no_dup(st.ids) ==> no_dup(st2.ids)),
    decreases t.len() - st.pos,
{
    if 0 <= st.pos < t.len() {
        lemma_block(t, st);
        match spec_block(t, st) {
            Ok((st2, b)) => if advanced(t, st, st2) {
                let acc2 = match b {
                    Some(blk) => acc.push(blk),
                    None => acc,
                };
                lemma_blocks(t, st2, acc2);
            },
            Err(_) => {},
        }
    }
}

/// Ids are unique across a document: every id that a successful parse
/// declares differs from every other id declared before or during it.
pub proof fn law_declared_ids_distinct(t: Seq<SpecToken>, st: ParseState)
    requires
        no_dup(st.ids),
    ensures
        spec_parse(t, st) matches Ok((st2, _d)) ==> no_dup(st2.ids),
{
    lemma_blocks(t, st, Seq::empty());
}

// ---------------------------------------------------------------------------
// The ids that a document carries
/// The id of a set of attributes, as a sequence of none or one id.
pub open spec fn opt_id(a: SpecAttributes) -> Seq<Seq<char>> {
    match a.id {
        Some(x) => seq![x],
        None => Seq::empty(),
    }
}

pub open spec fn inline_ids(x: SpecInline) -> Seq<Seq<char>>
    decreases x,
{
    match x {
        SpecInline::Image { attrs, .. } => opt_id(attrs),
        SpecInline::Link { children, attrs, .. } => opt_id(attrs) + inlines_ids(children),
        SpecInline::Bold { children } => inlines_ids(children),
        SpecInline::Italic { children } => inlines_ids(children),
        _ => Seq::empty(),
    }
}

pub open spec fn inlines_ids(s: Seq<SpecInline>) -> Seq<Seq<char>>
    decreases s,
{
    if s.len() == 0 {
        Seq::empty()
    } else {
        inlines_ids(s.drop_last()) + inline_ids(s.last())
    }
}

pub open spec fn item_ids(it: SpecListItem) -> Seq<Seq<char>> {
    opt_id(it.attrs) + inlines_ids(it.children)
}

pub open spec fn items_ids(s: Seq<SpecListItem>) -> Seq<Seq<char>>
    decreases s.len(),
{
    if s.len() == 0 {
        Seq::empty()
    } else {
        items_ids(s.drop_last()) + item_ids(s.last())
    }
}

pub open spec fn block_ids(b: SpecBlock) -> Seq<Seq<char>>
    decreases b,
{
    match b {
        SpecBlock::Paragraph { attrs, children } => opt_id(attrs) + inlines_ids(children),
        SpecBlock::Header { attrs, children, .. } => opt_id(attrs) + inlines_ids(children),
        SpecBlock::OrderedList { attrs, children, .. } => opt_id(attrs) + items_ids(children),
        SpecBlock::UnorderedList { attrs, children } => opt_id(attrs) + items_ids(children),
        SpecBlock::CodeBlock { .. } => Seq::empty(),
        SpecBlock::Note { children } => blocks_ids(children),
    }
}

pub open spec fn blocks_ids(s: Seq<SpecBlock>) -> Seq<Seq<char>>
    decreases s,
{
    if s.len() == 0 {
        Seq::empty()
    } else {
        blocks_ids(s.drop_last()) + block_ids(s.last())
    }
}

/// Every id that a document's blocks, list items, links and images carry,
/// in document order.
pub open spec fn document_ids(d: SpecDocument) -> Seq<Seq<char>> {
    blocks_ids(d.children)
}

pub open spec fn opt_block_ids(b: Option<SpecBlock>) -> Seq<Seq<char>> {
    match b {
        Some(x) => block_ids(x),
        None => Seq::empty(),
    }
}

/// The ids used so far are distinct and declared, and the pending id, if
/// any, is declared and not used yet.
pub open spec fn ids_ok(used: Seq<Seq<char>>, st: ParseState) -> bool {
    &&& no_dup(st.ids)
    &&& no_dup(used)
    &&& forall|i: int| 0 <= i < used.len() ==> st.ids.contains(#[trigger] used[i])
    &&& match st.pending.id {
        Some(x) => st.ids.contains(x) && !used.contains(x),
        None => true,
    }
}

pub open spec fn is_prefix(a: Seq<Seq<char>>, b: Seq<Seq<char>>) -> bool {
    a.len() <= b.len() && b.take(a.len() as int) == a
}

proof fn lemma_push_inline_ids(acc: Seq<SpecInline>, x: SpecInline)
    requires
        inlines_ids(acc).len() == 0,
        inline_ids(x).len() == 0,
    ensures
        inlines_ids(push_inline(acc, x)).len() == 0,
{
    let r = push_inline(acc, x);
    if r == acc.push(x) {
        assert(r.drop_last() == acc);
        assert(inlines_ids(r) == inlines_ids(r.drop_last()) + inline_ids(r.last()));
    } else {
        assert(r.drop_last() == acc.drop_last());
        assert(inlines_ids(acc) == inlines_ids(acc.drop_last()) + inline_ids(acc.last()));
        assert(r.last() is Text);
        assert(inlines_ids(r) == inlines_ids(r.drop_last()) + inline_ids(r.last()));
    }
}

/// Inline content after its block took the pending attributes carries no ids.
proof fn lemma_run_ids(t: Seq<SpecToken>, st: ParseState, ctx: InlineContext, acc: Seq<SpecInline>)
    ensures
        spec_run(t, st, ctx, acc) matches Ok((_st2, res)) ==> (st.pending == empty_attrs()
            && inlines_ids(acc).len() == 0 ==> inlines_ids(res).len() == 0),
    decreases t.len() - st.pos, 5int,
{
    let p = st.pos;
    if 0 <= p < t.len() && st.pending == empty_attrs() && inlines_ids(acc).len() == 0 {
        let k = t[p].kind;
        if k == TokenTypes::NewLine || (k == TokenTypes::AnchorValueEnd && ctx
            == InlineContext::Link) {
        } else if k == TokenTypes::AnchorURLStart || k == TokenTypes::AnchorValueStart {
            lemma_link_ids(t, st);
            lemma_link(t, st);
            match spec_link(t, st) {
                Ok((st2, link)) => if advanced(t, st, st2) {
                    lemma_push_inline_ids(acc, link);
                    lemma_run_ids(t, st2, ctx, push_inline(acc, link));
                },
                Err(_) => {},
            }
        } else if k == TokenTypes::WhiteSpace {
            lemma_push_inline_ids(acc, SpecInline::Text { value: seq![' '] });
            lemma_run_ids(t, at_pos(st, p + 1), ctx, push_text(acc, seq![' ']));
        } else if k == TokenTypes::Emphasis && ctx == InlineContext::Bold {
        } else if k == TokenTypes::UnderScore && ctx == InlineContext::Italic {
        } else if k == TokenTypes::Emphasis || k == TokenTypes::UnderScore {
            let inner = if k == TokenTypes::Emphasis {
                InlineContext::Bold
            } else {
                InlineContext::Italic
            };
            lemma_run_ids(t, at_pos(st, p + 1), inner, Seq::empty());
            lemma_run(t, at_pos(st, p + 1), inner, Seq::empty());
            match spec_run(t, at_pos(st, p + 1), inner, Seq::empty()) {
                Ok((st2, kids)) => {
                    let x = if k == TokenTypes::Emphasis {
                        SpecInline::Bold { children: kids }
                    } else {
                        SpecInline::Italic { children: kids }
                    };
                    if advanced(t, st, st2) {
                        lemma_push_inline_ids(acc, x);
                        lemma_run_ids(t, st2, ctx, push_inline(acc, x));
                    }
                },
                Err(_) => {},
            }
        } else if k == TokenTypes::BackTick {
            match code_span(t, p + 1, Seq::empty()) {
                Some((q, code)) => if p < q <= t.len() {
                    lemma_push_inline_ids(acc, SpecInline::InlineCode { code });
                    lemma_run_ids(
                        t,
                        at_pos(st, q),
                        ctx,
                        push_inline(acc, SpecInline::InlineCode { code }),
                    );
                },
                None => {},
            }
        } else if k == TokenTypes::Image && kind_is(t, p + 1, TokenTypes::AnchorValueStart) {
            match spec_image(t, st) {
                Ok((st2, img)) => if advanced(t, st, st2) {
                    lemma_push_inline_ids(acc, img);
                    lemma_run_ids(t, st2, ctx, push_inline(acc, img));
                },
                Err(_) => {},
            }
        } else {
            lemma_push_inline_ids(acc, SpecInline::Text { value: text_of(t[p]) });
            lemma_run_ids(t, at_pos(st, p + 1), ctx, push_text(acc, text_of(t[p])));
        }
    }
}

/// The lines of a paragraph, after it took the pending attributes, carry
/// no ids.
proof fn lemma_lines_ids(t: Seq<SpecToken>, st: ParseState, acc: Seq<SpecInline>)
    ensures
        paragraph_lines(t, st, acc) matches Ok((_st2, res)) ==> (st.pending == empty_attrs()
            && inlines_ids(acc).len() == 0 ==> inlines_ids(res).len() == 0),
    decreases t.len() - st.pos,
{
    if st.pending == empty_attrs() && inlines_ids(acc).len() == 0 {
        lemma_run_ids(t, st, InlineContext::Block, acc);
        lemma_run(t, st, InlineContext::Block, acc);
        match spec_run(t, st, InlineContext::Block, acc) {
            Ok((st2, kids)) => if advanced(t, st, st2) && continues_paragraph(t, st2.pos) {
                lemma_push_inline_ids(kids, SpecInline::Text { value: seq![' '] });
                lemma_lines_ids(t, at_pos(st2, skip_spaces(t, st2.pos)), push_text(kids, seq![' ']));
            },
            Err(_) => {},
        }
    }
}

/// A link inside inline content carries no ids.
proof fn lemma_link_ids(t: Seq<SpecToken>, st: ParseState)
    ensures
        spec_link(t, st) matches Ok((_st2, x)) ==> (st.pending == empty_attrs() ==> inline_ids(
            x,
        ).len() == 0),
    decreases t.len() - st.pos, 4int,
{
    if 0 <= st.pos < t.len() {
        let (st1, _attrs) = take_pending(at_pos(st, st.pos + 1));
        lemma_run_ids(t, st1, InlineContext::Link, Seq::empty());
    }
}

/// The items of a list carry no ids of their own.
proof fn lemma_items_ids(t: Seq<SpecToken>, st: ParseState, ordered: bool, acc: Seq<SpecListItem>)
    ensures
        spec_list_items(t, st, ordered, acc) matches Ok((_st2, res)) ==> (st.pending
            == empty_attrs() && items_ids(acc).len() == 0 ==> items_ids(res).len() == 0),
    decreases t.len() - st.pos, 7int,
{
    let p = skip_spaces(t, st.pos);
    if !(st.pos < 0 || st.pos > p || p > t.len()) && kind_is(
        t,
        p,
        crate::parser_spec::item_marker(ordered),
    ) && st.pending == empty_attrs() && items_ids(acc).len() == 0 {
        lemma_list_item(t, at_pos(st, p), ordered);
        match spec_list_item(t, at_pos(st, p), ordered) {
            Ok((st2, item)) => if advanced(t, st, st2) {
                let q = at_pos(st, p).pos + 1;
                let p1 = if ordered && q < t.len() && t[q].value == Some(seq!['.']) {
                    q + 1
                } else {
                    q
                };
                let p2 = if kind_is(t, p1, TokenTypes::WhiteSpace) {
                    p1 + 1
                } else {
                    p1
                };
                let (st1, _attrs) = take_pending(at_pos(at_pos(st, p), p2));
                lemma_run_ids(t, st1, InlineContext::Block, Seq::empty());
                assert(acc.push(item).drop_last() == acc);
                lemma_items_ids(t, st2, ordered, acc.push(item));
            },
            Err(_) => {},
        }
    }
}

proof fn lemma_no_dup_push(s: Seq<Seq<char>>, x: Seq<char>)
    requires
        no_dup(s),
        !s.contains(x),
    ensures
        no_dup(s.push(x)),
{
    assert forall|i: int, j: int| 0 <= i < j < s.push(x).len() implies s.push(x)[i] != s.push(
        x,
    )[j] by {
        if j == s.len() {
            assert(s[i] == s.push(x)[i]);
        }
    }
}

/// Taking the pending attributes into a node keeps `ids_ok`.
proof fn lemma_take_ids(used: Seq<Seq<char>>, st: ParseState, st2: ParseState)
    requires
        ids_ok(used, st),
        st2.ids == st.ids,
        st2.pending == empty_attrs(),
    ensures
        ids_ok(used + opt_id(st.pending), st2),
{
    match st.pending.id {
        Some(x) => {
            assert(used + opt_id(st.pending) == used.push(x));
            lemma_no_dup_push(used, x);
        },
        None => {
            assert(used + opt_id(st.pending) == used);
        },
    }
}

/// A prefix of a prefix is a prefix.
proof fn lemma_prefix_trans(a: Seq<Seq<char>>, b: Seq<Seq<char>>, c: Seq<Seq<char>>)
    requires
        is_prefix(a, b),
        is_prefix(b, c),
    ensures
        is_prefix(a, c),
{
    assert(c.take(a.len() as int) == c.take(b.len() as int).take(a.len() as int));
}

/// `ids_ok` carries over to a later state whose ids extend the earlier ones
/// and whose pending id is none.
proof fn lemma_ids_ok_weaken(used: Seq<Seq<char>>, st: ParseState, st2: ParseState)
    requires
        ids_ok(used, st),
        no_dup(st2.ids),
        is_prefix(st.ids, st2.ids),
        st2.pending.id is None,
    ensures
        ids_ok(used, st2),
{
    assert forall|i: int| 0 <= i < used.len() implies st2.ids.contains(#[trigger] used[i]) by {
        let k = choose|k: int| 0 <= k < st.ids.len() && st.ids[k] == used[i];
        assert(st2.ids[k] == st2.ids.take(st.ids.len() as int)[k]);
    }
}

/// An attribute line keeps `ids_ok`: its id is new, so it is unused.
proof fn lemma_attributes_ids(used: Seq<Seq<char>>, t: Seq<SpecToken>, st: ParseState)
    requires
        ids_ok(used, st),
    ensures
        spec_attributes(t, st) matches Ok((st2, _u)) ==> ids_ok(used, st2) && is_prefix(
            st.ids,
            st2.ids,
        ),
{
    lemma_attributes(t, st);
    match spec_attributes(t, st) {
        Ok((st2, _u)) => {
            if st2.ids == st.ids {
                assert(st2.ids.take(st.ids.len() as int) == st.ids);
            } else {
                let x = st2.ids.last();
                assert(st2.ids == st.ids.push(x));
                assert(st2.ids.take(st.ids.len() as int) == st.ids);
                assert forall|i: int| 0 <= i < used.len() implies st2.ids.contains(
                    #[trigger] used[i],
                ) by {
                    let k = choose|k: int| 0 <= k < st.ids.len() && st.ids[k] == used[i];
                    assert(st2.ids[k] == used[i]);
                }
                assert(st2.ids[st.ids.len() as int] == x);
                if used.contains(x) {
                    let k = choose|k: int| 0 <= k < used.len() && used[k] == x;
                    assert(st.ids.contains(used[k]));
                }
            }
            if st2.ids == st.ids {
                assert forall|i: int| 0 <= i < used.len() implies st2.ids.contains(
                    #[trigger] used[i],
                ) by {}
            }
        },
        Err(_) => {},
    }
}

/// A block keeps `ids_ok` for the ids used before it and its own.
proof fn lemma_block_ids(t: Seq<SpecToken>, st: ParseState, used: Seq<Seq<char>>)
    requires
        ids_ok(used, st),
    ensures
        spec_block(t, st) matches Ok((st2, b)) ==> ids_ok(used + opt_block_ids(b), st2)
            && is_prefix(st.ids, st2.ids),
    decreases t.len() - st.pos, 9int,
{
    lemma_block(t, st);
    let p = skip_blank(t, st.pos);
    let s = at_pos(st, p);
    assert(st.ids.take(st.ids.len() as int) == st.ids);
    if st.pos < 0 || st.pos > p || p > t.len() {
    } else if p == t.len() {
        assert(used + opt_block_ids(None) == used);
    } else {
        let k = t[p].kind;
        if k == TokenTypes::ClassBegin {
            lemma_attributes_ids(used, t, s);
            match spec_attributes(t, s) {
                Ok((st2, _u)) => if advanced(t, s, st2) {
                    lemma_block_ids(t, st2, used);
                    match spec_block(t, st2) {
                        Ok((st3, _b)) => {
                            lemma_prefix_trans(st.ids, st2.ids, st3.ids);
                        },
                        Err(_) => {},
                    }
                },
                Err(_) => {},
            }
        } else if k == TokenTypes::Header {
            lemma_header(t, s);
            match spec_header(t, s) {
                Ok((st2, b)) => {
                    let n = crate::parser_spec::run_length(t, s.pos, TokenTypes::Header);
                    let p1 = s.pos + n;
                    let p2 = if kind_is(t, p1, TokenTypes::WhiteSpace) {
                        p1 + 1
                    } else {
                        p1
                    };
                    let (st1, _attrs) = take_pending(at_pos(s, p2));
                    lemma_run_ids(t, st1, InlineContext::Block, Seq::empty());
                    lemma_take_ids(used, s, st2);
                    assert(used + opt_block_ids(Some(b)) == used + opt_id(s.pending));
                },
                Err(_) => {},
            }
        } else if k == TokenTypes::BackTick && kind_is(t, p + 1, TokenTypes::BackTick) {
            match spec_code_block(t, s) {
                Ok((st2, b)) => {
                    assert(used + opt_block_ids(Some(b)) == used);
                },
                Err(_) => {},
            }
        } else if k == TokenTypes::OrderedList {
            lemma_ordered_list(t, s);
            match spec_ordered_list(t, s) {
                Ok((st2, b)) => {
                    let (st1, _attrs) = take_pending(s);
                    lemma_items_ids(t, st1, true, Seq::empty());
                    lemma_take_ids(used, s, st2);
                    assert(used + opt_block_ids(Some(b)) == used + opt_id(s.pending));
                },
                Err(_) => {},
            }
        } else if k == TokenTypes::Dash {
            lemma_unordered_list(t, s);
            match spec_unordered_list(t, s) {
                Ok((st2, b)) => {
                    let (st1, _attrs) = take_pending(s);
                    lemma_items_ids(t, st1, false, Seq::empty());
                    lemma_take_ids(used, s, st2);
                    assert(used + opt_block_ids(Some(b)) == used + opt_id(s.pending));
                },
                Err(_) => {},
            }
        } else if k == TokenTypes::Colon && is_note_start(t, p) {
            if !(s.pos < 0 || s.pos + 3 > t.len()) {
                let s1 = take_pending(at_pos(s, s.pos + 3)).0;
                assert(s1.ids.take(s.ids.len() as int) == s.ids);
                lemma_ids_ok_weaken(used, s, s1);
                assert(used + blocks_ids(Seq::<SpecBlock>::empty()) == used);
                lemma_note_body_ids(t, s1, Seq::empty(), used);
                match spec_note_body(t, s1, Seq::empty()) {
                    Ok((st2, kids)) => {
                        assert(opt_block_ids(Some(SpecBlock::Note { children: kids }))
                            == blocks_ids(kids));
                        assert(ids_ok(used + blocks_ids(kids), st2));
                        assert(is_prefix(s1.ids, st2.ids));
                        let note = SpecBlock::Note { children: kids };
                        assert(spec_note(t, s) == Ok::<(ParseState, SpecBlock), ParseError>(
                            (st2, note),
                        ));
                        assert(spec_block(t, st) == Ok::<
                            (ParseState, Option<SpecBlock>),
                            ParseError,
                        >((st2, Some(note))));
                    },
                    Err(_) => {},
                }
            }
        } else if k == TokenTypes::Colon && is_note_end(t, p) {
        } else {
            lemma_paragraph(t, s);
            match spec_paragraph(t, s) {
                Ok((st2, b)) => {
                    let (st1, _attrs) = take_pending(s);
                    lemma_lines_ids(t, st1, Seq::empty());
                    lemma_take_ids(used, s, st2);
                    assert(used + opt_block_ids(Some(b)) == used + opt_id(s.pending));
                },
                Err(_) => {},
            }
        }
    }
}

/// The blocks of a note keep `ids_ok`.
proof fn lemma_note_body_ids(
    t: Seq<SpecToken>,
    st: ParseState,
    acc: Seq<SpecBlock>,
    used: Seq<Seq<char>>,
)
    requires
        ids_ok(used + blocks_ids(acc), st),
    ensures
        spec_note_body(t, st, acc) matches Ok((st2, res)) ==> ids_ok(used + blocks_ids(res), st2)
            && is_prefix(st.ids, st2.ids),
    decreases t.len() - st.pos, 10int,
{
    let p = skip_blank(t, st.pos);
    assert(st.ids.take(st.ids.len() as int) == st.ids);
    if !(st.pos < 0 || st.pos > p || p > t.len()) && p != t.len() && !is_note_end(t, p) {
        lemma_block_ids(t, at_pos(st, p), used + blocks_ids(acc));
        lemma_block(t, at_pos(st, p));
        match spec_block(t, at_pos(st, p)) {
            Ok((st2, b)) => if advanced(t, st, st2) {
                let acc2 = match b {
                    Some(blk) => acc.push(blk),
                    None => acc,
                };
                match b {
                    Some(blk) => {
                        assert(acc.push(blk).drop_last() == acc);
                        assert(used + blocks_ids(acc2) == used + blocks_ids(acc) + opt_block_ids(b));
                    },
                    None => {
                        assert(used + blocks_ids(acc) + opt_block_ids(b) == used + blocks_ids(acc));
                    },
                }
                lemma_note_body_ids(t, st2, acc2, used);
                match spec_note_body(t, st2, acc2) {
                    Ok((st3, _r)) => {
                        lemma_prefix_trans(st.ids, st2.ids, st3.ids);
                    },
                    Err(_) => {},
                }
            },
            Err(_) => {},
        }
    }
}

proof fn lemma_blocks_ids(t: Seq<SpecToken>, st: ParseState, acc: Seq<SpecBlock>)
    requires
        ids_ok(blocks_ids(acc), st),
    ensures
        spec_blocks(t, st, acc) matches Ok((st2, res)) ==> ids_ok(blocks_ids(res), st2),
    decreases t.len() - st.pos,
{
    if 0 <= st.pos < t.len() {
        lemma_block_ids(t, st, blocks_ids(acc));
        match spec_block(t, st) {
            Ok((st2, b)) => if advanced(t, st, st2) {
                let acc2 = match b {
                    Some(blk) => acc.push(blk),
                    None => acc,
                };
                match b {
                    Some(blk) => {
                        assert(acc.push(blk).drop_last() == acc);
                    },
                    None => {
                        assert(blocks_ids(acc) + opt_block_ids(b) == blocks_ids(acc));
                    },
                }
                lemma_blocks_ids(t, st2, acc2);
            },
            Err(_) => {},
        }
    }
}

/// Ids are unique across a document: no two blocks, list items, links or
/// images of a parsed document carry the same id.
pub proof fn law_document_ids_unique(t: Seq<SpecToken>, src: Seq<char>)
    ensures
        spec_parse(t, initial_state(src)) matches Ok((_st, d)) ==> no_dup(document_ids(d)),
{
    let st = initial_state(src);
    assert(blocks_ids(Seq::<SpecBlock>::empty()) == Seq::<Seq<char>>::empty());
    lemma_blocks_ids(t, st, Seq::empty());
}

} // verus!

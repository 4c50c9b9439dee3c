use vstd::prelude::*;
use crate::ast::{SpecAttributes, SpecBlock, SpecInline, SpecListItem, SpecDocument, empty_attrs};
use crate::text::{trim, split_on, parse_usize_spec};
use crate::tokens::{SpecToken, TokenTypes};
use vstd::utf8::{decode_utf8, encode_utf8, is_char_boundary};

verus! {

/// Why a token stream is not a document.
#[derive(Debug, Clone, Copy, PartialEq, Eq, Structural)]
pub enum ParseError {
    /// An attribute line `{...` has no closing `}`.
    UnterminatedAttributes,
    /// Something other than whitespace follows the `}` of an attribute line.
    AttributesNotOnOwnLine,
    /// An id that an earlier attribute line already declared.
    DuplicateId,
    /// A `::note` block has no closing `::`.
    UnterminatedNote,
    /// A closing `::` with no open note block.
    StrayNoteEnd,
    /// An inline code span has no closing backtick on its line.
    UnterminatedInlineCode,
    /// A `[` inside the alt text of an image.
    NestedImageBracket,
    /// An image inside the alt text of an image.
    NestedImage,
    /// The alt text of an image has no closing `]`.
    UnterminatedImageAlt,
    /// No `(` after the alt text of an image.
    ImageMissingSource,
    /// The source of an image has no closing `)`.
    UnterminatedImageSource,
    /// The text of a link has no closing `]`.
    LinkMissingBracket,
    /// No `(` after the text of a link.
    LinkMissingUrl,
    /// The URL of a link has no closing `)`.
    UnterminatedLinkUrl,
    /// A code block fence of more than two backticks.
    CodeBlockFence,
    /// A code block has no closing fence.
    UnterminatedCodeBlock,
    /// A `*` that opens bold text is not closed before its line ends.
    UnclosedBold,
    /// A `_` that opens italic text is not closed before its line ends.
    UnclosedItalic,
    /// A construct that consumes no token. The grammar needs it for
    /// branches that are never taken: no parse from a position within the
    /// tokens gives it (`law_parse_makes_progress`).
    NoProgress,
    /// A header of more than 255 `#`.
    HeaderTooDeep,
}

/// The innermost construct that a run of inline content belongs to.
#[derive(Debug, Clone, Copy, PartialEq, Eq, Structural)]
pub enum InlineContext {
    /// A paragraph, header or list item.
    Block,
    Bold,
    Italic,
    Link,
}

/// Where a parse stands: the source text the tokens were read from, the
/// next token, the attributes waiting for the next block, and every id
/// declared so far.
#[verifier::ext_equal]
pub struct ParseState {
    pub src: Seq<char>,
    pub pos: int,
    pub pending: SpecAttributes,
    pub ids: Seq<Seq<char>>,
}

pub type PResult<T> = Result<(ParseState, T), ParseError>;

pub open spec fn at_pos(st: ParseState, pos: int) -> ParseState {
    ParseState { src: st.src, pos, pending: st.pending, ids: st.ids }
}

/// Progress from `a` to `b`: at least one token consumed, none beyond the end.
pub open spec fn advanced(t: Seq<SpecToken>, a: ParseState, b: ParseState) -> bool {
    a.pos < b.pos <= t.len()
}

pub open spec fn kind_is(t: Seq<SpecToken>, i: int, k: TokenTypes) -> bool {
    0 <= i < t.len() && t[i].kind == k
}

/// The text of a token; a token without a value stands for no text.
pub open spec fn text_of(tok: SpecToken) -> Seq<char> {
    match tok.value {
        Some(v) => v,
        None => Seq::empty(),
    }
}

pub open spec fn is_blank(k: TokenTypes) -> bool {
    k == TokenTypes::NewLine || k == TokenTypes::WhiteSpace
}

/// The first position at or after `pos` that is not a newline or whitespace token.
pub open spec fn skip_blank(t: Seq<SpecToken>, pos: int) -> int
    decreases t.len() - pos,
{
    if 0 <= pos < t.len() && is_blank(t[pos].kind) {
        skip_blank(t, pos + 1)
    } else {
        pos
    }
}

/// The first position at or after `pos` that is not a whitespace token.
pub open spec fn skip_spaces(t: Seq<SpecToken>, pos: int) -> int
    decreases t.len() - pos,
{
    if 0 <= pos < t.len() && t[pos].kind == TokenTypes::WhiteSpace {
        skip_spaces(t, pos + 1)
    } else {
        pos
    }
}

/// The number of consecutive tokens of kind `k` from `pos` on.
pub open spec fn run_length(t: Seq<SpecToken>, pos: int, k: TokenTypes) -> nat
    decreases t.len() - pos,
{
    if 0 <= pos < t.len() && t[pos].kind == k {
        1 + run_length(t, pos + 1, k)
    } else {
        0
    }
}

pub open spec fn note_word() -> Seq<char> {
    seq!['n', 'o', 't', 'e']
}

/// `::note` opens a note block.
pub open spec fn is_note_start(t: Seq<SpecToken>, p: int) -> bool {
    &&& kind_is(t, p, TokenTypes::Colon)
    &&& kind_is(t, p + 1, TokenTypes::Colon)
    &&& p + 2 < t.len()
    &&& t[p + 2].value == Some(note_word())
}

/// `::` followed by the end, a newline or whitespace closes a note block.
pub open spec fn is_note_end(t: Seq<SpecToken>, p: int) -> bool {
    &&& kind_is(t, p, TokenTypes::Colon)
    &&& kind_is(t, p + 1, TokenTypes::Colon)
    &&& (p + 2 >= t.len() || is_blank(t[p + 2].kind))
}

/// Moves the pending attributes out of the state, leaving none pending.
pub open spec fn take_pending(st: ParseState) -> (ParseState, SpecAttributes) {
    (ParseState { src: st.src, pos: st.pos, pending: empty_attrs(), ids: st.ids }, st.pending)
}

/// Adds an inline to a list of inlines: text that follows text joins it.
pub open spec fn push_inline(acc: Seq<SpecInline>, x: SpecInline) -> Seq<SpecInline> {
    match x {
        SpecInline::Text { value } => {
            if acc.len() > 0 && acc.last() is Text {
                acc.update(
                    acc.len() - 1,
                    SpecInline::Text { value: acc.last()->Text_value + value },
                )
            } else {
                acc.push(x)
            }
        },
        _ => acc.push(x),
    }
}

pub open spec fn push_text(acc: Seq<SpecInline>, s: Seq<char>) -> Seq<SpecInline> {
    push_inline(acc, SpecInline::Text { value: s })
}

// ---------------------------------------------------------------------------
// Attribute lines: `{id, class, class}`
/// What a token inside an attribute line contributes to its raw text.
pub open spec fn attr_piece(tok: SpecToken) -> Seq<char> {
    if tok.kind == TokenTypes::UnderScore {
        seq!['_']
    } else if tok.kind == TokenTypes::Emphasis {
        seq!['*']
    } else if tok.kind == TokenTypes::Dash {
        seq!['-']
    } else if tok.kind == TokenTypes::WhiteSpace {
        seq![' ']
    } else {
        text_of(tok)
    }
}

/// The raw text of an attribute line from `pos` up to its `}`, and the
/// position after the `}`; `None` where the tokens end first.
pub open spec fn attr_raw(t: Seq<SpecToken>, pos: int, acc: Seq<char>) -> Option<(int, Seq<char>)>
    decreases t.len() - pos,
{
    if pos < 0 || pos >= t.len() {
        None
    } else if t[pos].kind == TokenTypes::ClassEnd {
        Some((pos + 1, acc))
    } else {
        attr_raw(t, pos + 1, acc + attr_piece(t[pos]))
    }
}

/// After the `}`: whitespace up to and including a newline, or up to the end.
/// `None` where anything else follows.
pub open spec fn attr_line_end(t: Seq<SpecToken>, pos: int) -> Option<int>
    decreases t.len() - pos,
{
    if pos < 0 || pos >= t.len() {
        Some(pos)
    } else if t[pos].kind == TokenTypes::WhiteSpace {
        attr_line_end(t, pos + 1)
    } else if t[pos].kind == TokenTypes::NewLine {
        Some(pos + 1)
    } else {
        None
    }
}

/// The classes of an attribute line: its pieces after the first, trimmed,
/// empty ones left out.
pub open spec fn attr_classes(parts: Seq<Seq<char>>) -> Seq<Seq<char>>
    decreases parts.len(),
{
    if parts.len() == 0 {
        Seq::empty()
    } else {
        let r = attr_classes(parts.drop_last());
        let c = trim(parts.last());
        if c.len() > 0 {
            r.push(c)
        } else {
            r
        }
    }
}

/// An attribute line at `st.pos` (a `{`): its id, unless it is `_` or
/// empty, and its classes become the pending attributes; the id is
/// recorded, and an id recorded before is an error.
pub open spec fn spec_attributes(t: Seq<SpecToken>, st: ParseState) -> PResult<()> {
    match attr_raw(t, st.pos + 1, Seq::empty()) {
        None => Err(ParseError::UnterminatedAttributes),
        Some((p, raw)) => match attr_line_end(t, p) {
            None => Err(ParseError::AttributesNotOnOwnLine),
            Some(q) => {
                let parts = split_on(raw, ',');
                let first = trim(parts[0]);
                let classes = attr_classes(parts.drop_first());
                if first == seq!['_'] || first.len() == 0 {
                    Ok((ParseState {
                        src: st.src,
                        pos: q,
                        pending: SpecAttributes { id: None, classes },
                        ids: st.ids,
                    }, ()))
                } else if st.ids.contains(first) {
                    Err(ParseError::DuplicateId)
                } else {
                    Ok((ParseState {
                        src: st.src,
                        pos: q,
                        pending: SpecAttributes { id: Some(first), classes },
                        ids: st.ids.push(first),
                    }, ()))
                }
            },
        },
    }
}

// ---------------------------------------------------------------------------
// Code blocks and the plain-text parts of inline constructs
/// The language line of a code block: the text of the tokens up to a
/// newline, which is consumed, or up to the end.
pub open spec fn code_language(t: Seq<SpecToken>, pos: int, acc: Seq<char>) -> (int, Seq<char>)
    decreases t.len() - pos,
{
    if pos < 0 || pos >= t.len() {
        (pos, acc)
    } else if t[pos].kind == TokenTypes::NewLine {
        (pos + 1, acc)
    } else {
        code_language(t, pos + 1, acc + text_of(t[pos]))
    }
}

/// The body of a code block up to its closing pair of backticks, and the
/// position after them; `None` where the tokens end first.
pub open spec fn code_body(t: Seq<SpecToken>, pos: int, acc: Seq<char>) -> Option<(int, Seq<char>)>
    decreases t.len() - pos,
{
    if pos < 0 || pos >= t.len() {
        None
    } else if t[pos].kind == TokenTypes::BackTick && kind_is(t, pos + 1, TokenTypes::BackTick) {
        Some((pos + 2, acc))
    } else if t[pos].kind == TokenTypes::NewLine {
        code_body(t, pos + 1, acc.push('\n'))
    } else if t[pos].kind == TokenTypes::WhiteSpace {
        code_body(t, pos + 1, acc.push(' '))
    } else {
        code_body(t, pos + 1, acc + text_of(t[pos]))
    }
}

/// The text of `src` between byte offsets `lo` and `hi`, where these are
/// character boundaries of its UTF-8 encoding in order; `None` otherwise.
pub open spec fn source_between(src: Seq<char>, lo: int, hi: int) -> Option<Seq<char>> {
    let b = encode_utf8(src);
    if 0 <= lo <= hi <= b.len() && is_char_boundary(b, lo) && is_char_boundary(b, hi) {
        Some(decode_utf8(b.subrange(lo, hi)))
    } else {
        None
    }
}

/// The body of a code block whose language line ends with token `p - 1`
/// and whose closing fence starts at token `f`: the source text from the
/// end of that line to the end of the last token before the fence, taken
/// literally. Where the token spans do not lie in the source, the text
/// rebuilt from the tokens stands in for it.
pub open spec fn code_text(t: Seq<SpecToken>, src: Seq<char>, p: int, f: int, rebuilt: Seq<char>) -> Seq<
    char,
> {
    let lo = t[p - 1].span.hi as int;
    let hi = if f > p {
        t[f - 1].span.hi as int
    } else {
        lo
    };
    match source_between(src, lo, hi) {
        Some(x) => x,
        None => rebuilt,
    }
}

/// A code block at `st.pos`: exactly two backticks, a language line, and a
/// body closed by two backticks; the body is the source text between the
/// language line and the closing fence. A code block carries no attributes;
/// the pending ones are dropped, since attributes apply only to the next
/// block.
pub open spec fn spec_code_block(t: Seq<SpecToken>, st: ParseState) -> PResult<SpecBlock> {
    let n = run_length(t, st.pos, TokenTypes::BackTick);
    if n != 2 {
        Err(ParseError::CodeBlockFence)
    } else {
        let (p, lang) = code_language(t, st.pos + 2, Seq::empty());
        let language = if trim(lang).len() == 0 {
            None
        } else {
            Some(trim(lang))
        };
        match code_body(t, p, Seq::empty()) {
            None => Err(ParseError::UnterminatedCodeBlock),
            Some((q, rebuilt)) => Ok(
                (
                    take_pending(at_pos(st, q)).0,
                    SpecBlock::CodeBlock { language, code: code_text(t, st.src, p, q - 2, rebuilt) },
                ),
            ),
        }
    }
}

/// Inline code after its opening backtick, up to the closing one; `None`
/// where a newline or the end comes first.
pub open spec fn code_span(t: Seq<SpecToken>, pos: int, acc: Seq<char>) -> Option<(int, Seq<char>)>
    decreases t.len() - pos,
{
    if pos < 0 || pos >= t.len() {
        None
    } else if t[pos].kind == TokenTypes::BackTick {
        Some((pos + 1, acc))
    } else if t[pos].kind == TokenTypes::NewLine {
        None
    } else if t[pos].kind == TokenTypes::WhiteSpace {
        code_span(t, pos + 1, acc.push(' '))
    } else {
        code_span(t, pos + 1, acc + text_of(t[pos]))
    }
}

/// A URL up to its closing `)`, and the position after it; `None` where
/// the tokens end first.
pub open spec fn url_text(t: Seq<SpecToken>, pos: int, acc: Seq<char>) -> Option<(int, Seq<char>)>
    decreases t.len() - pos,
{
    if pos < 0 || pos >= t.len() {
        None
    } else if t[pos].kind == TokenTypes::AnchorURLEnd {
        Some((pos + 1, acc))
    } else {
        url_text(t, pos + 1, acc + text_of(t[pos]))
    }
}

/// The alt text of an image up to its `]`, and the position after it.
pub open spec fn alt_text(t: Seq<SpecToken>, pos: int, acc: Seq<char>) -> Result<
    (int, Seq<char>),
    ParseError,
>
    decreases t.len() - pos,
{
    if pos < 0 || pos >= t.len() {
        Err(ParseError::UnterminatedImageAlt)
    } else if t[pos].kind == TokenTypes::AnchorValueStart {
        Err(ParseError::NestedImageBracket)
    } else if t[pos].kind == TokenTypes::Image && kind_is(t, pos + 1, TokenTypes::AnchorValueStart) {
        Err(ParseError::NestedImage)
    } else if t[pos].kind == TokenTypes::AnchorValueEnd {
        Ok((pos + 1, acc))
    } else {
        alt_text(t, pos + 1, acc + text_of(t[pos]))
    }
}

/// An image `![alt](src)` at `st.pos`; it takes the pending attributes.
pub open spec fn spec_image(t: Seq<SpecToken>, st: ParseState) -> PResult<SpecInline> {
    match alt_text(t, st.pos + 2, Seq::empty()) {
        Err(e) => Err(e),
        Ok((p, alt)) => if !kind_is(t, p, TokenTypes::AnchorURLStart) {
            Err(ParseError::ImageMissingSource)
        } else {
            match url_text(t, p + 1, Seq::empty()) {
                None => Err(ParseError::UnterminatedImageSource),
                Some((q, src)) => {
                    let (st2, attrs) = take_pending(at_pos(st, q));
                    Ok((st2, SpecInline::Image { alt, src, attrs }))
                },
            }
        },
    }
}

// ---------------------------------------------------------------------------
// The recursive part of the grammar. Each function takes the state at the
// construct's first token. The measure is the number of tokens left, then a
// rank that orders the functions that call one another without consuming a
// token. A branch that needs `advanced` and does not have it is never taken:
// every construct consumes at least one token (`law_parse_makes_progress`).
/// A run of inline content in context `ctx`, added to `acc`.
///
/// Bold and italic text closes at the same marker that opened it; a
/// newline or the end of the tokens inside it is an error. A run in a
/// block ends at a newline, which it consumes, or at the end. A run of link
/// text ends at a newline, which it consumes, at a `]`, which it leaves, or
/// at the end. Outside link text a `]` is text.
pub open spec fn spec_run(
    t: Seq<SpecToken>,
    st: ParseState,
    ctx: InlineContext,
    acc: Seq<SpecInline>,
) -> PResult<Seq<SpecInline>>
    decreases t.len() - st.pos, 5int,
{
    let p = st.pos;
    let unclosed = if ctx == InlineContext::Bold {
        ParseError::UnclosedBold
    } else {
        ParseError::UnclosedItalic
    };
    let emphasis = ctx == InlineContext::Bold || ctx == InlineContext::Italic;
    if p < 0 || p >= t.len() {
        if emphasis {
            Err(unclosed)
        } else {
            Ok((st, acc))
        }
    } else {
        let k = t[p].kind;
        if k == TokenTypes::NewLine {
            if emphasis {
                Err(unclosed)
            } else {
                Ok((at_pos(st, p + 1), acc))
            }
        } else if k == TokenTypes::AnchorValueEnd && ctx == InlineContext::Link {
            Ok((st, acc))
        } else if k == TokenTypes::AnchorURLStart || k == TokenTypes::AnchorValueStart {
            match spec_link(t, st) {
                Err(e) => Err(e),
                Ok((st2, link)) => if advanced(t, st, st2) {
                    spec_run(t, st2, ctx, push_inline(acc, link))
                } else {
                    Err(ParseError::NoProgress)
                },
            }
        } else if k == TokenTypes::WhiteSpace {
            spec_run(t, at_pos(st, p + 1), ctx, push_text(acc, seq![' ']))
        } else if k == TokenTypes::Emphasis && ctx == InlineContext::Bold {
            Ok((at_pos(st, p + 1), acc))
        } else if k == TokenTypes::UnderScore && ctx == InlineContext::Italic {
            Ok((at_pos(st, p + 1), acc))
        } else if k == TokenTypes::Emphasis || k == TokenTypes::UnderScore {
            let inner = if k == TokenTypes::Emphasis {
                InlineContext::Bold
            } else {
                InlineContext::Italic
            };
            match spec_run(t, at_pos(st, p + 1), inner, Seq::empty()) {
                Err(e) => Err(e),
                Ok((st2, kids)) => {
                    let x = if k == TokenTypes::Emphasis {
                        SpecInline::Bold { children: kids }
                    } else {
                        SpecInline::Italic { children: kids }
                    };
                    if advanced(t, st, st2) {
                        spec_run(t, st2, ctx, push_inline(acc, x))
                    } else {
                        Err(ParseError::NoProgress)
                    }
                },
            }
        } else if k == TokenTypes::BackTick {
            match code_span(t, p + 1, Seq::empty()) {
                None => Err(ParseError::UnterminatedInlineCode),
                Some((q, code)) => if p < q <= t.len() {
                    spec_run(t, at_pos(st, q), ctx, push_inline(acc, SpecInline::InlineCode { code }))
                } else {
                    Err(ParseError::NoProgress)
                },
            }
        } else if k == TokenTypes::Image && kind_is(t, p + 1, TokenTypes::AnchorValueStart) {
            match spec_image(t, st) {
                Err(e) => Err(e),
                Ok((st2, img)) => if advanced(t, st, st2) {
                    spec_run(t, st2, ctx, push_inline(acc, img))
                } else {
                    Err(ParseError::NoProgress)
                },
            }
        } else {
            spec_run(t, at_pos(st, p + 1), ctx, push_text(acc, text_of(t[p])))
        }
    }
}

/// A link at `st.pos` (a `[` or a `(`): link text, `]`, `(`, URL, `)`.
/// It takes the pending attributes.
pub open spec fn spec_link(t: Seq<SpecToken>, st: ParseState) -> PResult<SpecInline>
    decreases t.len() - st.pos, 4int,
{
    if st.pos < 0 || st.pos >= t.len() {
        Err(ParseError::LinkMissingBracket)
    } else {
        let (st1, attrs) = take_pending(at_pos(st, st.pos + 1));
        match spec_run(t, st1, InlineContext::Link, Seq::empty()) {
            Err(e) => Err(e),
            Ok((st2, kids)) => if !kind_is(t, st2.pos, TokenTypes::AnchorValueEnd) {
                Err(ParseError::LinkMissingBracket)
            } else if !kind_is(t, st2.pos + 1, TokenTypes::AnchorURLStart) {
                Err(ParseError::LinkMissingUrl)
            } else {
                match url_text(t, st2.pos + 2, Seq::empty()) {
                    None => Err(ParseError::UnterminatedLinkUrl),
                    Some((q, url)) => Ok(
                        (at_pos(st2, q), SpecInline::Link { url, children: kids, attrs }),
                    ),
                }
            },
        }
    }
}

/// The token at `p` begins a block other than a paragraph, or an attribute
/// line.
pub open spec fn starts_block(t: Seq<SpecToken>, p: int) -> bool {
    let k = t[p].kind;
    ||| k == TokenTypes::ClassBegin
    ||| k == TokenTypes::Header
    ||| k == TokenTypes::BackTick && kind_is(t, p + 1, TokenTypes::BackTick)
    ||| k == TokenTypes::OrderedList
    ||| k == TokenTypes::Dash
    ||| is_note_start(t, p)
    ||| is_note_end(t, p)
}

/// The line at `pos` carries on the paragraph above it: after its
/// whitespace it is not empty and does not begin another block.
pub open spec fn continues_paragraph(t: Seq<SpecToken>, pos: int) -> bool {
    let p = skip_spaces(t, pos);
    &&& 0 <= pos <= p < t.len()
    &&& t[p].kind != TokenTypes::NewLine
    &&& !starts_block(t, p)
}

/// The lines of a paragraph from `st.pos` on, added to `acc`: the inline
/// content of each line; a line that carries the paragraph on follows the
/// one before it after a space, its leading whitespace skipped.
pub open spec fn paragraph_lines(t: Seq<SpecToken>, st: ParseState, acc: Seq<SpecInline>) -> PResult<
    Seq<SpecInline>,
>
    decreases t.len() - st.pos,
{
    match spec_run(t, st, InlineContext::Block, acc) {
        Err(e) => Err(e),
        Ok((st2, kids)) => if advanced(t, st, st2) && continues_paragraph(t, st2.pos) {
            paragraph_lines(t, at_pos(st2, skip_spaces(t, st2.pos)), push_text(kids, seq![' ']))
        } else {
            Ok((st2, kids))
        },
    }
}

/// A paragraph at `st.pos`: the pending attributes and the inline content
/// of its lines; consecutive lines belong to it until another block begins.
pub open spec fn spec_paragraph(t: Seq<SpecToken>, st: ParseState) -> PResult<SpecBlock>
    decreases t.len() - st.pos, 8int,
{
    let (st1, attrs) = take_pending(st);
    match paragraph_lines(t, st1, Seq::empty()) {
        Err(e) => Err(e),
        Ok((st2, kids)) => Ok((st2, SpecBlock::Paragraph { attrs, children: kids })),
    }
}

/// A header at `st.pos`: its level is the number of `#`, one whitespace
/// token after them is skipped, then the pending attributes and a run of
/// inline content up to the end of its line.
pub open spec fn spec_header(t: Seq<SpecToken>, st: ParseState) -> PResult<SpecBlock>
    decreases t.len() - st.pos, 8int,
{
    let n = run_length(t, st.pos, TokenTypes::Header);
    if n > 255 {
        Err(ParseError::HeaderTooDeep)
    } else {
        let p = st.pos + n;
        let p2 = if kind_is(t, p, TokenTypes::WhiteSpace) {
            p + 1
        } else {
            p
        };
        let (st1, attrs) = take_pending(at_pos(st, p2));
        if st.pos <= p2 <= t.len() {
            match spec_run(t, st1, InlineContext::Block, Seq::empty()) {
                Err(e) => Err(e),
                Ok((st2, kids)) => Ok(
                    (st2, SpecBlock::Header { attrs, level: n as u8, children: kids }),
                ),
            }
        } else {
            Err(ParseError::NoProgress)
        }
    }
}

/// The marker of a list item.
pub open spec fn item_marker(ordered: bool) -> TokenTypes {
    if ordered {
        TokenTypes::OrderedList
    } else {
        TokenTypes::Dash
    }
}

/// A list item at its marker: in an ordered list a following `.` token is
/// skipped, then one whitespace token, then the pending attributes and a
/// run of inline content up to the end of its line.
pub open spec fn spec_list_item(t: Seq<SpecToken>, st: ParseState, ordered: bool) -> PResult<
    SpecListItem,
>
    decreases t.len() - st.pos, 6int,
{
    if st.pos < 0 || st.pos >= t.len() {
        Err(ParseError::NoProgress)
    } else {
        let p = st.pos + 1;
        let p1 = if ordered && p < t.len() && t[p].value == Some(seq!['.']) {
            p + 1
        } else {
            p
        };
        let p2 = if kind_is(t, p1, TokenTypes::WhiteSpace) {
            p1 + 1
        } else {
            p1
        };
        let (st1, attrs) = take_pending(at_pos(st, p2));
        match spec_run(t, st1, InlineContext::Block, Seq::empty()) {
            Err(e) => Err(e),
            Ok((st2, kids)) => Ok((st2, SpecListItem { attrs, children: kids })),
        }
    }
}

/// The items of a list: each starts, after whitespace, with the list's
/// marker; the list ends before anything else.
pub open spec fn spec_list_items(
    t: Seq<SpecToken>,
    st: ParseState,
    ordered: bool,
    acc: Seq<SpecListItem>,
) -> PResult<Seq<SpecListItem>>
    decreases t.len() - st.pos, 7int,
{
    let p = skip_spaces(t, st.pos);
    if st.pos < 0 || st.pos > p || p > t.len() {
        Err(ParseError::NoProgress)
    } else if kind_is(t, p, item_marker(ordered)) {
        match spec_list_item(t, at_pos(st, p), ordered) {
            Err(e) => Err(e),
            Ok((st2, item)) => if advanced(t, st, st2) {
                spec_list_items(t, st2, ordered, acc.push(item))
            } else {
                Err(ParseError::NoProgress)
            },
        }
    } else {
        Ok((at_pos(st, p), acc))
    }
}

/// The start number of an ordered list: the value of its first marker when
/// that parses as a `usize`, else 1.
pub open spec fn list_start(tok: SpecToken) -> usize {
    match tok.value {
        Some(v) => match parse_usize_spec(v) {
            Some(n) => n,
            None => 1,
        },
        None => 1,
    }
}

/// An ordered list at its first marker; it takes the pending attributes.
pub open spec fn spec_ordered_list(t: Seq<SpecToken>, st: ParseState) -> PResult<SpecBlock>
    decreases t.len() - st.pos, 8int,
{
    if st.pos < 0 || st.pos >= t.len() {
        Err(ParseError::NoProgress)
    } else {
        let start = list_start(t[st.pos]);
        let (st1, attrs) = take_pending(st);
        match spec_list_items(t, st1, true, Seq::empty()) {
            Err(e) => Err(e),
            Ok((st2, items)) => Ok((st2, SpecBlock::OrderedList { attrs, start, children: items })),
        }
    }
}

/// An unordered list at its first `-`; it takes the pending attributes.
pub open spec fn spec_unordered_list(t: Seq<SpecToken>, st: ParseState) -> PResult<SpecBlock>
    decreases t.len() - st.pos, 8int,
{
    let (st1, attrs) = take_pending(st);
    match spec_list_items(t, st1, false, Seq::empty()) {
        Err(e) => Err(e),
        Ok((st2, items)) => Ok((st2, SpecBlock::UnorderedList { attrs, children: items })),
    }
}

/// The blocks of a note up to its closing `::`.
pub open spec fn spec_note_body(t: Seq<SpecToken>, st: ParseState, acc: Seq<SpecBlock>) -> PResult<
    Seq<SpecBlock>,
>
    decreases t.len() - st.pos, 10int,
{
    let p = skip_blank(t, st.pos);
    if st.pos < 0 || st.pos > p || p > t.len() {
        Err(ParseError::NoProgress)
    } else if p == t.len() {
        Err(ParseError::UnterminatedNote)
    } else if is_note_end(t, p) {
        Ok((at_pos(st, p + 2), acc))
    } else {
        match spec_block(t, at_pos(st, p)) {
            Err(e) => Err(e),
            Ok((st2, b)) => if advanced(t, st, st2) {
                let acc2 = match b {
                    Some(blk) => acc.push(blk),
                    None => acc,
                };
                spec_note_body(t, st2, acc2)
            } else {
                Err(ParseError::NoProgress)
            },
        }
    }
}

/// A note block at its `::note`. A note carries no attributes; the pending
/// ones are dropped, since attributes apply only to the next block.
pub open spec fn spec_note(t: Seq<SpecToken>, st: ParseState) -> PResult<SpecBlock>
    decreases t.len() - st.pos, 8int,
{
    if st.pos < 0 || st.pos + 3 > t.len() {
        Err(ParseError::UnterminatedNote)
    } else {
        match spec_note_body(t, take_pending(at_pos(st, st.pos + 3)).0, Seq::empty()) {
            Err(e) => Err(e),
            Ok((st2, kids)) => Ok((st2, SpecBlock::Note { children: kids })),
        }
    }
}

/// The next block, after newlines and whitespace; `None` at the end of the
/// tokens. Attribute lines before it set its attributes.
pub open spec fn spec_block(t: Seq<SpecToken>, st: ParseState) -> PResult<Option<SpecBlock>>
    decreases t.len() - st.pos, 9int,
{
    let p = skip_blank(t, st.pos);
    let s = at_pos(st, p);
    if st.pos < 0 || st.pos > p || p > t.len() {
        Err(ParseError::NoProgress)
    } else if p == t.len() {
        Ok((s, None))
    } else {
        let k = t[p].kind;
        if k == TokenTypes::ClassBegin {
            match spec_attributes(t, s) {
                Err(e) => Err(e),
                Ok((st2, _u)) => if advanced(t, s, st2) {
                    spec_block(t, st2)
                } else {
                    Err(ParseError::NoProgress)
                },
            }
        } else {
            let r = if k == TokenTypes::Header {
                spec_header(t, s)
            } else if k == TokenTypes::BackTick && kind_is(t, p + 1, TokenTypes::BackTick) {
                spec_code_block(t, s)
            } else if k == TokenTypes::OrderedList {
                spec_ordered_list(t, s)
            } else if k == TokenTypes::Dash {
                spec_unordered_list(t, s)
            } else if k == TokenTypes::Colon && is_note_start(t, p) {
                spec_note(t, s)
            } else if k == TokenTypes::Colon && is_note_end(t, p) {
                Err(ParseError::StrayNoteEnd)
            } else {
                spec_paragraph(t, s)
            };
            match r {
                Err(e) => Err(e),
                Ok((st2, b)) => Ok((st2, Some(b))),
            }
        }
    }
}

/// The blocks from `st.pos` to the end of the tokens, added to `acc`.
pub open spec fn spec_blocks(t: Seq<SpecToken>, st: ParseState, acc: Seq<SpecBlock>) -> PResult<
    Seq<SpecBlock>,
>
    decreases t.len() - st.pos,
{
    if st.pos < 0 || st.pos >= t.len() {
        Ok((st, acc))
    } else {
        match spec_block(t, st) {
            Err(e) => Err(e),
            Ok((st2, b)) => if advanced(t, st, st2) {
                let acc2 = match b {
                    Some(blk) => acc.push(blk),
                    None => acc,
                };
                spec_blocks(t, st2, acc2)
            } else {
                Err(ParseError::NoProgress)
            },
        }
    }
}

/// The document that the tokens from `st.pos` on make up.
pub open spec fn spec_parse(t: Seq<SpecToken>, st: ParseState) -> PResult<SpecDocument> {
    match spec_blocks(t, st, Seq::empty()) {
        Err(e) => Err(e),
        Ok((st2, blocks)) => Ok((st2, SpecDocument { children: blocks })),
    }
}

} // verus!
